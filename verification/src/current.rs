//! The wallpaper saved for each compositor output: a map from output name to
//! wallpaper path whose entries are kept in key order, as the saved file
//! lists them.
use vstd::prelude::*;

use crate::text::{
    chars_order, lemma_chars_order_equal, lemma_chars_order_flip, lemma_chars_order_trans,
    order_chars, Order,
};

verus! {

/// Entries strictly increasing by key.
pub open spec fn keys_sorted(es: Seq<(Seq<char>, Seq<char>)>) -> bool {
    forall|i: int, j: int|
        0 <= i < j < es.len() ==> chars_order(#[trigger] es[i].0, #[trigger] es[j].0) == Order::Less
}

/// The value stored under `k`, if any.
pub open spec fn lookup(es: Seq<(Seq<char>, Seq<char>)>, k: Seq<char>) -> Option<Seq<char>>
    decreases es.len(),
{
    if es.len() == 0 {
        None
    } else if es.last().0 == k {
        Some(es.last().1)
    } else {
        lookup(es.drop_last(), k)
    }
}

/// The keys, in order.
pub open spec fn keys_of(es: Seq<(Seq<char>, Seq<char>)>) -> Seq<Seq<char>> {
    es.map_values(|e: (Seq<char>, Seq<char>)| e.0)
}

/// How many leading entries have keys before `k`.
pub open spec fn lead_less(es: Seq<(Seq<char>, Seq<char>)>, k: Seq<char>) -> nat
    decreases es.len(),
{
    if es.len() == 0 {
        0
    } else if chars_order(es[0].0, k) == Order::Less {
        1 + lead_less(es.drop_first(), k)
    } else {
        0
    }
}

/// `es` with `v` stored under `k`: the entry for `k` replaced, or a new
/// entry at its place in key order.
pub open spec fn put(es: Seq<(Seq<char>, Seq<char>)>, k: Seq<char>, v: Seq<char>) -> Seq<
    (Seq<char>, Seq<char>),
> {
    let i = lead_less(es, k) as int;
    if i < es.len() && es[i].0 == k {
        es.update(i, (k, v))
    } else {
        es.insert(i, (k, v))
    }
}

proof fn lemma_lead_less(es: Seq<(Seq<char>, Seq<char>)>, k: Seq<char>, idx: int)
    requires
        0 <= idx <= es.len(),
        forall|j: int| 0 <= j < idx ==> chars_order(#[trigger] es[j].0, k) == Order::Less,
        idx == es.len() || chars_order(es[idx].0, k) != Order::Less,
    ensures
        lead_less(es, k) == idx,
    decreases es.len(),
{
    if es.len() > 0 && idx > 0 {
        let t = es.drop_first();
        assert forall|j: int| 0 <= j < idx - 1 implies chars_order(#[trigger] t[j].0, k)
            == Order::Less by {
            assert(t[j] == es[j + 1]);
        }
        if idx < es.len() {
            assert(t[idx - 1] == es[idx]);
        }
        lemma_lead_less(t, k, idx - 1);
    }
}

/// Persisted wallpaper path per output.
#[derive(Debug)]
pub struct Current {
    outputs: Vec<(String, String)>,
}

pub open spec fn entries_view(v: Seq<(String, String)>) -> Seq<(Seq<char>, Seq<char>)> {
    v.map_values(|e: (String, String)| (e.0@, e.1@))
}

impl View for Current {
    type V = Seq<(Seq<char>, Seq<char>)>;

    closed spec fn view(&self) -> Seq<(Seq<char>, Seq<char>)> {
        entries_view(self.outputs@)
    }
}

proof fn lemma_lookup_found(es: Seq<(Seq<char>, Seq<char>)>, i: int)
    requires
        keys_sorted(es),
        0 <= i < es.len(),
    ensures
        lookup(es, es[i].0) == Some(es[i].1),
    decreases es.len(),
{
    if i < es.len() - 1 {
        let last = es.len() - 1;
        lemma_chars_order_equal(es[i].0, es[last].0);
        assert(es[i].0 != es.last().0);
        assert(keys_sorted(es.drop_last()));
        lemma_lookup_found(es.drop_last(), i);
    }
}

proof fn lemma_lookup_absent(es: Seq<(Seq<char>, Seq<char>)>, k: Seq<char>)
    requires
        forall|i: int| 0 <= i < es.len() ==> #[trigger] es[i].0 != k,
    ensures
        lookup(es, k) is None,
    decreases es.len(),
{
    if es.len() > 0 {
        assert(es[es.len() - 1].0 != k);
        lemma_lookup_absent(es.drop_last(), k);
    }
}

/// `lookup` finds `k` exactly when some entry has key `k`, and then gives
/// that entry's value.
pub proof fn lemma_lookup(es: Seq<(Seq<char>, Seq<char>)>, k: Seq<char>)
    requires
        keys_sorted(es),
    ensures
        lookup(es, k) is Some <==> exists|i: int| 0 <= i < es.len() && es[i].0 == k,
        forall|i: int| 0 <= i < es.len() && es[i].0 == k ==> lookup(es, k) == Some(es[i].1),
{
    if exists|i: int| 0 <= i < es.len() && es[i].0 == k {
        let i = choose|i: int| 0 <= i < es.len() && es[i].0 == k;
        lemma_lookup_found(es, i);
        assert forall|j: int| 0 <= j < es.len() && es[j].0 == k implies lookup(es, k) == Some(
            es[j].1,
        ) by {
            lemma_lookup_found(es, j);
        }
    } else {
        lemma_lookup_absent(es, k);
    }
}

proof fn lemma_lead_less_bounds(es: Seq<(Seq<char>, Seq<char>)>, k: Seq<char>)
    ensures
        lead_less(es, k) <= es.len(),
        forall|j: int| 0 <= j < lead_less(es, k) ==> chars_order(#[trigger] es[j].0, k) == Order::Less,
        lead_less(es, k) < es.len() ==> chars_order(es[lead_less(es, k) as int].0, k) != Order::Less,
    decreases es.len(),
{
    if es.len() > 0 && chars_order(es[0].0, k) == Order::Less {
        let t = es.drop_first();
        lemma_lead_less_bounds(t, k);
        assert forall|j: int| 0 <= j < lead_less(es, k) implies chars_order(#[trigger] es[j].0, k)
            == Order::Less by {
            if j > 0 {
                assert(es[j] == t[j - 1]);
            }
        }
        if lead_less(es, k) < es.len() {
            assert(es[lead_less(es, k) as int] == t[lead_less(t, k) as int]);
        }
    }
}

proof fn lemma_put_update(es: Seq<(Seq<char>, Seq<char>)>, k: Seq<char>, v: Seq<char>, idx: int)
    requires
        keys_sorted(es),
        0 <= idx < es.len(),
        es[idx].0 == k,
        put(es, k, v) == es.update(idx, (k, v)),
    ensures
        keys_sorted(put(es, k, v)),
        lookup(put(es, k, v), k) == Some(v),
        forall|k2: Seq<char>| k2 != k ==> lookup(put(es, k, v), k2) == lookup(es, k2),
        keys_of(put(es, k, v)).to_set() == keys_of(es).to_set().insert(k),
{
    let e2 = put(es, k, v);
    assert(keys_sorted(e2));
    lemma_lookup_found(e2, idx);
    assert forall|k2: Seq<char>| k2 != k implies lookup(e2, k2) == lookup(es, k2) by {
        lemma_lookup(e2, k2);
        lemma_lookup(es, k2);
        if exists|i: int| 0 <= i < e2.len() && e2[i].0 == k2 {
            let i = choose|i: int| 0 <= i < e2.len() && e2[i].0 == k2;
            assert(es[i].0 == k2);
        }
        if exists|i: int| 0 <= i < es.len() && es[i].0 == k2 {
            let i = choose|i: int| 0 <= i < es.len() && es[i].0 == k2;
            assert(e2[i].0 == k2);
        }
    }
    assert(keys_of(e2) =~= keys_of(es));
    assert(keys_of(es).to_set().contains(k)) by {
        assert(keys_of(es)[idx] == k);
    }
    assert(keys_of(e2).to_set() =~= keys_of(es).to_set().insert(k));
}

proof fn lemma_insert_sorted(es: Seq<(Seq<char>, Seq<char>)>, k: Seq<char>, v: Seq<char>, idx: int)
    requires
        keys_sorted(es),
        0 <= idx <= es.len(),
        forall|j: int| 0 <= j < idx ==> chars_order(#[trigger] es[j].0, k) == Order::Less,
        idx < es.len() ==> chars_order(k, es[idx].0) == Order::Less,
    ensures
        keys_sorted(es.insert(idx, (k, v))),
{
    let e2 = es.insert(idx, (k, v));
    assert forall|i: int, j: int| 0 <= i < j < e2.len() implies chars_order(
        #[trigger] e2[i].0,
        #[trigger] e2[j].0,
    ) == Order::Less by {
        if j == idx {
            assert(e2[i] == es[i]);
        } else if i == idx {
            assert(e2[j] == es[j - 1]);
            if j - 1 > idx {
                lemma_chars_order_trans(k, es[idx].0, es[j - 1].0);
            }
        } else if j < idx {
            assert(e2[i] == es[i] && e2[j] == es[j]);
        } else if i < idx {
            assert(e2[i] == es[i] && e2[j] == es[j - 1]);
        } else {
            assert(e2[i] == es[i - 1] && e2[j] == es[j - 1]);
        }
    }
}

proof fn lemma_insert_keys(es: Seq<(Seq<char>, Seq<char>)>, k: Seq<char>, v: Seq<char>, idx: int)
    requires
        0 <= idx <= es.len(),
    ensures
        keys_of(es.insert(idx, (k, v))).to_set() == keys_of(es).to_set().insert(k),
{
    let e2 = es.insert(idx, (k, v));
    assert(keys_of(e2) =~= keys_of(es).insert(idx, k));
    assert forall|x: Seq<char>| keys_of(e2).to_set().contains(x) implies keys_of(
        es,
    ).to_set().insert(k).contains(x) by {
        let i = choose|i: int| 0 <= i < keys_of(e2).len() && keys_of(e2)[i] == x;
        if i < idx {
            assert(keys_of(es)[i] == x);
        } else if i > idx {
            assert(keys_of(es)[i - 1] == x);
        }
    }
    assert forall|x: Seq<char>| keys_of(es).to_set().insert(k).contains(x) implies keys_of(
        e2,
    ).to_set().contains(x) by {
        if x == k {
            assert(keys_of(e2)[idx] == x);
        } else {
            let i = choose|i: int| 0 <= i < keys_of(es).len() && keys_of(es)[i] == x;
            if i < idx {
                assert(keys_of(e2)[i] == x);
            } else {
                assert(keys_of(e2)[i + 1] == x);
            }
        }
    }
    assert(keys_of(e2).to_set() =~= keys_of(es).to_set().insert(k));
}

proof fn lemma_put_insert(es: Seq<(Seq<char>, Seq<char>)>, k: Seq<char>, v: Seq<char>, idx: int)
    requires
        keys_sorted(es),
        0 <= idx <= es.len(),
        forall|j: int| 0 <= j < idx ==> chars_order(#[trigger] es[j].0, k) == Order::Less,
        idx < es.len() ==> chars_order(k, es[idx].0) == Order::Less,
        put(es, k, v) == es.insert(idx, (k, v)),
    ensures
        keys_sorted(put(es, k, v)),
        lookup(put(es, k, v), k) == Some(v),
        forall|k2: Seq<char>| k2 != k ==> lookup(put(es, k, v), k2) == lookup(es, k2),
        keys_of(put(es, k, v)).to_set() == keys_of(es).to_set().insert(k),
{
    let e2 = put(es, k, v);
    lemma_insert_sorted(es, k, v, idx);
    lemma_insert_keys(es, k, v, idx);
    lemma_lookup_found(e2, idx);
    assert forall|k2: Seq<char>| k2 != k implies lookup(e2, k2) == lookup(es, k2) by {
        lemma_lookup(e2, k2);
        lemma_lookup(es, k2);
        if exists|i: int| 0 <= i < e2.len() && e2[i].0 == k2 {
            let i = choose|i: int| 0 <= i < e2.len() && e2[i].0 == k2;
            if i < idx {
                assert(es[i].0 == k2);
            } else {
                assert(es[i - 1].0 == k2);
            }
        }
        if exists|i: int| 0 <= i < es.len() && es[i].0 == k2 {
            let i = choose|i: int| 0 <= i < es.len() && es[i].0 == k2;
            if i < idx {
                assert(e2[i].0 == k2);
            } else {
                assert(e2[i + 1].0 == k2);
            }
        }
    }
}

/// What is stored under an output is what is read back for it, and storing
/// it leaves every other output's entry as it was; the entries stay in key
/// order, and the outputs are the old ones plus this one.
pub proof fn law_put_then_lookup(es: Seq<(Seq<char>, Seq<char>)>, k: Seq<char>, v: Seq<char>)
    requires
        keys_sorted(es),
    ensures
        keys_sorted(put(es, k, v)),
        lookup(put(es, k, v), k) == Some(v),
        forall|k2: Seq<char>| k2 != k ==> lookup(put(es, k, v), k2) == lookup(es, k2),
        keys_of(put(es, k, v)).to_set() == keys_of(es).to_set().insert(k),
{
    lemma_lead_less_bounds(es, k);
    let idx = lead_less(es, k) as int;
    if idx < es.len() && es[idx].0 == k {
        lemma_put_update(es, k, v, idx);
    } else {
        if idx < es.len() {
            lemma_chars_order_equal(es[idx].0, k);
            lemma_chars_order_flip(k, es[idx].0);
        }
        lemma_put_insert(es, k, v, idx);
    }
}

impl Current {
    #[verifier::type_invariant]
    closed spec fn wf(self) -> bool {
        keys_sorted(entries_view(self.outputs@))
    }

    /// An empty map.
    pub fn new() -> (r: Current)
        ensures
            r@ == Seq::<(Seq<char>, Seq<char>)>::empty(),
    {
        let r = Current { outputs: Vec::new() };
        assert(r@ =~= Seq::<(Seq<char>, Seq<char>)>::empty());
        r
    }

    /// The wallpaper saved for `output`.
    pub fn get_output(&self, output: &str) -> (r: Option<&str>)
        ensures
            match r {
                Some(p) => lookup(self@, output@) == Some(p@),
                None => lookup(self@, output@) is None,
            },
    {
        proof {
            use_type_invariant(self);
            lemma_lookup(self@, output@);
        }
        let key = crate::text::chars_of(output);
        let mut i: usize = 0;
        while i < self.outputs.len()
            invariant
                i <= self.outputs@.len(),
                key@ == output@,
                keys_sorted(self@),
                self@ == entries_view(self.outputs@),
                forall|j: int| 0 <= j < i ==> #[trigger] self@[j].0 != output@,
            decreases self.outputs@.len() - i,
        {
            let k = crate::text::chars_of(self.outputs[i].0.as_str());
            if crate::text::same_chars(k.as_slice(), key.as_slice()) {
                proof {
                    lemma_lookup_found(self@, i as int);
                }
                return Some(self.outputs[i].1.as_str());
            }
            i = i + 1;
        }
        proof {
            lemma_lookup_absent(self@, output@);
        }
        None
    }

    /// Stores `path` for every output already saved.
    pub fn set_every(&mut self, path: &str)
        ensures
            final(self)@ == old(self)@.map_values(
                |e: (Seq<char>, Seq<char>)| (e.0, path@),
            ),
    {
        proof {
            use_type_invariant(&*self);
        }
        let ghost old_es = self@;
        let mut v: Vec<(String, String)> = Vec::new();
        std::mem::swap(&mut v, &mut self.outputs);
        let n = v.len();
        let mut out: Vec<(String, String)> = Vec::new();
        let mut i: usize = 0;
        while i < n
            invariant
                n == v@.len(),
                old_es == entries_view(v@),
                i <= n,
                entries_view(out@) == old_es.subrange(0, i as int).map_values(
                    |e: (Seq<char>, Seq<char>)| (e.0, path@),
                ),
            decreases n - i,
        {
            let k = v[i].0.clone();
            let p = path.to_string();
            assert(old_es[i as int] == (v@[i as int].0@, v@[i as int].1@));
            let ghost before = entries_view(out@);
            out.push((k, p));
            assert(entries_view(out@) =~= before.push((old_es[i as int].0, path@)));
            assert(entries_view(out@) =~= old_es.subrange(0, i + 1).map_values(
                |e: (Seq<char>, Seq<char>)| (e.0, path@),
            ));
            i = i + 1;
        }
        assert(old_es.subrange(0, n as int) =~= old_es);
        assert(keys_sorted(entries_view(out@)));
        self.outputs = out;
    }

    /// A copy of every saved entry, in key order.
    pub fn entries(&self) -> (r: Vec<(String, String)>)
        ensures
            entries_view(r@) == self@,
    {
        let n = self.outputs.len();
        let mut out: Vec<(String, String)> = Vec::new();
        let mut i: usize = 0;
        while i < n
            invariant
                n == self.outputs@.len(),
                i <= n,
                entries_view(out@) == self@.subrange(0, i as int),
            decreases n - i,
        {
            let k = self.outputs[i].0.clone();
            let p = self.outputs[i].1.clone();
            assert(self@[i as int] == (self.outputs@[i as int].0@, self.outputs@[i as int].1@));
            let ghost before = entries_view(out@);
            out.push((k, p));
            assert(entries_view(out@) =~= before.push(self@[i as int]));
            assert(entries_view(out@) =~= self@.subrange(0, i + 1));
            i = i + 1;
        }
        assert(self@.subrange(0, n as int) =~= self@);
        out
    }

    /// Every saved entry, in key order.
    pub fn all(&self) -> (r: &Vec<(String, String)>)
        ensures
            entries_view(r@) == self@,
            keys_sorted(self@),
    {
        proof {
            use_type_invariant(self);
        }
        &self.outputs
    }

    /// Stores `path` for `output`, replacing what was saved for it and
    /// keeping every other entry.
    pub fn set_output(&mut self, output: String, path: String)
        ensures
            final(self)@ == put(old(self)@, output@, path@),
            keys_sorted(final(self)@),
            lookup(final(self)@, output@) == Some(path@),
            forall|k: Seq<char>| k != output@ ==> lookup(final(self)@, k) == lookup(old(self)@, k),
            keys_of(final(self)@).to_set() == keys_of(old(self)@).to_set().insert(output@),
    {
        proof {
            use_type_invariant(&*self);
        }
        let ghost old_es = self@;
        let okey: Vec<char> = crate::text::chars_of(output.as_str());
        let n = self.outputs.len();
        let mut idx: usize = 0;
        let mut found = false;
        while idx < n
            invariant_except_break
                n == self.outputs@.len(),
                old_es == entries_view(self.outputs@),
                keys_sorted(old_es),
                okey@ == output@,
                idx <= n,
                !found,
                forall|j: int| 0 <= j < idx ==> chars_order(#[trigger] old_es[j].0, output@) == Order::Less,
            ensures
                n == self.outputs@.len(),
                old_es == entries_view(self.outputs@),
                idx <= n,
                forall|j: int| 0 <= j < idx ==> chars_order(#[trigger] old_es[j].0, output@) == Order::Less,
                found ==> idx < n && old_es[idx as int].0 == output@,
                !found ==> idx == n || chars_order(old_es[idx as int].0, output@) == Order::Greater,
            decreases n - idx,
        {
            let kchars = crate::text::chars_of(self.outputs[idx].0.as_str());
            let o = order_chars(kchars.as_slice(), okey.as_slice());
            assert(old_es[idx as int].0 == self.outputs@[idx as int].0@);
            if o == Order::Equal {
                proof {
                    lemma_chars_order_equal(old_es[idx as int].0, output@);
                }
                found = true;
                break;
            } else if o == Order::Greater {
                break;
            }
            idx = idx + 1;
        }
        let ghost out_key = output@;
        let ghost pv = path@;
        proof {
            if found {
                lemma_chars_order_equal(old_es[idx as int].0, out_key);
                lemma_lead_less(old_es, out_key, idx as int);
            } else {
                if idx < n {
                    lemma_chars_order_equal(old_es[idx as int].0, out_key);
                }
                lemma_lead_less(old_es, out_key, idx as int);
            }
        }
        if found {
            let key = self.outputs[idx].0.clone();
            let mut v: Vec<(String, String)> = Vec::new();
            std::mem::swap(&mut v, &mut self.outputs);
            v.set(idx, (key, path));
            proof {
                assert(entries_view(v@) =~= put(old_es, out_key, pv));
                law_put_then_lookup(old_es, out_key, pv);
            }
            self.outputs = v;
        } else {
            let mut v: Vec<(String, String)> = Vec::new();
            std::mem::swap(&mut v, &mut self.outputs);
            v.insert(idx, (output, path));
            proof {
                assert(entries_view(v@) =~= put(old_es, out_key, pv));
                law_put_then_lookup(old_es, out_key, pv);
            }
            self.outputs = v;
        }
    }
}

} // verus!
