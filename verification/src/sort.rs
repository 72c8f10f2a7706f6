//! Stable insertion sort, as a specification and a lemma that locates where
//! each element goes.
use vstd::prelude::*;

verus! {

/// `x` put into `s` just before the first element it is less than (after
/// any it is not less than), so equal elements keep their order.
pub open spec fn insert_by<A>(x: A, s: Seq<A>, lt: spec_fn(A, A) -> bool) -> Seq<A>
    decreases s.len(),
{
    if s.len() == 0 {
        seq![x]
    } else if lt(x, s[0]) {
        seq![x] + s
    } else {
        seq![s[0]] + insert_by(x, s.drop_first(), lt)
    }
}

/// The stable sort of `s` by the strict order `lt`.
pub open spec fn sort_by<A>(s: Seq<A>, lt: spec_fn(A, A) -> bool) -> Seq<A>
    decreases s.len(),
{
    if s.len() == 0 {
        Seq::empty()
    } else {
        insert_by(s.last(), sort_by(s.drop_last(), lt), lt)
    }
}

/// `insert_by` puts `x` at the first index `k` whose element `x` is less than.
pub proof fn lemma_insert_at<A>(x: A, s: Seq<A>, lt: spec_fn(A, A) -> bool, k: int)
    requires
        0 <= k <= s.len(),
        forall|j: int| 0 <= j < k ==> !lt(x, #[trigger] s[j]),
        k == s.len() || lt(x, s[k]),
    ensures
        insert_by(x, s, lt) == s.subrange(0, k).push(x) + s.subrange(k, s.len() as int),
    decreases s.len(),
{
    if s.len() == 0 {
        assert(insert_by(x, s, lt) =~= s.subrange(0, k).push(x) + s.subrange(k, s.len() as int));
    } else if k == 0 {
        assert(insert_by(x, s, lt) =~= s.subrange(0, k).push(x) + s.subrange(k, s.len() as int));
    } else {
        assert(!lt(x, s[0]));
        let t = s.drop_first();
        assert forall|j: int| 0 <= j < k - 1 implies !lt(x, #[trigger] t[j]) by {
            assert(t[j] == s[j + 1]);
        }
        lemma_insert_at(x, t, lt, k - 1);
        assert(insert_by(x, s, lt) =~= s.subrange(0, k).push(x) + s.subrange(k, s.len() as int));
    }
}

/// Sorting a prefix one element longer inserts that element.
pub proof fn lemma_sort_by_step<A>(s: Seq<A>, lt: spec_fn(A, A) -> bool, i: int)
    requires
        0 <= i < s.len(),
    ensures
        sort_by(s.subrange(0, i + 1), lt) == insert_by(s[i], sort_by(s.subrange(0, i), lt), lt),
{
    assert(s.subrange(0, i + 1).drop_last() =~= s.subrange(0, i));
}

/// Inserting adds exactly one occurrence of `x`.
pub proof fn lemma_insert_by_multiset<A>(x: A, s: Seq<A>, lt: spec_fn(A, A) -> bool)
    ensures
        insert_by(x, s, lt).to_multiset() == s.to_multiset().insert(x),
    decreases s.len(),
{
    broadcast use vstd::seq_lib::group_to_multiset_ensures;

    if s.len() == 0 {
        assert(seq![x] =~= Seq::<A>::empty().push(x));
    } else if lt(x, s[0]) {
        vstd::seq_lib::lemma_multiset_commutative(seq![x], s);
        assert(seq![x] =~= Seq::<A>::empty().push(x));
    } else {
        let t = s.drop_first();
        lemma_insert_by_multiset(x, t, lt);
        vstd::seq_lib::lemma_multiset_commutative(seq![s[0]], insert_by(x, t, lt));
        vstd::seq_lib::lemma_multiset_commutative(seq![s[0]], t);
        assert(seq![s[0]] + t =~= s);
        assert(seq![s[0]] =~= Seq::<A>::empty().push(s[0]));
    }
}

/// Sorting keeps exactly the same elements.
pub proof fn lemma_sort_by_multiset<A>(s: Seq<A>, lt: spec_fn(A, A) -> bool)
    ensures
        sort_by(s, lt).to_multiset() == s.to_multiset(),
    decreases s.len(),
{
    broadcast use vstd::seq_lib::group_to_multiset_ensures;

    if s.len() > 0 {
        lemma_sort_by_multiset(s.drop_last(), lt);
        lemma_insert_by_multiset(s.last(), sort_by(s.drop_last(), lt), lt);
        assert(s.drop_last().push(s.last()) =~= s);
    }
}

/// Inserting commutes with a map that carries one order onto another on
/// the elements involved.
pub proof fn lemma_insert_by_map<A, B>(
    x: A,
    s: Seq<A>,
    lt: spec_fn(A, A) -> bool,
    f: spec_fn(A) -> B,
    lt2: spec_fn(B, B) -> bool,
)
    requires
        forall|i: int| 0 <= i < s.len() ==> lt(x, #[trigger] s[i]) == lt2(f(x), f(s[i])),
    ensures
        insert_by(x, s, lt).map_values(f) == insert_by(f(x), s.map_values(f), lt2),
    decreases s.len(),
{
    if s.len() == 0 {
        assert(seq![x].map_values(f) =~= seq![f(x)]);
    } else if lt(x, s[0]) {
        assert((seq![x] + s).map_values(f) =~= seq![f(x)] + s.map_values(f));
    } else {
        let t = s.drop_first();
        assert forall|i: int| 0 <= i < t.len() implies lt(x, #[trigger] t[i]) == lt2(f(x), f(t[i])) by {
            assert(t[i] == s[i + 1]);
        }
        lemma_insert_by_map(x, t, lt, f, lt2);
        assert(s.map_values(f).drop_first() =~= t.map_values(f));
        assert((seq![s[0]] + insert_by(x, t, lt)).map_values(f) =~= seq![f(s[0])] + insert_by(
            x,
            t,
            lt,
        ).map_values(f));
    }
}

/// Sorting commutes with a map that carries one order onto another on the
/// elements of the sequence.
pub proof fn lemma_sort_by_map<A, B>(
    s: Seq<A>,
    lt: spec_fn(A, A) -> bool,
    f: spec_fn(A) -> B,
    lt2: spec_fn(B, B) -> bool,
)
    requires
        forall|x: A, y: A| s.contains(x) && s.contains(y) ==> #[trigger] lt(x, y) == lt2(f(x), f(y)),
    ensures
        sort_by(s, lt).map_values(f) == sort_by(s.map_values(f), lt2),
    decreases s.len(),
{
    broadcast use vstd::seq_lib::group_to_multiset_ensures;

    if s.len() > 0 {
        let d = s.drop_last();
        assert forall|x: A, y: A| d.contains(x) && d.contains(y) implies #[trigger] lt(x, y) == lt2(
            f(x),
            f(y),
        ) by {
            let i = choose|i: int| 0 <= i < d.len() && d[i] == x;
            let j = choose|j: int| 0 <= j < d.len() && d[j] == y;
            assert(s[i] == x && s[j] == y);
        }
        lemma_sort_by_map(d, lt, f, lt2);
        let t = sort_by(d, lt);
        lemma_sort_by_multiset(d, lt);
        assert(s.contains(s.last())) by {
            assert(s[s.len() - 1] == s.last());
        }
        assert forall|i: int| 0 <= i < t.len() implies lt(s.last(), #[trigger] t[i]) == lt2(
            f(s.last()),
            f(t[i]),
        ) by {
            assert(t.contains(t[i]));
            assert(t.to_multiset().count(t[i]) > 0);
            assert(d.contains(t[i]));
            let j = choose|j: int| 0 <= j < d.len() && d[j] == t[i];
            assert(s[j] == t[i]);
        }
        lemma_insert_by_map(s.last(), t, lt, f, lt2);
        assert(s.map_values(f).drop_last() =~= d.map_values(f));
    }
}

/// Two sequences sorted by an order that is total on their elements, with
/// the same elements, are the same sequence.
pub proof fn lemma_sorted_unique<A>(x: Seq<A>, y: Seq<A>, lt: spec_fn(A, A) -> bool)
    requires
        sorted_by(x, lt),
        sorted_by(y, lt),
        x.to_multiset() == y.to_multiset(),
        forall|u: A, v: A| x.contains(u) && x.contains(v) && u != v ==> #[trigger] lt(u, v) || lt(v, u),
    ensures
        x == y,
    decreases x.len(),
{
    broadcast use vstd::seq_lib::group_to_multiset_ensures;

    assert(x.to_multiset().len() == x.len());
    assert(y.to_multiset().len() == y.len());
    assert(x.len() == y.len());
    if x.len() == 0 {
        assert(x =~= y);
    } else {
        let u = x[0];
        let v = y[0];
        assert(x.contains(u));
        assert(y.contains(v));
        assert(y.to_multiset().count(u) > 0);
        assert(y.contains(u));
        assert(x.to_multiset().count(v) > 0);
        assert(x.contains(v));
        if u != v {
            let j = choose|j: int| 0 <= j < y.len() && y[j] == u;
            let k = choose|k: int| 0 <= k < x.len() && x[k] == v;
            assert(j > 0 && k > 0);
            assert(!lt(y[j], y[0]));
            assert(!lt(x[k], x[0]));
            assert(lt(u, v) || lt(v, u));
        }
        let x2 = x.drop_first();
        let y2 = y.drop_first();
        assert(x.remove(0) =~= x2);
        assert(y.remove(0) =~= y2);
        assert(x2.to_multiset() =~= y2.to_multiset());
        assert forall|i: int, j: int| 0 <= i < j < x2.len() implies !lt(#[trigger] x2[j], #[trigger] x2[i]) by {
            assert(x2[j] == x[j + 1] && x2[i] == x[i + 1]);
        }
        assert forall|i: int, j: int| 0 <= i < j < y2.len() implies !lt(#[trigger] y2[j], #[trigger] y2[i]) by {
            assert(y2[j] == y[j + 1] && y2[i] == y[i + 1]);
        }
        assert forall|a: A, b: A| x2.contains(a) && x2.contains(b) && a != b implies #[trigger] lt(a, b)
            || lt(b, a) by {
            let i = choose|i: int| 0 <= i < x2.len() && x2[i] == a;
            let j = choose|j: int| 0 <= j < x2.len() && x2[j] == b;
            assert(x[i + 1] == a && x[j + 1] == b);
            assert(x.contains(a) && x.contains(b));
        }
        lemma_sorted_unique(x2, y2, lt);
        assert(x =~= seq![u] + x2);
        assert(y =~= seq![v] + y2);
    }
}

/// `lt` is a strict order: irreflexive and transitive.
pub open spec fn strict_order<A>(lt: spec_fn(A, A) -> bool) -> bool {
    &&& forall|a: A| !#[trigger] lt(a, a)
    &&& forall|a: A, b: A, c: A| #![trigger lt(a, b), lt(b, c)] lt(a, b) && lt(b, c) ==> lt(a, c)
}

/// No element comes after one it is less than.
pub open spec fn sorted_by<A>(s: Seq<A>, lt: spec_fn(A, A) -> bool) -> bool {
    forall|i: int, j: int| 0 <= i < j < s.len() ==> !lt(#[trigger] s[j], #[trigger] s[i])
}

proof fn lemma_insert_by_sorted<A>(x: A, s: Seq<A>, lt: spec_fn(A, A) -> bool)
    requires
        strict_order(lt),
        sorted_by(s, lt),
    ensures
        sorted_by(insert_by(x, s, lt), lt),
        insert_by(x, s, lt).len() == s.len() + 1,
    decreases s.len(),
{
    broadcast use vstd::seq_lib::group_to_multiset_ensures;

    if s.len() == 0 {
    } else if lt(x, s[0]) {
        let r = seq![x] + s;
        assert forall|i: int, j: int| 0 <= i < j < r.len() implies !lt(#[trigger] r[j], #[trigger] r[i]) by {
            if i == 0 {
                assert(r[j] == s[j - 1]);
                if lt(s[j - 1], x) {
                    if j - 1 > 0 {
                        assert(!lt(s[j - 1], s[0]));
                    }
                    assert(lt(s[j - 1], s[0]));
                }
            } else {
                assert(r[i] == s[i - 1] && r[j] == s[j - 1]);
            }
        }
    } else {
        let t = s.drop_first();
        assert(sorted_by(t, lt)) by {
            assert forall|i: int, j: int| 0 <= i < j < t.len() implies !lt(#[trigger] t[j], #[trigger] t[i]) by {
                assert(t[i] == s[i + 1] && t[j] == s[j + 1]);
            }
        }
        lemma_insert_by_sorted(x, t, lt);
        let it = insert_by(x, t, lt);
        let r = seq![s[0]] + it;
        lemma_insert_by_multiset(x, t, lt);
        assert forall|i: int, j: int| 0 <= i < j < r.len() implies !lt(#[trigger] r[j], #[trigger] r[i]) by {
            if i == 0 {
                assert(r[j] == it[j - 1]);
                assert(it.contains(it[j - 1]));
                assert(it.to_multiset().count(it[j - 1]) > 0);
                assert(t.to_multiset().insert(x).count(it[j - 1]) > 0);
                if it[j - 1] == x {
                } else {
                    assert(t.to_multiset().count(it[j - 1]) > 0);
                    assert(t.contains(it[j - 1]));
                    let k = choose|k: int| 0 <= k < t.len() && t[k] == it[j - 1];
                    assert(s[k + 1] == t[k]);
                }
            } else {
                assert(r[i] == it[i - 1] && r[j] == it[j - 1]);
            }
        }
    }
}

/// The stable sort of `s` by a strict order is sorted.
pub proof fn lemma_sort_by_sorted<A>(s: Seq<A>, lt: spec_fn(A, A) -> bool)
    requires
        strict_order(lt),
    ensures
        sorted_by(sort_by(s, lt), lt),
        sort_by(s, lt).len() == s.len(),
    decreases s.len(),
{
    if s.len() > 0 {
        lemma_sort_by_sorted(s.drop_last(), lt);
        lemma_insert_by_sorted(s.last(), sort_by(s.drop_last(), lt), lt);
    }
}

} // verus!
