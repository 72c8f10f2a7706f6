//! A model of Unix paths held as strings: components, file name, stem,
//! extension, joining, equality and order, as `std::path` defines them.
use vstd::prelude::*;

use crate::text::{chars_order, order_chars, Order, lemma_chars_order_equal, lemma_chars_order_trans};

verus! {

/// One component of a Unix path.
pub enum Comp {
    Root,
    Cur,
    Parent,
    Normal(Seq<char>),
}

/// The pieces of `s` between the `/` separators, in order. There is always
/// at least one piece; empty pieces stand for doubled or trailing slashes.
pub open spec fn split_slash(s: Seq<char>) -> Seq<Seq<char>>
    decreases s.len(),
{
    if s.len() == 0 {
        seq![Seq::<char>::empty()]
    } else {
        let prev = split_slash(s.drop_last());
        if s.last() == '/' {
            prev.push(Seq::<char>::empty())
        } else {
            prev.update(prev.len() - 1, prev.last().push(s.last()))
        }
    }
}

pub proof fn lemma_split_slash_nonempty(s: Seq<char>)
    ensures
        split_slash(s).len() >= 1,
    decreases s.len(),
{
    if s.len() > 0 {
        lemma_split_slash_nonempty(s.drop_last());
    }
}

/// The component a single piece contributes: none for an empty piece or `.`,
/// `Parent` for `..`, and a normal name otherwise.
pub open spec fn piece_comps(p: Seq<char>) -> Seq<Comp> {
    if p.len() == 0 || p == seq!['.'] {
        Seq::empty()
    } else if p == seq!['.', '.'] {
        seq![Comp::Parent]
    } else {
        seq![Comp::Normal(p)]
    }
}

pub open spec fn pieces_comps(ps: Seq<Seq<char>>) -> Seq<Comp>
    decreases ps.len(),
{
    if ps.len() == 0 {
        Seq::empty()
    } else {
        pieces_comps(ps.drop_last()) + piece_comps(ps.last())
    }
}

pub open spec fn has_root(p: Seq<char>) -> bool {
    p.len() > 0 && p[0] == '/'
}

/// A path that starts with the component `.` (only at the very start does
/// `.` count as a component).
pub open spec fn has_cur(p: Seq<char>) -> bool {
    p.len() > 0 && p[0] == '.' && (p.len() == 1 || p[1] == '/')
}

/// The components of a path, as `Path::components` yields them on Unix.
pub open spec fn components(p: Seq<char>) -> Seq<Comp> {
    (if has_root(p) { seq![Comp::Root] } else { Seq::empty() }) + (if has_cur(p) {
        seq![Comp::Cur]
    } else {
        Seq::empty()
    }) + pieces_comps(split_slash(p))
}

/// The final component when it is a normal name (`Path::file_name`).
pub open spec fn file_name(p: Seq<char>) -> Option<Seq<char>> {
    let cs = components(p);
    if cs.len() > 0 && cs.last() is Normal {
        Some(cs.last()->Normal_0)
    } else {
        None
    }
}

/// Index of the last `.` in `n`.
pub open spec fn last_dot(n: Seq<char>) -> Option<int>
    decreases n.len(),
{
    if n.len() == 0 {
        None
    } else if n.last() == '.' {
        Some(n.len() - 1)
    } else {
        last_dot(n.drop_last())
    }
}

pub proof fn lemma_last_dot_range(n: Seq<char>)
    ensures
        last_dot(n) matches Some(i) ==> 0 <= i < n.len() && n[i] == '.',
    decreases n.len(),
{
    if n.len() > 0 && n.last() != '.' {
        lemma_last_dot_range(n.drop_last());
    }
}

/// Where a file name splits into stem and extension: at its last `.`,
/// unless that dot is the first character.
pub open spec fn ext_dot(n: Seq<char>) -> Option<int> {
    match last_dot(n) {
        Some(i) => if i > 0 { Some(i) } else { None },
        None => None,
    }
}

/// `Path::extension`.
pub open spec fn extension(p: Seq<char>) -> Option<Seq<char>> {
    match file_name(p) {
        Some(n) => match ext_dot(n) {
            Some(i) => Some(n.subrange(i + 1, n.len() as int)),
            None => None,
        },
        None => None,
    }
}

/// `Path::file_stem`.
pub open spec fn file_stem(p: Seq<char>) -> Option<Seq<char>> {
    match file_name(p) {
        Some(n) => match ext_dot(n) {
            Some(i) => Some(n.subrange(0, i)),
            None => Some(n),
        },
        None => None,
    }
}

/// `Path::join` on Unix: an absolute `rest` replaces `base`; otherwise a
/// separator is added unless `base` is empty or already ends with one.
pub open spec fn join(base: Seq<char>, rest: Seq<char>) -> Seq<char> {
    if has_root(rest) {
        rest
    } else if base.len() > 0 && base.last() != '/' {
        base + seq!['/'] + rest
    } else {
        base + rest
    }
}

/// Two paths are the same path when their components agree (`Path`'s `==`).
pub open spec fn same_path(a: Seq<char>, b: Seq<char>) -> bool {
    components(a) == components(b)
}

/// Rank of a component kind in `std::path::Component`'s derived order.
pub open spec fn comp_rank(c: Comp) -> int {
    match c {
        Comp::Root => 0,
        Comp::Cur => 1,
        Comp::Parent => 2,
        Comp::Normal(_) => 3,
    }
}

pub open spec fn comp_order(a: Comp, b: Comp) -> Order {
    if comp_rank(a) < comp_rank(b) {
        Order::Less
    } else if comp_rank(a) > comp_rank(b) {
        Order::Greater
    } else {
        match (a, b) {
            (Comp::Normal(x), Comp::Normal(y)) => chars_order(x, y),
            _ => Order::Equal,
        }
    }
}

/// Lexicographic order of component sequences.
pub open spec fn comps_order(a: Seq<Comp>, b: Seq<Comp>) -> Order
    decreases a.len(),
{
    if a.len() == 0 {
        if b.len() == 0 {
            Order::Equal
        } else {
            Order::Less
        }
    } else if b.len() == 0 {
        Order::Greater
    } else if comp_order(a[0], b[0]) != Order::Equal {
        comp_order(a[0], b[0])
    } else {
        comps_order(a.drop_first(), b.drop_first())
    }
}

/// The order of paths (`Path`'s `Ord`): by components.
pub open spec fn path_order(a: Seq<char>, b: Seq<char>) -> Order {
    comps_order(components(a), components(b))
}

/// A path component held at run time.
pub enum Part {
    Root,
    Cur,
    Parent,
    Normal(Vec<char>),
}

impl View for Part {
    type V = Comp;

    open spec fn view(&self) -> Comp {
        match self {
            Part::Root => Comp::Root,
            Part::Cur => Comp::Cur,
            Part::Parent => Comp::Parent,
            Part::Normal(v) => Comp::Normal(v@),
        }
    }
}

pub open spec fn parts_view(v: Seq<Part>) -> Seq<Comp> {
    v.map_values(|x: Part| x@)
}

proof fn lemma_split_slash_push(s: Seq<char>, c: char)
    ensures
        split_slash(s.push(c)) == (if c == '/' {
            split_slash(s).push(Seq::<char>::empty())
        } else {
            split_slash(s).update(
                split_slash(s).len() - 1,
                split_slash(s).last().push(c),
            )
        }),
{
    assert(s.push(c).drop_last() =~= s);
}

fn piece_parts(out: &mut Vec<Part>, piece: Vec<char>)
    ensures
        parts_view(final(out)@) == parts_view(old(out)@) + piece_comps(piece@),
{
    let ghost before = parts_view(out@);
    let n = piece.len();
    if n == 0 || (n == 1 && piece[0] == '.') {
        proof {
            if n == 1 {
                assert(piece@ =~= seq!['.']);
            }
        }
        assert(parts_view(out@) =~= before + piece_comps(piece@));
    } else if n == 2 && piece[0] == '.' && piece[1] == '.' {
        assert(piece@ =~= seq!['.', '.']);
        out.push(Part::Parent);
        assert(parts_view(out@) =~= before + piece_comps(piece@));
    } else {
        proof {
            if n == 1 {
                assert(piece@ != seq!['.']) by {
                    if piece@ == seq!['.'] {
                        assert(piece@[0] == '.');
                    }
                }
            }
            if n == 2 {
                assert(piece@ != seq!['.', '.']) by {
                    if piece@ == seq!['.', '.'] {
                        assert(piece@[0] == '.' && piece@[1] == '.');
                    }
                }
            }
        }
        let ghost pv = piece@;
        out.push(Part::Normal(piece));
        assert(parts_view(out@) =~= before + piece_comps(pv));
    }
}

/// The components of `p`.
pub fn components_of(p: &[char]) -> (r: Vec<Part>)
    ensures
        parts_view(r@) == components(p@),
{
    let mut out: Vec<Part> = Vec::new();
    if p.len() > 0 && p[0] == '/' {
        out.push(Part::Root);
    }
    if p.len() > 0 && p[0] == '.' && (p.len() == 1 || p[1] == '/') {
        out.push(Part::Cur);
    }
    let ghost prefix = parts_view(out@);
    assert(prefix =~= (if has_root(p@) { seq![Comp::Root] } else { Seq::empty() }) + (if has_cur(
        p@,
    ) {
        seq![Comp::Cur]
    } else {
        Seq::empty()
    }));
    let mut cur: Vec<char> = Vec::new();
    let mut i: usize = 0;
    proof {
        assert(p@.subrange(0, 0) =~= Seq::<char>::empty());
    }
    while i < p.len()
        invariant
            i <= p@.len(),
            split_slash(p@.subrange(0, i as int)).len() >= 1,
            cur@ == split_slash(p@.subrange(0, i as int)).last(),
            parts_view(out@) == prefix + pieces_comps(
                split_slash(p@.subrange(0, i as int)).drop_last(),
            ),
        decreases p@.len() - i,
    {
        let c = p[i];
        let ghost s = p@.subrange(0, i as int);
        proof {
            assert(p@.subrange(0, i + 1) =~= s.push(c));
            lemma_split_slash_push(s, c);
        }
        if c == '/' {
            let piece = cur;
            cur = Vec::new();
            piece_parts(&mut out, piece);
            proof {
                let ss = split_slash(s);
                assert(ss.push(Seq::<char>::empty()).drop_last() =~= ss);
                assert(ss =~= ss.drop_last().push(ss.last()));
                assert(pieces_comps(ss) == pieces_comps(ss.drop_last()) + piece_comps(ss.last()));
                assert(parts_view(out@) =~= prefix + pieces_comps(ss));
                assert(cur@ =~= Seq::<char>::empty());
            }
        } else {
            cur.push(c);
            proof {
                let ss = split_slash(s);
                assert(ss.update(ss.len() - 1, ss.last().push(c)).drop_last() =~= ss.drop_last());
            }
        }
        i = i + 1;
    }
    proof {
        assert(p@.subrange(0, p@.len() as int) =~= p@);
        let ss = split_slash(p@);
        assert(ss =~= ss.drop_last().push(ss.last()));
        assert(pieces_comps(ss) == pieces_comps(ss.drop_last()) + piece_comps(ss.last()));
    }
    piece_parts(&mut out, cur);
    assert(parts_view(out@) =~= components(p@));
    out
}


pub open spec fn opt_chars(o: Option<Vec<char>>) -> Option<Seq<char>> {
    match o {
        Some(v) => Some(v@),
        None => None,
    }
}

/// The final component of `p` when it is a normal name.
pub fn file_name_of(p: &[char]) -> (r: Option<Vec<char>>)
    ensures
        opt_chars(r) == file_name(p@),
{
    let mut comps = components_of(p);
    let ghost cs = parts_view(comps@);
    match comps.pop() {
        Some(Part::Normal(v)) => {
            assert(cs.last() == Comp::Normal(v@));
            Some(v)
        },
        Some(x) => {
            assert(cs.last() == x@);
            None
        },
        None => None,
    }
}

/// The index that `ext_dot` names.
pub fn ext_dot_of(n: &[char]) -> (r: Option<usize>)
    ensures
        match r {
            Some(i) => ext_dot(n@) == Some(i as int) && 0 < i < n@.len(),
            None => ext_dot(n@) is None,
        },
{
    proof {
        lemma_last_dot_range(n@);
    }
    let mut j: usize = n.len();
    assert(n@.subrange(0, j as int) =~= n@);
    while j > 0
        invariant
            j <= n@.len(),
            last_dot(n@) == last_dot(n@.subrange(0, j as int)),
        decreases j,
    {
        let ghost t = n@.subrange(0, j as int);
        if n[j - 1] == '.' {
            if j - 1 > 0 {
                return Some(j - 1);
            } else {
                return None;
            }
        }
        assert(t.drop_last() =~= n@.subrange(0, j - 1));
        j = j - 1;
    }
    None
}

/// `Path::extension`.
pub fn extension_of(p: &[char]) -> (r: Option<Vec<char>>)
    ensures
        opt_chars(r) == extension(p@),
{
    match file_name_of(p) {
        Some(n) => match ext_dot_of(n.as_slice()) {
            Some(i) => {
                let mut e: Vec<char> = Vec::new();
                let nl = n.len();
                assert(i < nl);
                let mut k: usize = i + 1;
                while k < n.len()
                    invariant
                        i < k <= n@.len(),
                        e@ == n@.subrange(i + 1, k as int),
                    decreases n@.len() - k,
                {
                    e.push(n[k]);
                    k = k + 1;
                }
                Some(e)
            },
            None => None,
        },
        None => None,
    }
}

/// `Path::file_stem`.
pub fn file_stem_of(p: &[char]) -> (r: Option<Vec<char>>)
    ensures
        opt_chars(r) == file_stem(p@),
{
    match file_name_of(p) {
        Some(n) => match ext_dot_of(n.as_slice()) {
            Some(i) => {
                let mut e: Vec<char> = Vec::new();
                let mut k: usize = 0;
                while k < i
                    invariant
                        k <= i < n@.len(),
                        e@ == n@.subrange(0, k as int),
                    decreases i - k,
                {
                    e.push(n[k]);
                    k = k + 1;
                }
                Some(e)
            },
            None => Some(n),
        },
        None => None,
    }
}

/// `Path::join` on Unix.
pub fn join_chars(base: &[char], rest: &[char]) -> (r: Vec<char>)
    ensures
        r@ == join(base@, rest@),
{
    let mut out: Vec<char> = Vec::new();
    if rest.len() > 0 && rest[0] == '/' {
        let mut k: usize = 0;
        while k < rest.len()
            invariant
                k <= rest@.len(),
                out@ == rest@.subrange(0, k as int),
            decreases rest@.len() - k,
        {
            out.push(rest[k]);
            k = k + 1;
        }
        assert(out@ =~= rest@);
        return out;
    }
    let mut k: usize = 0;
    while k < base.len()
        invariant
            k <= base@.len(),
            out@ == base@.subrange(0, k as int),
        decreases base@.len() - k,
    {
        out.push(base[k]);
        k = k + 1;
    }
    if base.len() > 0 && base[base.len() - 1] != '/' {
        out.push('/');
    }
    let ghost mid = out@;
    let mut k: usize = 0;
    while k < rest.len()
        invariant
            k <= rest@.len(),
            out@ == mid + rest@.subrange(0, k as int),
        decreases rest@.len() - k,
    {
        out.push(rest[k]);
        k = k + 1;
    }
    assert(base@.subrange(0, base@.len() as int) =~= base@);
    assert(rest@.subrange(0, rest@.len() as int) =~= rest@);
    assert(out@ =~= join(base@, rest@));
    out
}

pub proof fn lemma_comp_order_equal(a: Comp, b: Comp)
    ensures
        (comp_order(a, b) == Order::Equal) == (a == b),
{
    match (a, b) {
        (Comp::Normal(x), Comp::Normal(y)) => {
            lemma_chars_order_equal(x, y);
        },
        _ => {},
    }
}

pub proof fn lemma_comps_order_equal(a: Seq<Comp>, b: Seq<Comp>)
    ensures
        (comps_order(a, b) == Order::Equal) == (a == b),
    decreases a.len(),
{
    if a.len() == 0 && b.len() == 0 {
        assert(a =~= b);
    } else if a.len() > 0 && b.len() > 0 {
        lemma_comp_order_equal(a[0], b[0]);
        if a[0] == b[0] {
            lemma_comps_order_equal(a.drop_first(), b.drop_first());
            if a.drop_first() == b.drop_first() {
                assert(a =~= seq![a[0]] + a.drop_first());
                assert(b =~= seq![b[0]] + b.drop_first());
            } else if a == b {
                assert(a.drop_first() =~= b.drop_first());
            }
        }
    }
}

/// Component order is antisymmetric.
pub proof fn lemma_comps_order_flip(a: Seq<Comp>, b: Seq<Comp>)
    ensures
        (comps_order(a, b) == Order::Less) == (comps_order(b, a) == Order::Greater),
    decreases a.len(),
{
    if a.len() > 0 && b.len() > 0 {
        match (a[0], b[0]) {
            (Comp::Normal(x), Comp::Normal(y)) => {
                crate::text::lemma_chars_order_flip(x, y);
                crate::text::lemma_chars_order_flip(y, x);
            },
            _ => {},
        }
        lemma_comp_order_equal(a[0], b[0]);
        lemma_comp_order_equal(b[0], a[0]);
        lemma_comps_order_flip(a.drop_first(), b.drop_first());
    }
}

proof fn lemma_comp_order_trans(a: Comp, b: Comp, c: Comp)
    ensures
        comp_order(a, b) == Order::Less && comp_order(b, c) == Order::Less ==> comp_order(a, c)
            == Order::Less,
        comp_order(a, b) == Order::Less && comp_order(b, c) == Order::Equal ==> comp_order(a, c)
            == Order::Less,
        comp_order(a, b) == Order::Equal && comp_order(b, c) == Order::Less ==> comp_order(a, c)
            == Order::Less,
{
    lemma_comp_order_equal(a, b);
    lemma_comp_order_equal(b, c);
    match (a, b, c) {
        (Comp::Normal(x), Comp::Normal(y), Comp::Normal(z)) => {
            if chars_order(x, y) == Order::Less && chars_order(y, z) == Order::Less {
                lemma_chars_order_trans(x, y, z);
            }
        },
        _ => {},
    }
}

/// Component order is transitive on `Less`.
pub proof fn lemma_comps_order_trans(a: Seq<Comp>, b: Seq<Comp>, c: Seq<Comp>)
    requires
        comps_order(a, b) == Order::Less,
        comps_order(b, c) == Order::Less,
    ensures
        comps_order(a, c) == Order::Less,
    decreases a.len(),
{
    if a.len() > 0 && b.len() > 0 && c.len() > 0 {
        lemma_comp_order_trans(a[0], b[0], c[0]);
        lemma_comp_order_equal(a[0], b[0]);
        lemma_comp_order_equal(b[0], c[0]);
        if comp_order(a[0], b[0]) == Order::Equal && comp_order(b[0], c[0]) == Order::Equal {
            lemma_comps_order_trans(a.drop_first(), b.drop_first(), c.drop_first());
        }
    }
}

fn order_part(a: &Part, b: &Part) -> (r: Order)
    ensures
        r == comp_order(a@, b@),
{
    match (a, b) {
        (Part::Normal(x), Part::Normal(y)) => order_chars(x.as_slice(), y.as_slice()),
        _ => {
            let ra: u8 = match a {
                Part::Root => 0,
                Part::Cur => 1,
                Part::Parent => 2,
                Part::Normal(_) => 3,
            };
            let rb: u8 = match b {
                Part::Root => 0,
                Part::Cur => 1,
                Part::Parent => 2,
                Part::Normal(_) => 3,
            };
            if ra < rb {
                Order::Less
            } else if ra > rb {
                Order::Greater
            } else {
                Order::Equal
            }
        },
    }
}

fn order_parts(a: &Vec<Part>, b: &Vec<Part>) -> (r: Order)
    ensures
        r == comps_order(parts_view(a@), parts_view(b@)),
{
    let ghost va = parts_view(a@);
    let ghost vb = parts_view(b@);
    let mut i: usize = 0;
    assert(va.subrange(0, va.len() as int) =~= va);
    assert(vb.subrange(0, vb.len() as int) =~= vb);
    while i < a.len() && i < b.len()
        invariant
            i <= a@.len(),
            i <= b@.len(),
            va == parts_view(a@),
            vb == parts_view(b@),
            comps_order(va, vb) == comps_order(
                va.subrange(i as int, va.len() as int),
                vb.subrange(i as int, vb.len() as int),
            ),
        decreases a@.len() - i,
    {
        let o = order_part(&a[i], &b[i]);
        let ghost sa = va.subrange(i as int, va.len() as int);
        let ghost sb = vb.subrange(i as int, vb.len() as int);
        assert(sa[0] == a@[i as int]@);
        assert(sb[0] == b@[i as int]@);
        if o != Order::Equal {
            return o;
        }
        assert(sa.drop_first() =~= va.subrange(i + 1, va.len() as int));
        assert(sb.drop_first() =~= vb.subrange(i + 1, vb.len() as int));
        i = i + 1;
    }
    if i < a.len() {
        Order::Greater
    } else if i < b.len() {
        Order::Less
    } else {
        Order::Equal
    }
}

/// Compares two paths by their components, as `Path`'s `Ord` does.
pub fn order_paths(a: &[char], b: &[char]) -> (r: Order)
    ensures
        r == path_order(a@, b@),
{
    let ca = components_of(a);
    let cb = components_of(b);
    order_parts(&ca, &cb)
}

/// Whether two paths are the same path (`Path`'s `==`).
pub fn same_path_chars(a: &[char], b: &[char]) -> (r: bool)
    ensures
        r == same_path(a@, b@),
{
    proof {
        lemma_comps_order_equal(components(a@), components(b@));
    }
    order_paths(a, b) == Order::Equal
}

} // verus!
