//! Reading the output names out of `awww query`.
use vstd::prelude::*;

use crate::text::{
    chars_of, first_piece, first_piece_chars, lines, lines_of, string_of, trim, trim_chars,
    vecs_view,
};

verus! {

/// The output name an `awww query` line carries. Lines look like
/// `: eDP-1: 1920x1080, scale: 1, ...`: after an optional leading `:`, the
/// name is the text before the next `:`, trimmed; a blank name gives nothing.
pub open spec fn awww_line_name(line: Seq<char>) -> Option<Seq<char>> {
    let t = trim(line);
    let rest = if t.len() > 0 && t[0] == ':' {
        trim(t.drop_first())
    } else {
        t
    };
    let name = trim(first_piece(rest, ':'));
    if name.len() == 0 {
        None
    } else {
        Some(name)
    }
}

/// The names of the lines that carry one, in order.
pub open spec fn awww_names(ls: Seq<Seq<char>>) -> Seq<Seq<char>>
    decreases ls.len(),
{
    if ls.len() == 0 {
        Seq::empty()
    } else {
        awww_names(ls.drop_last()) + match awww_line_name(ls.last()) {
            Some(n) => seq![n],
            None => Seq::empty(),
        }
    }
}

fn line_name(line: &[char]) -> (r: Option<Vec<char>>)
    ensures
        crate::path::opt_chars(r) == awww_line_name(line@),
{
    let t = trim_chars(line);
    let rest = if t.len() > 0 && t[0] == ':' {
        let tail = crate::text::sub_chars(t.as_slice(), 1, t.len());
        assert(tail@ =~= t@.drop_first());
        trim_chars(tail.as_slice())
    } else {
        t
    };
    let piece = first_piece_chars(rest.as_slice(), ':');
    let name = trim_chars(piece.as_slice());
    if name.len() == 0 {
        None
    } else {
        Some(name)
    }
}

/// The output name one `awww query` line carries, if any.
pub fn parse_awww_query_line(line: &str) -> (r: Option<String>)
    ensures
        match r {
            Some(s) => awww_line_name(line@) == Some(s@),
            None => awww_line_name(line@) is None,
        },
{
    let v = chars_of(line);
    match line_name(v.as_slice()) {
        Some(n) => Some(string_of(n.as_slice())),
        None => None,
    }
}

/// The output names listed by `awww query`, in order; lines without a name
/// are skipped.
pub fn parse_awww_query(stdout: &str) -> (r: Vec<String>)
    ensures
        r@.map_values(|s: String| s@) == awww_names(lines(stdout@)),
{
    let v = chars_of(stdout);
    let ls = lines_of(v.as_slice());
    let ghost lv = vecs_view(ls@);
    let mut out: Vec<String> = Vec::new();
    let mut k: usize = 0;
    while k < ls.len()
        invariant
            k <= ls@.len(),
            lv == vecs_view(ls@),
            out@.map_values(|s: String| s@) == awww_names(lv.subrange(0, k as int)),
        decreases ls@.len() - k,
    {
        let ghost before = out@.map_values(|s: String| s@);
        assert(lv.subrange(0, k + 1).drop_last() =~= lv.subrange(0, k as int));
        assert(ls@[k as int]@ == lv[k as int]);
        match line_name(ls[k].as_slice()) {
            Some(n) => {
                let s = string_of(n.as_slice());
                out.push(s);
                assert(out@.map_values(|s: String| s@) =~= before.push(n@));
            },
            None => {},
        }
        assert(out@.map_values(|s: String| s@) =~= awww_names(lv.subrange(0, k + 1)));
        k = k + 1;
    }
    assert(lv.subrange(0, ls@.len() as int) =~= lv);
    out
}

} // verus!
