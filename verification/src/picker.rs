//! The texts the wallpaper picker shows: the summary line above the grid and
//! the message of an empty library.
use vstd::prelude::*;

use crate::text::{chars_of, string_of};

verus! {

/// The character of a decimal digit.
pub open spec fn digit(d: nat) -> char {
    if d == 0 {
        '0'
    } else if d == 1 {
        '1'
    } else if d == 2 {
        '2'
    } else if d == 3 {
        '3'
    } else if d == 4 {
        '4'
    } else if d == 5 {
        '5'
    } else if d == 6 {
        '6'
    } else if d == 7 {
        '7'
    } else if d == 8 {
        '8'
    } else {
        '9'
    }
}

/// `n` written in decimal, without leading zeros.
pub open spec fn decimal(n: nat) -> Seq<char>
    decreases n,
{
    if n < 10 {
        seq![digit(n)]
    } else {
        decimal(n / 10).push(digit(n % 10))
    }
}

/// `items` joined with `sep` between each two.
pub open spec fn joined(items: Seq<Seq<char>>, sep: Seq<char>) -> Seq<char>
    decreases items.len(),
{
    if items.len() == 0 {
        Seq::empty()
    } else if items.len() == 1 {
        items[0]
    } else {
        joined(items.drop_last(), sep) + sep + items.last()
    }
}

/// How the summary lists a library directory: marked when it is missing.
pub open spec fn dir_listed(d: Seq<char>, exists: bool) -> Seq<char> {
    if exists {
        d
    } else {
        d + " (missing)"@
    }
}

/// The summary line for `count` wallpapers found in `dirs`, each with
/// whether it exists.
pub open spec fn summary_text(dirs: Seq<(Seq<char>, bool)>, count: nat) -> Seq<char> {
    decimal(count) + " wallpaper(s) \u{b7} "@ + joined(
        dirs.map_values(|e: (Seq<char>, bool)| dir_listed(e.0, e.1)),
        " \u{b7} "@,
    )
}

/// The message shown when no wallpaper is found in `dirs`.
pub open spec fn empty_text(dirs: Seq<Seq<char>>, config_path: Seq<char>) -> Seq<char> {
    "No wallpapers found.\nAdd png/jpg/webp/gif/bmp files under:\n"@ + joined(dirs, "\n"@)
        + "\n\nOr set library_dirs in "@ + config_path
}

/// The number a string of decimal digits stands for, read in base 10.
pub open spec fn base10_value(s: Seq<char>) -> int
    decreases s.len(),
{
    if s.len() == 0 {
        0
    } else {
        base10_value(s.drop_last()) * 10 + ((s.last() as u32) - ('0' as u32))
    }
}

/// The count in the summary is written in base 10: each digit is the
/// character `'0'` plus its value, so `decimal(n)` reads back as `n`; it has
/// no leading zero, and every character is a digit.
pub proof fn law_decimal_reads_back(n: nat)
    ensures
        base10_value(decimal(n)) == n,
        decimal(n).len() > 0,
        n > 0 ==> decimal(n)[0] != '0',
        forall|i: int|
            0 <= i < decimal(n).len() ==> '0' <= #[trigger] decimal(n)[i] && decimal(n)[i] <= '9',
    decreases n,
{
    assert forall|d: nat| d < 10 implies (#[trigger] digit(d) as u32) == ('0' as u32) + d by {
        if d == 0 {
        } else if d == 1 {
        } else if d == 2 {
        } else if d == 3 {
        } else if d == 4 {
        } else if d == 5 {
        } else if d == 6 {
        } else if d == 7 {
        } else if d == 8 {
        } else {
        }
    }
    if n < 10 {
        assert(decimal(n) == seq![digit(n)]);
        assert(decimal(n).drop_last() =~= Seq::<char>::empty());
        assert((digit(n) as u32) == ('0' as u32) + n);
        assert(decimal(n).last() == digit(n));
        assert(base10_value(decimal(n).drop_last()) == 0);
        assert(base10_value(decimal(n)) == base10_value(decimal(n).drop_last()) * 10 + ((
        decimal(n).last() as u32) - ('0' as u32)));
    } else {
        let q = n / 10;
        let r = n % 10;
        law_decimal_reads_back(q);
        let t = decimal(q).push(digit(r));
        assert(decimal(n) == t);
        assert(t.drop_last() =~= decimal(q));
        assert((digit(r) as u32) == ('0' as u32) + r);
        assert(t.last() == digit(r));
        assert(base10_value(t) == base10_value(t.drop_last()) * 10 + ((t.last() as u32) - ('0' as u32)));
        assert(base10_value(t) == base10_value(decimal(q)) * 10 + r);
        assert(q * 10 + r == n) by (nonlinear_arith)
            requires
                q == n / 10,
                r == n % 10,
        ;
        assert(q > 0);
        assert(t[0] == decimal(q)[0]);
        assert forall|i: int| 0 <= i < t.len() implies '0' <= #[trigger] t[i] && t[i] <= '9' by {
            if i < t.len() - 1 {
                assert(t[i] == decimal(q)[i]);
            }
        }
    }
}

/// The summary line starts with the count written in base 10, followed by
/// ` wallpaper(s)`.
pub proof fn law_summary_starts_with_count(dirs: Seq<(Seq<char>, bool)>, count: nat)
    ensures
        ({
            let t = summary_text(dirs, count);
            let k = decimal(count).len() as int;
            &&& base10_value(t.subrange(0, k)) == count
            &&& t.subrange(k, k + 13) == " wallpaper(s)"@
        }),
{
    law_decimal_reads_back(count);
    let t = summary_text(dirs, count);
    let k = decimal(count).len() as int;
    assert(t.subrange(0, k) =~= decimal(count));
    reveal_strlit(" wallpaper(s) \u{b7} ");
    reveal_strlit(" wallpaper(s)");
    assert(t.subrange(k, k + 13) =~= " wallpaper(s)"@);
}

fn digit_of(d: usize) -> (r: char)
    requires
        d < 10,
    ensures
        r == digit(d as nat),
{
    if d == 0 {
        '0'
    } else if d == 1 {
        '1'
    } else if d == 2 {
        '2'
    } else if d == 3 {
        '3'
    } else if d == 4 {
        '4'
    } else if d == 5 {
        '5'
    } else if d == 6 {
        '6'
    } else if d == 7 {
        '7'
    } else if d == 8 {
        '8'
    } else {
        '9'
    }
}

fn push_decimal(out: &mut Vec<char>, n: usize)
    ensures
        final(out)@ == old(out)@ + decimal(n as nat),
    decreases n,
{
    if n >= 10 {
        push_decimal(out, n / 10);
    }
    let ghost before = out@;
    out.push(digit_of(n % 10));
    proof {
        if n >= 10 {
            assert(decimal(n as nat) == decimal((n / 10) as nat).push(digit((n % 10) as nat)));
        }
    }
    assert(out@ =~= old(out)@ + decimal(n as nat));
}

fn push_all(out: &mut Vec<char>, s: &[char])
    ensures
        final(out)@ == old(out)@ + s@,
{
    let mut i: usize = 0;
    while i < s.len()
        invariant
            i <= s@.len(),
            out@ == old(out)@ + s@.subrange(0, i as int),
        decreases s@.len() - i,
    {
        out.push(s[i]);
        assert(s@.subrange(0, i + 1) =~= s@.subrange(0, i as int).push(s@[i as int]));
        i = i + 1;
    }
    assert(s@.subrange(0, s@.len() as int) =~= s@);
}

/// Appends `items` joined with `sep`.
fn push_joined(out: &mut Vec<char>, items: &Vec<Vec<char>>, sep: &[char])
    ensures
        final(out)@ == old(out)@ + joined(items@.map_values(|v: Vec<char>| v@), sep@),
{
    let ghost iv = items@.map_values(|v: Vec<char>| v@);
    let mut i: usize = 0;
    assert(iv.subrange(0, 0) =~= Seq::<Seq<char>>::empty());
    while i < items.len()
        invariant
            i <= items@.len(),
            iv == items@.map_values(|v: Vec<char>| v@),
            out@ == old(out)@ + joined(iv.subrange(0, i as int), sep@),
        decreases items@.len() - i,
    {
        let ghost before = out@;
        if i > 0 {
            push_all(out, sep);
        }
        push_all(out, items[i].as_slice());
        proof {
            let sub = iv.subrange(0, i + 1);
            assert(sub.drop_last() =~= iv.subrange(0, i as int));
            assert(sub.last() == iv[i as int]);
            if i == 0 {
                assert(joined(iv.subrange(0, 0), sep@) =~= Seq::<char>::empty());
                assert(out@ =~= old(out)@ + joined(sub, sep@));
            } else {
                assert(out@ =~= old(out)@ + joined(sub, sep@));
            }
        }
        i = i + 1;
    }
    assert(iv.subrange(0, items@.len() as int) =~= iv);
}

/// The summary line above the grid: how many wallpapers were found, then
/// each library directory, marked `(missing)` when it does not exist (as
/// `dirs` says beside each path).
pub fn dirs_summary(dirs: &Vec<(String, bool)>, count: usize) -> (r: String)
    ensures
        r@ == summary_text(dirs@.map_values(|e: (String, bool)| (e.0@, e.1)), count as nat),
{
    let ghost dv = dirs@.map_values(|e: (String, bool)| (e.0@, e.1));
    let mut items: Vec<Vec<char>> = Vec::new();
    let mut i: usize = 0;
    let missing = chars_of(" (missing)");
    while i < dirs.len()
        invariant
            i <= dirs@.len(),
            dv == dirs@.map_values(|e: (String, bool)| (e.0@, e.1)),
            missing@ == " (missing)"@,
            items@.map_values(|v: Vec<char>| v@) == dv.subrange(0, i as int).map_values(
                |e: (Seq<char>, bool)| dir_listed(e.0, e.1),
            ),
        decreases dirs@.len() - i,
    {
        let mut d = chars_of(dirs[i].0.as_str());
        if !dirs[i].1 {
            push_all(&mut d, missing.as_slice());
        }
        assert(d@ == dir_listed(dv[i as int].0, dv[i as int].1));
        items.push(d);
        assert(dv.subrange(0, i + 1).map_values(|e: (Seq<char>, bool)| dir_listed(e.0, e.1))
            =~= dv.subrange(0, i as int).map_values(
            |e: (Seq<char>, bool)| dir_listed(e.0, e.1),
        ).push(dir_listed(dv[i as int].0, dv[i as int].1)));
        assert(items@.map_values(|v: Vec<char>| v@) =~= dv.subrange(0, i + 1).map_values(
            |e: (Seq<char>, bool)| dir_listed(e.0, e.1),
        ));
        i = i + 1;
    }
    assert(dv.subrange(0, dirs@.len() as int) =~= dv);
    let mut out: Vec<char> = Vec::new();
    push_decimal(&mut out, count);
    push_all(&mut out, chars_of(" wallpaper(s) \u{b7} ").as_slice());
    push_joined(&mut out, &items, chars_of(" \u{b7} ").as_slice());
    assert(out@ =~= summary_text(dv, count as nat));
    string_of(out.as_slice())
}

/// The message shown when the library holds no wallpaper: the supported
/// types, each directory on its own line, and the config file to edit.
pub fn empty_message(dirs: &Vec<String>, config_path: &str) -> (r: String)
    ensures
        r@ == empty_text(dirs@.map_values(|s: String| s@), config_path@),
{
    let mut items: Vec<Vec<char>> = Vec::new();
    let mut i: usize = 0;
    while i < dirs.len()
        invariant
            i <= dirs@.len(),
            items@.map_values(|v: Vec<char>| v@) == dirs@.subrange(0, i as int).map_values(
                |s: String| s@,
            ),
        decreases dirs@.len() - i,
    {
        let ghost before = items@.map_values(|v: Vec<char>| v@);
        let d = chars_of(dirs[i].as_str());
        items.push(d);
        assert(items@.map_values(|v: Vec<char>| v@) =~= before.push(dirs@[i as int]@));
        assert(dirs@.subrange(0, i + 1).map_values(|s: String| s@) =~= dirs@.subrange(
            0,
            i as int,
        ).map_values(|s: String| s@).push(dirs@[i as int]@));
        i = i + 1;
    }
    assert(dirs@.subrange(0, dirs@.len() as int) =~= dirs@);
    assert(items@.map_values(|v: Vec<char>| v@) == dirs@.map_values(|s: String| s@));
    let mut out: Vec<char> = Vec::new();
    push_all(&mut out, chars_of("No wallpapers found.\nAdd png/jpg/webp/gif/bmp files under:\n").as_slice());
    push_joined(&mut out, &items, chars_of("\n").as_slice());
    push_all(&mut out, chars_of("\n\nOr set library_dirs in ").as_slice());
    push_all(&mut out, chars_of(config_path).as_slice());
    assert(out@ =~= empty_text(dirs@.map_values(|s: String| s@), config_path@));
    string_of(out.as_slice())
}

} // verus!
