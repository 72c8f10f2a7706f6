//! Which files count as wallpapers: the supported image extensions, matched
//! ASCII-case-insensitively for the library and after lowercasing when a
//! wallpaper is set.
use vstd::prelude::*;

use crate::error::PaperError;
use crate::path::{extension, extension_of, opt_chars};
use crate::text::{chars_of, same_chars};

verus! {

/// The supported image extensions, in the order error messages list them.
pub open spec fn image_extensions() -> Seq<Seq<char>> {
    seq![
        seq!['p', 'n', 'g'],
        seq!['j', 'p', 'g'],
        seq!['j', 'p', 'e', 'g'],
        seq!['w', 'e', 'b', 'p'],
        seq!['g', 'i', 'f'],
        seq!['b', 'm', 'p'],
    ]
}

fn image_extension_list() -> (r: Vec<Vec<char>>)
    ensures
        r@.map_values(|v: Vec<char>| v@) == image_extensions(),
{
    let r = vec![
        vec!['p', 'n', 'g'],
        vec!['j', 'p', 'g'],
        vec!['j', 'p', 'e', 'g'],
        vec!['w', 'e', 'b', 'p'],
        vec!['g', 'i', 'f'],
        vec!['b', 'm', 'p'],
    ];
    assert(r@.map_values(|v: Vec<char>| v@) =~= image_extensions());
    r
}

pub open spec fn is_ascii_upper(c: char) -> bool {
    'A' <= c <= 'Z'
}

/// Two characters equal up to ASCII case (`char::eq_ignore_ascii_case`).
pub open spec fn char_eq_ignore_ascii_case(a: char, b: char) -> bool {
    a == b || (is_ascii_upper(a) && (a as u32) + 32 == (b as u32)) || (is_ascii_upper(b) && (b
        as u32) + 32 == (a as u32))
}

/// Two strings equal up to ASCII case (`str::eq_ignore_ascii_case`).
pub open spec fn eq_ignore_ascii_case(a: Seq<char>, b: Seq<char>) -> bool {
    a.len() == b.len() && forall|i: int|
        0 <= i < a.len() ==> char_eq_ignore_ascii_case(#[trigger] a[i], b[i])
}

/// A path names a wallpaper when its extension is a supported one, in any
/// ASCII case.
pub open spec fn is_wallpaper_path(p: Seq<char>) -> bool {
    match extension(p) {
        Some(e) => exists|k: int|
            0 <= k < image_extensions().len() && eq_ignore_ascii_case(
                #[trigger] image_extensions()[k],
                e,
            ),
        None => false,
    }
}

/// One of the six supported image types, written out.
pub open spec fn is_listed_type(x: Seq<char>) -> bool {
    ||| x == seq!['p', 'n', 'g']
    ||| x == seq!['j', 'p', 'g']
    ||| x == seq!['j', 'p', 'e', 'g']
    ||| x == seq!['w', 'e', 'b', 'p']
    ||| x == seq!['g', 'i', 'f']
    ||| x == seq!['b', 'm', 'p']
}

/// The supported image types are exactly png, jpg, jpeg, webp, gif and bmp:
/// a path is a wallpaper file exactly when its extension is one of them up
/// to ASCII case, and a wallpaper being set passes the type check exactly
/// when its lowercased extension is one of them.
pub proof fn law_supported_extensions(x: Seq<char>, p: Seq<char>)
    ensures
        image_extensions().contains(x) <==> is_listed_type(x),
        is_wallpaper_path(p) <==> (extension(p) matches Some(e) && (eq_ignore_ascii_case(
            seq!['p', 'n', 'g'],
            e,
        ) || eq_ignore_ascii_case(seq!['j', 'p', 'g'], e) || eq_ignore_ascii_case(
            seq!['j', 'p', 'e', 'g'],
            e,
        ) || eq_ignore_ascii_case(seq!['w', 'e', 'b', 'p'], e) || eq_ignore_ascii_case(
            seq!['g', 'i', 'f'],
            e,
        ) || eq_ignore_ascii_case(seq!['b', 'm', 'p'], e))),
{
    let l = image_extensions();
    assert(l[0] == seq!['p', 'n', 'g']);
    assert(l[1] == seq!['j', 'p', 'g']);
    assert(l[2] == seq!['j', 'p', 'e', 'g']);
    assert(l[3] == seq!['w', 'e', 'b', 'p']);
    assert(l[4] == seq!['g', 'i', 'f']);
    assert(l[5] == seq!['b', 'm', 'p']);
    if is_listed_type(x) {
        if x == l[0] {
            assert(l.contains(l[0]));
        } else if x == l[1] {
            assert(l.contains(l[1]));
        } else if x == l[2] {
            assert(l.contains(l[2]));
        } else if x == l[3] {
            assert(l.contains(l[3]));
        } else if x == l[4] {
            assert(l.contains(l[4]));
        } else {
            assert(l.contains(l[5]));
        }
    }
    if let Some(e) = extension(p) {
        if is_wallpaper_path(p) {
            let k = choose|k: int| 0 <= k < l.len() && eq_ignore_ascii_case(#[trigger] l[k], e);
            assert(0 <= k < 6);
        }
        if eq_ignore_ascii_case(l[0], e) {
            assert(eq_ignore_ascii_case(l[0], e));
        }
        if eq_ignore_ascii_case(l[1], e) {
            assert(eq_ignore_ascii_case(l[1], e));
        }
        if eq_ignore_ascii_case(l[2], e) {
            assert(eq_ignore_ascii_case(l[2], e));
        }
        if eq_ignore_ascii_case(l[3], e) {
            assert(eq_ignore_ascii_case(l[3], e));
        }
        if eq_ignore_ascii_case(l[4], e) {
            assert(eq_ignore_ascii_case(l[4], e));
        }
        if eq_ignore_ascii_case(l[5], e) {
            assert(eq_ignore_ascii_case(l[5], e));
        }
    }
}

fn chars_eq_ignore_ascii_case(a: &[char], b: &[char]) -> (r: bool)
    ensures
        r == eq_ignore_ascii_case(a@, b@),
{
    if a.len() != b.len() {
        return false;
    }
    let mut i: usize = 0;
    while i < a.len()
        invariant
            a@.len() == b@.len(),
            i <= a@.len(),
            forall|j: int| 0 <= j < i ==> char_eq_ignore_ascii_case(#[trigger] a@[j], b@[j]),
        decreases a@.len() - i,
    {
        let x = a[i];
        let y = b[i];
        let ok = x == y || ('A' <= x && x <= 'Z' && (x as u32) + 32 == (y as u32)) || ('A' <= y && y
            <= 'Z' && (y as u32) + 32 == (x as u32));
        if !ok {
            return false;
        }
        i = i + 1;
    }
    true
}

/// Whether `path` has one of the supported image extensions, compared
/// ASCII-case-insensitively.
pub fn is_wallpaper_file(path: &str) -> (r: bool)
    ensures
        r == is_wallpaper_path(path@),
{
    let p = chars_of(path);
    match extension_of(p.as_slice()) {
        Some(e) => {
            let list = image_extension_list();
            let mut k: usize = 0;
            while k < list.len()
                invariant
                    k <= list@.len(),
                    list@.map_values(|v: Vec<char>| v@) == image_extensions(),
                    opt_chars(Some(e)) == extension(path@),
                    forall|j: int|
                        0 <= j < k ==> !eq_ignore_ascii_case(
                            #[trigger] image_extensions()[j],
                            e@,
                        ),
                decreases list@.len() - k,
            {
                assert(list@[k as int]@ == image_extensions()[k as int]);
                if chars_eq_ignore_ascii_case(list[k].as_slice(), e.as_slice()) {
                    return true;
                }
                k = k + 1;
            }
            false
        },
        None => false,
    }
}

/// Name for what `str::to_lowercase` returns for a given string: its Unicode
/// lowercase mapping.
pub uninterp spec fn lowercase(s: Seq<char>) -> Seq<char>;

/// Every character is ASCII.
pub open spec fn is_ascii_chars(s: Seq<char>) -> bool {
    forall|i: int| 0 <= i < s.len() ==> (#[trigger] s[i] as u32) < 128
}

/// An ASCII uppercase letter made lowercase; any other character kept.
pub open spec fn ascii_lower(c: char) -> char {
    if is_ascii_upper(c) {
        ((c as u32) + 32) as char
    } else {
        c
    }
}

/// `A`-`Z` made `a`-`z`, every other character kept.
pub open spec fn ascii_lowercase(s: Seq<char>) -> Seq<char> {
    s.map_values(|c: char| ascii_lower(c))
}

/// `str::to_lowercase`.
///
/// Trusted: claims the result is `lowercase` of the argument's characters,
/// a function of those characters alone, and that on ASCII text it turns
/// `A`-`Z` into `a`-`z` and keeps every other character (the Unicode
/// lowercase mapping of the ASCII characters). What the mapping does to
/// other characters is left unsaid.
#[verifier::external_body]
pub(crate) fn to_lowercase(s: &str) -> (r: String)
    ensures
        r@ == lowercase(s@),
        is_ascii_chars(s@) ==> r@ == ascii_lowercase(s@),
{
    s.to_lowercase()
}

/// The extension that a wallpaper path is judged by when it is set: the
/// path's extension, or nothing, lowercased.
pub open spec fn lowered_extension(p: Seq<char>) -> Seq<char> {
    lowercase(ext_or_empty(p))
}

/// The path's extension, or nothing.
pub open spec fn ext_or_empty(p: Seq<char>) -> Seq<char> {
    match extension(p) {
        Some(e) => e,
        None => Seq::empty(),
    }
}

/// Accepts `canonical` when `lowered` (its lowercased extension) is a
/// supported one; otherwise reports the unsupported type.
pub fn check_image_type(canonical: String, lowered: String) -> (r: Result<String, PaperError>)
    ensures
        image_extensions().contains(lowered@) ==> r == Ok::<String, PaperError>(canonical),
        !image_extensions().contains(lowered@) ==> r == Err::<String, PaperError>(
            PaperError::UnsupportedType { ext: lowered },
        ),
{
    let list = image_extension_list();
    let l = chars_of(lowered.as_str());
    let mut k: usize = 0;
    while k < list.len()
        invariant
            k <= list@.len(),
            list@.map_values(|v: Vec<char>| v@) == image_extensions(),
            l@ == lowered@,
            forall|j: int| 0 <= j < k ==> #[trigger] image_extensions()[j] != lowered@,
        decreases list@.len() - k,
    {
        assert(list@[k as int]@ == image_extensions()[k as int]);
        if same_chars(list[k].as_slice(), l.as_slice()) {
            assert(image_extensions()[k as int] == lowered@);
            return Ok(canonical);
        }
        k = k + 1;
    }
    assert(!image_extensions().contains(lowered@));
    Err(PaperError::UnsupportedType { ext: lowered })
}

/// Checks the type of an already canonical wallpaper path, as `set`
/// does before touching any tool.
pub fn validate_canonical(canonical: String) -> (r: Result<String, PaperError>)
    ensures
        image_extensions().contains(lowered_extension(canonical@)) ==> r == Ok::<
            String,
            PaperError,
        >(canonical),
        !image_extensions().contains(lowered_extension(canonical@)) ==> (r matches Err(
            PaperError::UnsupportedType { ext },
        ) && ext@ == lowered_extension(canonical@)),
        is_ascii_chars(ext_or_empty(canonical@)) ==> lowered_extension(canonical@)
            == ascii_lowercase(ext_or_empty(canonical@)),
{
    let p = chars_of(canonical.as_str());
    let e = match extension_of(p.as_slice()) {
        Some(e) => crate::text::string_of(e.as_slice()),
        None => String::new(),
    };
    let lowered = to_lowercase(e.as_str());
    check_image_type(canonical, lowered)
}

} // verus!
