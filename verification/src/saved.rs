//! Reading back the wallpaper last set: the one saved for an output, the
//! one pywal recorded, and where those files live.
use vstd::prelude::*;

use crate::current::{lookup, Current};
use crate::error::PaperError;
use crate::path::{join, join_chars};
use crate::text::{chars_of, string_of, trim, trim_chars};

verus! {

/// The wallpaper saved for `output`, or why there is none.
pub fn get_on(cur: &Current, output: &str) -> (r: Result<String, PaperError>)
    ensures
        match lookup(cur@, output@) {
            Some(p) => r matches Ok(s) && s@ == p,
            None => r matches Err(PaperError::NoSavedOutput { output: o }) && o@ == output@,
        },
{
    match cur.get_output(output) {
        Some(p) => Ok(p.to_string()),
        None => Err(PaperError::NoSavedOutput { output: output.to_string() }),
    }
}

/// The wallpaper path pywal recorded, from the contents of its cache file:
/// the contents without surrounding whitespace.
pub fn cached_wallpaper(contents: &str) -> (r: String)
    ensures
        r@ == trim(contents@),
{
    let v = chars_of(contents);
    string_of(trim_chars(v.as_slice()).as_slice())
}

/// `name` joined under `dir`, as `Path::join` does.
pub fn file_in(dir: &str, name: &str) -> (r: String)
    ensures
        r@ == join(dir@, name@),
{
    string_of(join_chars(chars_of(dir).as_slice(), chars_of(name).as_slice()).as_slice())
}

} // verus!
