//! Regular expressions, matched by the `regex` crate.

use vstd::prelude::*;

verus! {

/// The pattern compiles with `regex::Regex::new` (it is valid and within
/// the crate's default size limit).
pub uninterp spec fn regex_compiles(pattern: Seq<char>) -> bool;

/// The compiled pattern matches somewhere in the text
/// (`regex::Regex::is_match`).
pub uninterp spec fn regex_finds(pattern: Seq<char>, text: Seq<char>) -> bool;

/// Compiles `pattern` with `regex::Regex::new` and, when that succeeds,
/// tells with `Regex::is_match` whether it matches somewhere in `text`.
/// Claimed: `None` exactly when the pattern does not compile, else whether
/// it matches, as `regex_compiles` and `regex_finds` name these results.
#[verifier::external_body]
pub(crate) fn regex_is_match(pattern: &str, text: &str) -> (r: Option<bool>)
    ensures
        r == (if regex_compiles(pattern@) { Some(regex_finds(pattern@, text@)) } else { None }),
{
    match regex::Regex::new(pattern) {
        Ok(re) => Some(re.is_match(text)),
        Err(_) => None,
    }
}

} // verus!
