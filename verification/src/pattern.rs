//! Regular-expression search, done by the `regex` crate.
use vstd::prelude::*;

verus! {

/// Whether `regex::Regex::new` accepts `pattern`.
pub uninterp spec fn regex_compiles(pattern: Seq<char>) -> bool;

/// Whether the regular expression `pattern` matches somewhere in `text`,
/// as `regex::Regex::is_match` decides it.
pub uninterp spec fn regex_finds(pattern: Seq<char>, text: Seq<char>) -> bool;

/// Compiles `pattern` with `regex::Regex::new` and, where that succeeds,
/// searches `text` with `regex::Regex::is_match`. The contract claims that
/// the result is `None` exactly when the pattern does not compile, and names
/// the outcome of the search otherwise; neither is stated further.
#[verifier::external_body]
pub(crate) fn find_pattern(pattern: &str, text: &str) -> (r: Option<bool>)
    ensures
        r is Some <==> regex_compiles(pattern@),
        r matches Some(b) ==> b == regex_finds(pattern@, text@),
{
    match regex::Regex::new(pattern) {
        Ok(re) => Some(re.is_match(text)),
        Err(_) => None,
    }
}

} // verus!
