//! Regular expressions, as the `regex` crate matches them.

use regex::Regex;
use vstd::prelude::*;

verus! {

/// Whether `pattern` is a regular expression that `Regex::new` compiles.
pub uninterp spec fn regex_compiles(pattern: Seq<char>) -> bool;

/// Whether the regular expression `pattern`, once compiled, has a match
/// somewhere in `haystack`, as `Regex::is_match` decides it.
pub uninterp spec fn regex_is_match(pattern: Seq<char>, haystack: Seq<char>) -> bool;

/// What matching `haystack` against `pattern` gives: nothing where the
/// pattern does not compile, else whether there is a match.
pub open spec fn match_of(pattern: Seq<char>, haystack: Seq<char>) -> Option<bool> {
    if regex_compiles(pattern) {
        Some(regex_is_match(pattern, haystack))
    } else {
        None
    }
}

/// Compiles `pattern` with `Regex::new` and searches `haystack` with
/// `Regex::is_match`. The contract only gives the two answers their names:
/// what patterns compile and what they match is the `regex` crate's to say.
#[verifier::external_body]
pub(crate) fn is_match(pattern: &str, haystack: &str) -> (matched: Option<bool>)
    ensures
        matched == if regex_compiles(pattern@) {
            Some(regex_is_match(pattern@, haystack@))
        } else {
            None
        },
{
    match Regex::new(pattern) {
        Ok(regex) => Some(regex.is_match(haystack)),
        Err(_) => None,
    }
}

} // verus!
