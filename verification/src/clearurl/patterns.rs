//! Regular expressions, evaluated with the `regex` crate.

use vstd::prelude::*;

verus! {

/// Whether `regex::Regex::new` accepts `pattern`.
pub uninterp spec fn regex_valid(pattern: Seq<char>) -> bool;

/// What `regex::Regex::is_match` answers for the regex of `pattern` on `haystack`.
pub uninterp spec fn regex_matches(pattern: Seq<char>, haystack: Seq<char>) -> bool;

/// The text of capture group 1 of the leftmost-first match of `pattern` in
/// `haystack`, as `regex::Regex::captures` then `Captures::get(1)` give it
/// (`None` where the group does not take part in the match).
pub uninterp spec fn regex_group1(pattern: Seq<char>, haystack: Seq<char>) -> Option<Seq<char>>;

/// What `regex::Regex::replace(haystack, "")` gives: `haystack` with the
/// leftmost-first match of `pattern` removed.
pub uninterp spec fn regex_remove_first(pattern: Seq<char>, haystack: Seq<char>) -> Seq<char>;

/// Calls `regex::Regex::new(pattern)` and tells whether it succeeded.
/// Claimed: the answer is `regex_valid(pattern)`, a function of the pattern alone.
#[verifier::external_body]
pub(crate) fn regex_compiles(pattern: &str) -> (ok: bool)
    ensures
        ok == regex_valid(pattern@),
{
    regex::Regex::new(pattern).is_ok()
}

/// Calls `regex::Regex::is_match` on the regex of `pattern`.
/// Claimed: the answer is `regex_matches(pattern, haystack)`, a function of
/// its arguments alone.
#[verifier::external_body]
pub(crate) fn regex_is_match(pattern: &str, haystack: &str) -> (m: bool)
    requires
        regex_valid(pattern@),
    ensures
        m == regex_matches(pattern@, haystack@),
{
    regex::Regex::new(pattern).unwrap().is_match(haystack)
}

/// Calls `regex::Regex::captures` on the regex of `pattern`, and `get(1)` on
/// the captures. Claimed: there are captures exactly when `is_match` answers
/// true (the crate documents both as "a match anywhere in the haystack"), and
/// group 1 is `regex_group1(pattern, haystack)`.
#[verifier::external_body]
pub(crate) fn regex_captures_group1(pattern: &str, haystack: &str) -> (captured: Option<Option<String>>)
    requires
        regex_valid(pattern@),
    ensures
        captured is Some <==> regex_matches(pattern@, haystack@),
        captured matches Some(group) ==> match group {
            Some(text) => regex_group1(pattern@, haystack@) == Some(text@),
            None => regex_group1(pattern@, haystack@) is None,
        },
{
    regex::Regex::new(pattern).unwrap().captures(haystack).map(
        |caps| caps.get(1).map(|m| m.as_str().to_string()),
    )
}

/// Calls `regex::Regex::replace(haystack, "")` on the regex of `pattern`.
/// Claimed: the result is `regex_remove_first(pattern, haystack)`, and it is
/// `haystack` itself when there is no match (as the crate documents).
#[verifier::external_body]
pub(crate) fn regex_remove_first_match(pattern: &str, haystack: &str) -> (r: String)
    requires
        regex_valid(pattern@),
    ensures
        r@ == regex_remove_first(pattern@, haystack@),
        !regex_matches(pattern@, haystack@) ==> r@ == haystack@,
{
    regex::Regex::new(pattern).unwrap().replace(haystack, "").into_owned()
}

} // verus!
