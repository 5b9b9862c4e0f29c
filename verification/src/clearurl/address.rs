//! Query strings of URLs, read and written with the `url` crate.

use vstd::prelude::*;

verus! {

/// Key and value of a query parameter, as plain text.
pub type PairView = (Seq<char>, Seq<char>);

/// The text of key/value pairs.
pub open spec fn pairs_view(pairs: Seq<(String, String)>) -> Seq<PairView> {
    pairs.map_values(|p: (String, String)| (p.0@, p.1@))
}

/// Whether `url::Url::parse` accepts `text`.
pub uninterp spec fn url_parses(text: Seq<char>) -> bool;

/// The decoded query pairs of the URL `text`, as `url::Url::query_pairs` lists them.
pub uninterp spec fn url_query_pairs(text: Seq<char>) -> Seq<PairView>;

/// The URL `text` with its query replaced by `pairs`, serialized: what
/// `query_pairs_mut().clear()` followed by `append_pair` for each pair gives,
/// turned into a `String`.
pub uninterp spec fn url_with_query_pairs(text: Seq<char>, pairs: Seq<PairView>) -> Seq<char>;

/// Calls `url::Url::parse(text)`, then `query_pairs()` on the result.
/// Claimed: parsing succeeds exactly when `url_parses(text)`, and the pairs
/// are `url_query_pairs(text)`; both are functions of `text` alone.
#[verifier::external_body]
pub(crate) fn query_pairs_of(text: &str) -> (pairs: Option<Vec<(String, String)>>)
    ensures
        pairs is Some <==> url_parses(text@),
        pairs matches Some(v) ==> pairs_view(v@) == url_query_pairs(text@),
{
    url::Url::parse(text).ok().map(
        |u| u.query_pairs().map(|(k, v)| (k.into_owned(), v.into_owned())).collect(),
    )
}

/// Calls `url::Url::parse(text)`, clears its query with `query_pairs_mut()`,
/// appends `pairs` with `extend_pairs` (which appends each pair in turn as
/// `append_pair` does), and turns the URL into a `String`.
/// Claimed: the result is `url_with_query_pairs(text, pairs)`.
#[verifier::external_body]
pub(crate) fn with_query_pairs(text: &str, pairs: &Vec<(String, String)>) -> (r: String)
    requires
        url_parses(text@),
    ensures
        r@ == url_with_query_pairs(text@, pairs_view(pairs@)),
{
    let mut parsed = url::Url::parse(text).unwrap();
    parsed.query_pairs_mut().clear().extend_pairs(pairs.iter());
    parsed.into()
}

} // verus!
