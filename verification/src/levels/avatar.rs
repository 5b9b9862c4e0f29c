//! The address of an avatar as the level cards fetch it.

use vstd::prelude::*;

use crate::text::{chars_of, find_chars, first_occurrence, lemma_first_occurrence, push_str, string_of_prefix};

verus! {

/// The avatar address with the `webp` image asked as a png of at most
/// 96x96 pixels: everything from the first `webp` on is replaced by
/// `png?size=96`; an address without `webp` stays as it is.
pub open spec fn spec_resize_avatar(url: Seq<char>) -> Seq<char> {
    match first_occurrence(url, "webp"@) {
        Some(i) => url.take(i) + "png?size=96"@,
        None => url,
    }
}

/// Change the `.webp` extension to `.png` and remove the parameters of the
/// address, asking for a picture of at most 96x96 pixels.
pub fn resize_avatar(url: String) -> (r: String)
    ensures
        r@ == spec_resize_avatar(url@),
{
    let chars = chars_of(url.as_str());
    let needle = chars_of("webp");
    match find_chars(&chars, &needle) {
        Some(index) => {
            proof {
                lemma_first_occurrence(chars@, needle@, 0);
            }
            let mut r = string_of_prefix(&chars, index);
            push_str(&mut r, "png?size=96");
            r
        },
        None => url,
    }
}

/// The avatar address as the rank and top cards fetch it: the same change
/// as `resize_avatar`.
pub fn clean_url(url: String) -> (r: String)
    ensures
        r@ == spec_resize_avatar(url@),
{
    resize_avatar(url)
}

} // verus!
