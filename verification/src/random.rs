//! Random numbers, drawn with the `rand` crate.

use vstd::prelude::*;
use rand::Rng;

verus! {

/// Calls `rand::thread_rng().gen_range(low..=high)` of the `rand` crate.
/// Claimed: the number lies between `low` and `high`, both included
/// (the crate's documented range); which number comes out is left open.
#[verifier::external_body]
pub(crate) fn random_inclusive(low: i64, high: i64) -> (n: i64)
    requires
        low <= high,
    ensures
        low <= n <= high,
{
    rand::thread_rng().gen_range(low..=high)
}

} // verus!
