//! The current time, read with the `time` crate.

use vstd::prelude::*;

verus! {

/// Absolute bound on a unix timestamp that `time::OffsetDateTime` can hold
/// (its years lie within ±999 999 even with the crate's `large-dates` feature).
pub const TIMESTAMP_BOUND: i64 = 32_000_000_000_000;

/// Calls `time::OffsetDateTime::now_utc()` and then its `unix_timestamp()`.
/// Claimed: the result lies within ±`TIMESTAMP_BOUND`, since the crate's dates
/// stay between the years -999 999 and 999 999; which instant it is, is left open.
#[verifier::external_body]
pub(crate) fn now_unix_timestamp() -> (now: i64)
    ensures
        -TIMESTAMP_BOUND <= now <= TIMESTAMP_BOUND,
{
    time::OffsetDateTime::now_utc().unix_timestamp()
}

} // verus!
