//! The `tempscalme` command: what a timeout request does.

use vstd::prelude::*;

verus! {

/// Seconds of timeout when the request names no duration.
pub const DEFAULT_TIMEOUT_SECONDS: i64 = 60;

/// What a timeout request comes to.
#[derive(Debug, Clone, Copy, PartialEq, Eq, Structural)]
pub enum TimeoutDecision {
    /// A duration of zero lifts the member's timeout.
    Cancel,
    /// The member is still timed out until `current`; the new end `until`
    /// is not applied.
    AlreadyTimedOut { until: i64, current: i64 },
    /// The member is timed out until `until`.
    TimeOut { until: i64 },
}

/// The end of a timeout of `duration` seconds (60 if none) asked at `now`.
pub open spec fn timeout_end(duration: Option<i64>, now: i64) -> int {
    now + match duration {
        Some(d) => d as int,
        None => DEFAULT_TIMEOUT_SECONDS as int,
    }
}

/// What a request for a timeout of `duration` seconds, made at `now`, does
/// to a member whose communication is disabled until `disabled_until`: a
/// duration of zero cancels the timeout; a member still timed out stays as
/// he is; anyone else is timed out until `now` plus the duration (60
/// seconds by default).
pub fn decide_timeout(duration: Option<i64>, now: i64, disabled_until: Option<i64>) -> (d: TimeoutDecision)
    requires
        duration != Some(0i64) ==> i64::MIN <= timeout_end(duration, now) <= i64::MAX,
    ensures
        duration == Some(0i64) ==> d == TimeoutDecision::Cancel,
        duration != Some(0i64) ==> d == (match disabled_until {
            Some(current) if current > now => TimeoutDecision::AlreadyTimedOut {
                until: timeout_end(duration, now) as i64,
                current,
            },
            _ => TimeoutDecision::TimeOut { until: timeout_end(duration, now) as i64 },
        }),
{
    if duration == Some(0i64) {
        return TimeoutDecision::Cancel;
    }
    let seconds = match duration {
        Some(d) => d,
        None => DEFAULT_TIMEOUT_SECONDS,
    };
    let until = now + seconds;
    match disabled_until {
        Some(current) if current > now => TimeoutDecision::AlreadyTimedOut { until, current },
        _ => TimeoutDecision::TimeOut { until },
    }
}

} // verus!
