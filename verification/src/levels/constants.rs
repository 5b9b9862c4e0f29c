//! Parameters of the xp system.

use vstd::prelude::*;

verus! {

/// Smallest amount of xp gained with a message.
pub const MIN_XP_GAIN: i64 = 15;

/// Largest amount of xp gained with a message.
pub const MAX_XP_GAIN: i64 = 25;

/// Seconds that must pass between two messages for the second one to earn xp.
pub const DELAY_ANTI_SPAM: i64 = 60;

} // verus!
