//! The xp record of a member, and the data printed on the level cards.

use vstd::prelude::*;

use super::constants::{DELAY_ANTI_SPAM, MAX_XP_GAIN, MIN_XP_GAIN};
use super::xp_func::{self, spec_total_xp};
use crate::clock::{self, TIMESTAMP_BOUND};
use crate::database::{from_i64, spec_from_i64};
use crate::text::push_str;

verus! {

/// The xp record of a member in a guild.
#[derive(Debug, Clone, Copy, Default)]
pub struct UserLevel {
    /// Discord user id
    pub user_id: u64,
    /// User's xp
    pub xp: i64,
    /// User's level
    pub level: i64,
    /// User's rank
    pub rank: i64,
    /// Timestamp of the last message posted
    pub last_message: i64,
}

/// A row of the `levels` table, ids as stored by SQLite.
#[derive(Debug, Clone, Copy)]
pub struct UserSql {
    pub user_id: i64,
    pub guild_id: i64,
    pub xp: i64,
    pub level: i64,
    pub rank: i64,
    pub last_message: i64,
}

/// Whether a message sent at `now` earns xp after a last message at `last_message`.
pub open spec fn is_not_spam(last_message: i64, now: i64) -> bool {
    now - last_message > DELAY_ANTI_SPAM
}

/// The record `u` after a message sent at `now` that would earn `gain` xp:
/// unchanged within the anti-spam delay, else with `gain` more xp and `now`
/// as its last message.
pub open spec fn spec_gain_xp_at(u: UserLevel, now: i64, gain: i64) -> UserLevel {
    if is_not_spam(u.last_message, now) {
        UserLevel { last_message: now, xp: (u.xp + gain) as i64, ..u }
    } else {
        u
    }
}

/// Two messages at `t1` and then at `t2`, on a clock that does not go back,
/// the first one rewarded: the second is rewarded exactly when it comes more
/// than the anti-spam delay after the first. So xp grows at most once in any
/// window of the delay's length, by `MIN_XP_GAIN` to `MAX_XP_GAIN` each time,
/// and never decreases (as long as it fits in an `i64`).
pub proof fn lemma_two_messages(u: UserLevel, t1: i64, gain1: i64, t2: i64, gain2: i64)
    requires
        is_not_spam(u.last_message, t1),
        t1 <= t2,
        MIN_XP_GAIN <= gain1 <= MAX_XP_GAIN,
        MIN_XP_GAIN <= gain2 <= MAX_XP_GAIN,
    ensures
        ({
            let first = spec_gain_xp_at(u, t1, gain1);
            let second = spec_gain_xp_at(first, t2, gain2);
            &&& first.last_message == t1
            &&& is_not_spam(first.last_message, t2) <==> t2 - t1 > DELAY_ANTI_SPAM
            &&& t2 - t1 > DELAY_ANTI_SPAM ==> second.last_message == t2
            &&& t2 - t1 <= DELAY_ANTI_SPAM ==> second == first
            &&& u.xp + gain1 + gain2 <= i64::MAX ==> {
                &&& first.xp == u.xp + gain1
                &&& second.xp == (if t2 - t1 > DELAY_ANTI_SPAM { first.xp + gain2 } else { first.xp as int })
                &&& u.xp + MIN_XP_GAIN <= first.xp <= second.xp
            }
        }),
{
}

impl UserLevel {
    /// A fresh record: no xp, level 0, rank 0, no message yet.
    pub fn new(user_id: u64) -> (user: Self)
        ensures
            user.user_id == user_id,
            user.xp == 0,
            user.level == 0,
            user.rank == 0,
            user.last_message == 0,
    {
        Self { user_id, xp: 0, level: 0, rank: 0, last_message: 0 }
    }

    /// A message sent at `now` earns `gain` xp, unless it comes within the
    /// anti-spam delay after the last rewarded message. Returns whether xp
    /// was gained.
    pub fn gain_xp_at(&mut self, now: i64, gain: i64) -> (gained: bool)
        requires
            i64::MIN <= now - old(self).last_message <= i64::MAX,
            is_not_spam(old(self).last_message, now) ==> old(self).xp + gain <= i64::MAX,
            is_not_spam(old(self).last_message, now) ==> old(self).xp + gain >= i64::MIN,
        ensures
            gained == is_not_spam(old(self).last_message, now),
            gained ==> *final(self) == (UserLevel {
                last_message: now,
                xp: (old(self).xp + gain) as i64,
                ..*old(self)
            }),
            !gained ==> *final(self) == *old(self),
            *final(self) == spec_gain_xp_at(*old(self), now, gain),
    {
        if now - self.last_message > DELAY_ANTI_SPAM {
            self.last_message = now;
            self.xp = self.xp + gain;
            true
        } else {
            false
        }
    }

    /// Check the time between the last and the new message: gain between
    /// `MIN_XP_GAIN` and `MAX_XP_GAIN` xp (drawn at random) if the anti-spam
    /// delay has passed, then return true; else return false without adding xp.
    ///
    /// The new message is dated by the clock, whose reading lies within
    /// `TIMESTAMP_BOUND` of the epoch: xp is gained exactly when that reading
    /// is more than the delay after the last message, and the reading becomes
    /// the last message.
    pub fn gain_xp_if_not_spam(&mut self) -> (gained: bool)
        requires
            -(i64::MAX - TIMESTAMP_BOUND) <= old(self).last_message <= i64::MAX - TIMESTAMP_BOUND,
            old(self).xp <= i64::MAX - MAX_XP_GAIN,
        ensures
            exists|now: i64| #![trigger is_not_spam(old(self).last_message, now)]
                -TIMESTAMP_BOUND <= now <= TIMESTAMP_BOUND
                && gained == is_not_spam(old(self).last_message, now)
                && (gained ==> final(self).last_message == now),
            exists|now: i64, gain: i64| #![trigger spec_gain_xp_at(*old(self), now, gain)]
                -TIMESTAMP_BOUND <= now <= TIMESTAMP_BOUND
                && MIN_XP_GAIN <= gain <= MAX_XP_GAIN
                && gained == is_not_spam(old(self).last_message, now)
                && *final(self) == spec_gain_xp_at(*old(self), now, gain),
            gained ==> {
                &&& old(self).xp + MIN_XP_GAIN <= final(self).xp <= old(self).xp + MAX_XP_GAIN
                &&& final(self).user_id == old(self).user_id
                &&& final(self).level == old(self).level
                &&& final(self).rank == old(self).rank
            },
            !gained ==> *final(self) == *old(self),
    {
        let now = clock::now_unix_timestamp();
        if now - self.last_message > DELAY_ANTI_SPAM {
            let gain = xp_func::rand_xp_points(MIN_XP_GAIN, MAX_XP_GAIN);
            let gained = self.gain_xp_at(now, gain);
            assert(is_not_spam(old(self).last_message, now));
            assert(*self == spec_gain_xp_at(*old(self), now, gain));
            gained
        } else {
            assert(!is_not_spam(old(self).last_message, now));
            assert(spec_gain_xp_at(*old(self), now, MIN_XP_GAIN) == *old(self));
            false
        }
    }

    /// Raise the level by one if the xp reaches the next level's threshold;
    /// returns whether it did.
    pub fn has_level_up(&mut self) -> (levelled_up: bool)
        requires
            old(self).level < i64::MAX,
            spec_total_xp(old(self).level + 1) <= i64::MAX,
        ensures
            levelled_up == (old(self).xp >= spec_total_xp(old(self).level + 1)),
            levelled_up ==> *final(self) == (UserLevel { level: (old(self).level + 1) as i64, ..*old(self) }),
            !levelled_up ==> *final(self) == *old(self),
    {
        let xp_to_next_level = xp_func::total_xp_required_for_level(self.level + 1);
        if self.xp >= xp_to_next_level {
            self.level = self.level + 1;
            true
        } else {
            false
        }
    }

    /// A record from `(user_id, xp, level, rank, last_message)`.
    pub fn from_tuple(item: (u64, i64, i64, i64, i64)) -> (user: Self)
        ensures
            user == (UserLevel {
                user_id: item.0,
                xp: item.1,
                level: item.2,
                rank: item.3,
                last_message: item.4,
            }),
    {
        let (user_id, xp, level, rank, last_message) = item;
        Self { user_id, xp, level, rank, last_message }
    }

    /// A record from a row of the `levels` table.
    pub fn from_sql(value: UserSql) -> (user: Self)
        ensures
            user == (UserLevel {
                user_id: spec_from_i64(value.user_id),
                xp: value.xp,
                level: value.level,
                rank: value.rank,
                last_message: value.last_message,
            }),
    {
        Self {
            user_id: from_i64(value.user_id),
            xp: value.xp,
            level: value.level,
            rank: value.rank,
            last_message: value.last_message,
        }
    }
}

/// A colour as red, green, blue and alpha components.
pub type Rgba = (u8, u8, u8, u8);

/// The information printed for a member on the top card.
#[derive(Debug)]
pub struct UserInfoCard {
    pub name: String,
    pub rank: i64,
    pub level: i64,
    pub current_xp: i64,
    pub colour: Rgba,
}

impl UserInfoCard {
    /// The card data; the colour is made opaque.
    pub fn new(name: String, rank: i64, level: i64, current_xp: i64, colour: (u8, u8, u8)) -> (card: Self)
        ensures
            card.name@ == name@,
            card.rank == rank,
            card.level == level,
            card.current_xp == current_xp,
            card.colour == (colour.0, colour.1, colour.2, 0xffu8),
    {
        let colour = (colour.0, colour.1, colour.2, 0xffu8);
        Self { name, rank, level, current_xp, colour }
    }

    /// The fields as a tuple `(name, rank, level, current_xp, colour)`.
    pub fn tuple(&self) -> (t: (&str, i64, i64, i64, Rgba))
        ensures
            t.0@ == self.name@,
            t.1 == self.rank,
            t.2 == self.level,
            t.3 == self.current_xp,
            t.4 == self.colour,
    {
        (self.name.as_str(), self.rank, self.level, self.current_xp, self.colour)
    }
}

/// The message that congratulates the member mentioned as `mention` on a new level.
pub fn level_up_message(mention: &str) -> (message: String)
    ensures
        message@ == "Level Up, "@ + mention@ + "!"@,
{
    let mut message = String::new();
    push_str(&mut message, "Level Up, ");
    push_str(&mut message, mention);
    push_str(&mut message, "!");
    message
}

} // verus!
