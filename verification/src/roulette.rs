//! The roulette game: a member fires at a random member of the guild, and
//! the more often one fires, the likelier the shot turns back on the shooter
//! (the "RFF", reversed friendly fire).
//!
//! The chance of RFF of each member is kept in a map from user id to the
//! pair (chance in percent, timestamp of the last change).

pub mod stats;

use std::collections::HashMap;

use vstd::prelude::*;

use crate::database::{from_i64, spec_from_i64};
use crate::format::{decimal_u64, spec_decimal};
use crate::random::random_inclusive;
use crate::text::push_str;

verus! {

/// The chance of RFF, in percent, of a member who has no entry yet, and of
/// one just caught by the RFF.
pub const BASE_RFF_PERC: u8 = 5;

/// Largest increase of the chance of RFF after one shot.
pub const MAX_RFF_INCREASE: u8 = 10;

/// Smallest increase of the chance of RFF after one shot.
pub const MIN_RFF_INCREASE: u8 = 2;

/// What the kill feed image shows.
#[derive(Debug, Clone, Copy, PartialEq, Eq, Structural)]
pub enum ShotKind {
    /// The caller shot another member.
    Normal,
    /// The roulette picked the caller.
    SelfShot,
    /// The RFF turned the shot back on the caller.
    Reverse,
}

/// One game of roulette, as recorded.
#[derive(Debug, Clone, Copy)]
pub struct Roulette {
    pub timestamp: i64,
    pub caller_id: u64,
    pub target_id: u64,
    /// The chance at which the RFF triggered, or `None` if the shot went normally.
    pub rff_triggered: Option<u8>,
}

/// A row of the `roulettes` table, ids as stored by SQLite.
#[derive(Debug, Clone, Copy)]
pub struct RouletteSql {
    pub timestamp: i64,
    pub caller_id: i64,
    pub target_id: i64,
    pub rff_triggered: Option<u8>,
}

impl Roulette {
    /// A record from a row of the `roulettes` table.
    pub fn from(value: RouletteSql) -> (r: Self)
        ensures
            r.timestamp == value.timestamp,
            r.caller_id == spec_from_i64(value.caller_id),
            r.target_id == spec_from_i64(value.target_id),
            r.rff_triggered == value.rff_triggered,
    {
        Roulette {
            timestamp: value.timestamp,
            caller_id: from_i64(value.caller_id),
            target_id: from_i64(value.target_id),
            rff_triggered: value.rff_triggered,
        }
    }
}

/// The chance of RFF of `user`: the one in the map, or `BASE_RFF_PERC`
/// for a member who has none.
pub open spec fn spec_rff_chance(m: Map<u64, (u8, i64)>, user: u64) -> u8 {
    if m.contains_key(user) {
        m[user].0
    } else {
        BASE_RFF_PERC
    }
}

/// The map after `user` was caught by the RFF at `now`: an existing entry
/// goes back to the base chance; a member without entry gets none.
pub open spec fn spec_reset_rff(m: Map<u64, (u8, i64)>, user: u64, now: i64) -> Map<u64, (u8, i64)> {
    if m.contains_key(user) {
        m.insert(user, (BASE_RFF_PERC, now))
    } else {
        m
    }
}

/// The map after `user` shot normally at `now` and the chance grows by `inc`:
/// an entry of at most 100% grows by `inc`, a larger one stays as it is (its
/// timestamp moves to `now` either way), and a member without entry starts
/// at the base chance plus `inc`.
pub open spec fn spec_raise_rff(m: Map<u64, (u8, i64)>, user: u64, inc: u8, now: i64) -> Map<u64, (u8, i64)> {
    if m.contains_key(user) {
        let perc = m[user].0;
        if perc <= 100 {
            m.insert(user, ((perc + inc) as u8, now))
        } else {
            m.insert(user, (perc, now))
        }
    } else {
        m.insert(user, ((BASE_RFF_PERC + inc) as u8, now))
    }
}

/// Whether a draw of `rff_check` (between 1 and 100) triggers the RFF for a
/// member whose chance is `chance`.
pub open spec fn spec_rff_triggers(rff_check: i64, chance: u8) -> bool {
    rff_check <= chance
}

/// The chance of RFF of `user`.
pub fn rff_chance(map: &HashMap<u64, (u8, i64)>, user: u64) -> (chance: u8)
    ensures
        chance == spec_rff_chance(map@, user),
{
    match map.get(&user) {
        Some(entry) => entry.0,
        None => BASE_RFF_PERC,
    }
}

/// Whether the draw `rff_check` triggers the RFF at `chance`: the RFF
/// triggers when the draw is at most the chance. Returns the chance at
/// which it triggered.
pub fn rff_outcome(rff_check: i64, chance: u8) -> (triggered: Option<u8>)
    ensures
        triggered == (if spec_rff_triggers(rff_check, chance) { Some(chance) } else { None::<u8> }),
{
    if rff_check <= chance as i64 {
        Some(chance)
    } else {
        None
    }
}

/// Draw the RFF check of `user`: a number between 1 and 100 at random,
/// compared with the member's chance. Returns the chance if the RFF triggers.
pub fn draw_rff(map: &HashMap<u64, (u8, i64)>, user: u64) -> (triggered: Option<u8>)
    ensures
        triggered == Some(spec_rff_chance(map@, user)) || triggered == None::<u8>,
        spec_rff_chance(map@, user) >= 100 ==> triggered == Some(spec_rff_chance(map@, user)),
        spec_rff_chance(map@, user) == 0 ==> triggered == None::<u8>,
{
    let chance = rff_chance(map, user);
    let rff_check = random_inclusive(1, 100);
    rff_outcome(rff_check, chance)
}

/// `user` was caught by the RFF at `now`: an existing entry goes back to
/// the base chance.
pub fn reset_rff(map: &mut HashMap<u64, (u8, i64)>, user: u64, now: i64)
    ensures
        final(map)@ == spec_reset_rff(old(map)@, user, now),
{
    if map.contains_key(&user) {
        map.insert(user, (BASE_RFF_PERC, now));
    }
}

/// `user` shot normally at `now`; the chance of RFF grows by `inc`.
pub fn raise_rff(map: &mut HashMap<u64, (u8, i64)>, user: u64, inc: u8, now: i64)
    requires
        inc <= 155,
    ensures
        final(map)@ == spec_raise_rff(old(map)@, user, inc, now),
{
    match map.get(&user) {
        Some(entry) => {
            let perc = entry.0;
            if perc <= 100 {
                map.insert(user, (perc + inc, now));
            } else {
                map.insert(user, (perc, now));
            }
        },
        None => {
            map.insert(user, (BASE_RFF_PERC + inc, now));
        },
    }
}

/// `user` shot normally at `now`; the chance of RFF grows by an amount
/// drawn at random between `MIN_RFF_INCREASE` and `MAX_RFF_INCREASE`.
pub fn raise_rff_at_random(map: &mut HashMap<u64, (u8, i64)>, user: u64, now: i64)
    ensures
        exists|inc: u8|
            MIN_RFF_INCREASE <= inc <= MAX_RFF_INCREASE
            && #[trigger] spec_raise_rff(old(map)@, user, inc, now) == final(map)@,
{
    let inc = random_inclusive(MIN_RFF_INCREASE as i64, MAX_RFF_INCREASE as i64) as u8;
    raise_rff(map, user, inc, now);
}

/// The member picked by the roulette among `members`, at random.
pub fn pick_target(members: &Vec<u64>) -> (target: u64)
    requires
        members.len() > 0,
    ensures
        members@.contains(target),
{
    let len = members.len() as u64;
    let last: i64 = if len - 1 <= 0x7fff_ffff_ffff_ffffu64 {
        (len - 1) as i64
    } else {
        i64::MAX
    };
    let drawn = random_inclusive(0, last) as u64;
    let index = drawn as usize;
    members[index]
}

/// The image shown for a normal shot of `caller` that hit `target`.
pub fn shot_kind(caller_id: u64, target_id: u64) -> (kind: ShotKind)
    ensures
        kind == (if caller_id == target_id { ShotKind::SelfShot } else { ShotKind::Normal }),
{
    if caller_id == target_id {
        ShotKind::SelfShot
    } else {
        ShotKind::Normal
    }
}

/// The record of a game at `now` in which the RFF caught `caller` at `chance`.
pub fn rff_record(now: i64, caller_id: u64, chance: u8) -> (r: Roulette)
    ensures
        r == (Roulette { timestamp: now, caller_id, target_id: caller_id, rff_triggered: Some(chance) }),
{
    Roulette { timestamp: now, caller_id, target_id: caller_id, rff_triggered: Some(chance) }
}

/// The record of a game at `now` in which `caller` shot `target`.
pub fn shot_record(now: i64, caller_id: u64, target_id: u64) -> (r: Roulette)
    ensures
        r == (Roulette { timestamp: now, caller_id, target_id, rff_triggered: None }),
{
    Roulette { timestamp: now, caller_id, target_id, rff_triggered: None }
}

/// The higher the chance, the likelier the RFF: a draw that triggers the
/// RFF at some chance triggers it at any higher chance too, and at 100% or
/// more every draw between 1 and 100 triggers it.
pub proof fn lemma_higher_chance_catches_more(rff_check: i64, low: u8, high: u8)
    requires
        low <= high,
    ensures
        spec_rff_triggers(rff_check, low) ==> spec_rff_triggers(rff_check, high),
        high >= 100 && 1 <= rff_check <= 100 ==> spec_rff_triggers(rff_check, high),
{
}

/// Every chance in the map lies between the base chance and 100% plus the
/// largest increase.
pub open spec fn chances_in_range(m: Map<u64, (u8, i64)>) -> bool {
    forall|u: u64| #[trigger] m.contains_key(u) ==> BASE_RFF_PERC <= m[u].0 <= 100 + MAX_RFF_INCREASE
}

/// A member caught by the RFF is back at the base chance, whatever it was
/// before; nobody else's chance changes.
pub proof fn lemma_reset_law(m: Map<u64, (u8, i64)>, user: u64, now: i64)
    ensures
        spec_rff_chance(spec_reset_rff(m, user, now), user) == BASE_RFF_PERC,
        forall|u: u64| u != user ==> #[trigger] spec_rff_chance(spec_reset_rff(m, user, now), u) == spec_rff_chance(m, u),
{
}

/// A normal shot never lowers anybody's chance: the shooter's grows by
/// `inc` while it is at most 100%, and stays as it is above; nobody else's
/// chance changes.
pub proof fn lemma_raise_law(m: Map<u64, (u8, i64)>, user: u64, inc: u8, now: i64)
    requires
        inc <= 155,
    ensures
        forall|u: u64| #[trigger] spec_rff_chance(spec_raise_rff(m, user, inc, now), u) >= spec_rff_chance(m, u),
        spec_rff_chance(m, user) <= 100
            ==> spec_rff_chance(spec_raise_rff(m, user, inc, now), user) == spec_rff_chance(m, user) + inc,
        spec_rff_chance(m, user) > 100
            ==> spec_rff_chance(spec_raise_rff(m, user, inc, now), user) == spec_rff_chance(m, user),
        forall|u: u64| u != user ==> #[trigger] spec_rff_chance(spec_raise_rff(m, user, inc, now), u) == spec_rff_chance(m, u),
{
}

/// Starting from chances in range, the chances stay in range after any
/// reset and after any raise by an increase that the game draws.
pub proof fn lemma_chances_stay_in_range(m: Map<u64, (u8, i64)>, user: u64, inc: u8, now: i64)
    requires
        chances_in_range(m),
        MIN_RFF_INCREASE <= inc <= MAX_RFF_INCREASE,
    ensures
        chances_in_range(spec_raise_rff(m, user, inc, now)),
        chances_in_range(spec_reset_rff(m, user, now)),
{
    let r = spec_raise_rff(m, user, inc, now);
    assert forall|u: u64| #[trigger] r.contains_key(u) implies BASE_RFF_PERC <= r[u].0 <= 100 + MAX_RFF_INCREASE by {
        if u != user {
            assert(m.contains_key(u));
        }
    }
    let z = spec_reset_rff(m, user, now);
    assert forall|u: u64| #[trigger] z.contains_key(u) implies BASE_RFF_PERC <= z[u].0 <= 100 + MAX_RFF_INCREASE by {
        if u != user {
            assert(m.contains_key(u));
        }
    }
}

/// The message when the RFF catches the caller at `chance` percent.
pub fn rff_message(chance: u8) -> (message: String)
    ensures
        message@ == "**:man_police_officer: RFF activated at "@ + spec_decimal(chance as int)
            + "%, you're out. :woman_police_officer:**"@,
{
    let mut message = String::new();
    push_str(&mut message, "**:man_police_officer: RFF activated at ");
    let n = decimal_u64(chance as u64);
    push_str(&mut message, n.as_str());
    push_str(&mut message, "%, you're out. :woman_police_officer:**");
    message
}

/// The message when the roulette picks the caller.
pub const SELF_SHOT_MESSAGE: &'static str = "Ouch, looks like it hurts. :sweat_smile:";

/// The message when the RFF caught a caller that cannot be timed out.
pub const ADMIN_RFF_MESSAGE: &'static str = "As you're an administrator, I have no power, but I know you won't abuse the rules";

/// The message when no record shows the RFF.
pub const NO_RFF_STAR_MESSAGE: &'static str = "Nobody has triggered the RFF yet.";

/// The message when the target, mentioned as `mention`, cannot be timed out.
pub fn cannot_mute_message(mention: &str) -> (message: String)
    ensures
        message@ == "The roulette has chosen, "@ + mention@
            + ", but I can't mute you, would you kindly shut up for the next 60 seconds ?"@,
{
    let mut message = String::new();
    push_str(&mut message, "The roulette has chosen, ");
    push_str(&mut message, mention);
    push_str(&mut message, ", but I can't mute you, would you kindly shut up for the next 60 seconds ?");
    message
}

/// The message that names the RFF star, mentioned as `mention`, caught at
/// `score` percent.
pub fn rff_star_message(mention: &str, score: u8) -> (message: String)
    ensures
        message@ == ":muscle: :military_medal: "@ + mention@ + " is the RFF Star with "@
            + spec_decimal(score as int) + "%."@,
{
    let mut message = String::new();
    push_str(&mut message, ":muscle: :military_medal: ");
    push_str(&mut message, mention);
    push_str(&mut message, " is the RFF Star with ");
    let n = decimal_u64(score as u64);
    push_str(&mut message, n.as_str());
    push_str(&mut message, "%.");
    message
}

} // verus!
