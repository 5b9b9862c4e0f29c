//! The administrators' commands: setting a member's xp and importing the
//! levels of the Mee6 leaderboard.

use vstd::prelude::*;

use crate::format::{decimal_i64, spec_decimal};
use crate::levels::models::UserLevel;
use crate::levels::xp_func::{calculate_level_from_xp, is_level_of_xp};
use crate::text::{chars_of, push_str, remove_char, without_char};

verus! {

/// Whether `c` is an ASCII decimal digit.
pub open spec fn is_digit(c: char) -> bool {
    '0' <= c && c <= '9'
}

/// The number that the decimal digits `s` write.
pub open spec fn digits_value(s: Seq<char>) -> int
    decreases s.len(),
{
    if s.len() == 0 {
        0
    } else {
        10 * digits_value(s.drop_last()) + (s.last() as int - '0' as int)
    }
}

/// The digits of a number, after an optional `+`.
pub open spec fn unsigned_digits(s: Seq<char>) -> Seq<char> {
    if s.len() > 0 && s[0] == '+' {
        s.drop_first()
    } else {
        s
    }
}

/// The `u64` that `s` writes in decimal, as `str::parse::<u64>` reads it:
/// an optional `+`, then at least one digit, the value within `u64`.
pub open spec fn spec_parse_u64(s: Seq<char>) -> Option<u64> {
    let d = unsigned_digits(s);
    if d.len() > 0 && (forall|i: int| 0 <= i < d.len() ==> #[trigger] is_digit(d[i])) && digits_value(d) <= u64::MAX {
        Some(digits_value(d) as u64)
    } else {
        None
    }
}

proof fn lemma_digits_value_grows(s: Seq<char>, c: char)
    requires
        is_digit(c),
        forall|i: int| 0 <= i < s.len() ==> #[trigger] is_digit(s[i]),
    ensures
        digits_value(s.push(c)) == 10 * digits_value(s) + (c as int - '0' as int),
        digits_value(s) >= 0,
        digits_value(s.push(c)) >= digits_value(s),
    decreases s.len(),
{
    assert(s.push(c).drop_last() =~= s);
    if s.len() > 0 {
        let t = s.drop_last();
        assert forall|i: int| 0 <= i < t.len() implies #[trigger] is_digit(t[i]) by {
            assert(t[i] == s[i]);
        }
        lemma_digits_value_grows(t, s.last());
        assert(s == t.push(s.last()));
    }
}

proof fn lemma_digits_value_prefix_bound(s: Seq<char>, n: int)
    requires
        0 <= n <= s.len(),
        forall|i: int| 0 <= i < s.len() ==> #[trigger] is_digit(s[i]),
    ensures
        digits_value(s.take(n)) <= digits_value(s),
    decreases s.len() - n,
{
    if n < s.len() {
        lemma_digits_value_prefix_bound(s, n + 1);
        let t = s.take(n);
        assert(s.take(n + 1) =~= t.push(s[n]));
        assert forall|i: int| 0 <= i < t.len() implies #[trigger] is_digit(t[i]) by {
            assert(t[i] == s[i]);
        }
        lemma_digits_value_grows(t, s[n]);
    } else {
        assert(s.take(n) =~= s);
    }
}

/// The `u64` that `s` writes in decimal (what `str::parse::<u64>` gives).
pub fn parse_u64(s: &str) -> (n: Option<u64>)
    ensures
        n == spec_parse_u64(s@),
{
    let chars = chars_of(s);
    let start: usize = if chars.len() > 0 && chars[0] == '+' { 1 } else { 0 };
    let ghost d = unsigned_digits(s@);
    proof {
        assert(d =~= s@.skip(start as int));
    }
    if start >= chars.len() {
        return None;
    }
    let mut value: u64 = 0;
    let mut i: usize = start;
    while i < chars.len()
        invariant
            chars@ == s@,
            d == s@.skip(start as int),
            d == unsigned_digits(s@),
            start <= i <= chars.len(),
            start < chars.len(),
            forall|k: int| 0 <= k < i - start ==> #[trigger] is_digit(d[k]),
            value == digits_value(d.take(i - start)),
        decreases chars.len() - i,
    {
        let c = chars[i];
        let ghost pre = d.take(i - start);
        proof {
            assert(d[i - start] == c);
            assert(d.take(i - start + 1) =~= pre.push(c));
        }
        if !('0' <= c && c <= '9') {
            assert(!is_digit(d[i - start]));
            return None;
        }
        proof {
            assert forall|k: int| 0 <= k < pre.len() implies #[trigger] is_digit(pre[k]) by {
                assert(pre[k] == d[k]);
            }
            lemma_digits_value_grows(pre, c);
        }
        let digit = (c as u32 - 48) as u64;
        if value > 1844674407370955161u64 || (value == 1844674407370955161u64 && digit > 5) {
            proof {
                assert(digits_value(pre.push(c)) > u64::MAX);
                let rest_ok = forall|k: int| 0 <= k < d.len() ==> #[trigger] is_digit(d[k]);
                if rest_ok {
                    lemma_digits_value_prefix_bound(d, i - start + 1);
                }
            }
            return None;
        }
        value = value * 10 + digit;
        i = i + 1;
    }
    assert(d.take(chars.len() - start) =~= d);
    Some(value)
}

/// A member of the Mee6 leaderboard: the text of the id, the xp, the level.
pub type Mee6Player = (String, i64, i64);

/// The level record made of the `i`-th player of the leaderboard, whose id
/// is `user_id`: rank `i + 1` and no message yet.
pub open spec fn mee6_record(player: (Seq<char>, i64, i64), user_id: u64, i: int) -> UserLevel {
    UserLevel { user_id, xp: player.1, level: player.2, rank: (i + 1) as i64, last_message: 0 }
}

/// The id of a player: its text without quotes, read as a `u64`.
pub open spec fn mee6_id(text: Seq<char>) -> Option<u64> {
    spec_parse_u64(without_char(text, '"'))
}

/// The level records of the Mee6 leaderboard `players`, ranked in their
/// order; `None` if the id of some player is not a number.
pub fn mee6_user_levels(players: &Vec<Mee6Player>) -> (levels: Option<Vec<UserLevel>>)
    requires
        players.len() < i64::MAX,
    ensures
        match levels {
            Some(v) => {
                &&& v.len() == players.len()
                &&& forall|i: int| 0 <= i < players.len() ==> {
                    &&& mee6_id(#[trigger] players@[i].0@) is Some
                    &&& v@[i] == mee6_record((players@[i].0@, players@[i].1, players@[i].2), mee6_id(players@[i].0@)->0, i)
                }
            },
            None => exists|i: int| 0 <= i < players.len() && mee6_id(#[trigger] players@[i].0@) is None,
        },
{
    let mut levels: Vec<UserLevel> = Vec::new();
    let mut i: usize = 0;
    while i < players.len()
        invariant
            i <= players.len(),
            players.len() < i64::MAX,
            levels.len() == i,
            forall|k: int| 0 <= k < i ==> {
                &&& mee6_id(#[trigger] players@[k].0@) is Some
                &&& levels@[k] == mee6_record((players@[k].0@, players@[k].1, players@[k].2), mee6_id(players@[k].0@)->0, k)
            },
        decreases players.len() - i,
    {
        let player = &players[i];
        let text = remove_char(player.0.as_str(), '"');
        match parse_u64(text.as_str()) {
            Some(user_id) => {
                levels.push(UserLevel {
                    user_id,
                    xp: player.1,
                    level: player.2,
                    rank: (i as i64) + 1,
                    last_message: 0,
                });
            },
            None => {
                assert(mee6_id(players@[i as int].0@) is None);
                return None;
            },
        }
        i = i + 1;
    }
    Some(levels)
}

/// Set the xp of `user` to `xp`, and the level to the one that this xp reaches.
pub fn set_user_xp(user: &mut UserLevel, xp: u32)
    ensures
        final(user).xp == xp,
        is_level_of_xp(xp as int, final(user).level as int),
        final(user).user_id == old(user).user_id,
        final(user).rank == old(user).rank,
        final(user).last_message == old(user).last_message,
{
    let level = calculate_level_from_xp(xp as i64);
    user.xp = xp as i64;
    user.level = level;
}

/// The answer of `set_xp`: the member's name and new level.
pub fn new_level_text(name: &str, level: i64) -> (text: String)
    ensures
        text@ == name@ + " is now level "@ + spec_decimal(level as int),
{
    let mut text = String::new();
    push_str(&mut text, name);
    push_str(&mut text, " is now level ");
    let n = decimal_i64(level);
    push_str(&mut text, n.as_str());
    text
}

} // verus!
