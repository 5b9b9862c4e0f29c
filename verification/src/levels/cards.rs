//! What the rank card and the top card print: the xp progress within the
//! level, the colour of a rank, and the texts.

use vstd::prelude::*;

use super::xp_func::{
    lemma_total_xp_monotonic, lemma_xp_needed_positive, spec_total_xp, spec_xp_needed, total_xp_fits, total_xp_required_for_level,
    xp_needed_fits,
    xp_needed_to_level_up,
};
use crate::format::{decimal_i64, decimal_u64, spec_decimal};
use crate::text::push_str;

verus! {

/// The colour in which a rank is printed.
#[derive(Debug, Clone, Copy, PartialEq, Eq, Structural)]
pub enum RankColour {
    Gold,
    Silver,
    Bronze,
    /// The ordinary colour of the text.
    Plain,
}

/// Gold, silver and bronze for the first three ranks.
pub fn rank_colour(rank: i64) -> (colour: RankColour)
    ensures
        colour == (if rank == 1 {
            RankColour::Gold
        } else if rank == 2 {
            RankColour::Silver
        } else if rank == 3 {
            RankColour::Bronze
        } else {
            RankColour::Plain
        }),
{
    if rank == 1 {
        RankColour::Gold
    } else if rank == 2 {
        RankColour::Silver
    } else if rank == 3 {
        RankColour::Bronze
    } else {
        RankColour::Plain
    }
}

/// A member's xp as the cards show it.
#[derive(Debug, Clone, Copy, PartialEq, Eq, Structural)]
pub struct CardXp {
    /// Xp gained since the member's level began.
    pub in_level: i64,
    /// Xp that the current level costs in all.
    pub needed: i64,
    /// Total xp at which the next level begins.
    pub next_total: i64,
}

/// The xp progress of a member at `level` with `xp` points.
pub fn card_xp(level: i64, xp: i64) -> (c: CardXp)
    requires
        xp_needed_fits(level as int),
        spec_total_xp(level as int) + spec_xp_needed(level as int) <= i64::MAX,
        xp - spec_total_xp(level as int) >= i64::MIN,
    ensures
        c.in_level == xp - spec_total_xp(level as int),
        c.needed == spec_xp_needed(level as int),
        c.next_total == spec_total_xp(level as int) + spec_xp_needed(level as int),
{
    proof {
        let l = level as int;
        assert(5 * (l * l) + 50 * l + 100 >= -25) by (nonlinear_arith);
        if level >= 0 {
            lemma_xp_needed_positive(level as int);
            lemma_total_xp_monotonic(0, level as int);
        } else {
            assert(spec_total_xp(level as int) == 0);
        }
    }
    let total = total_xp_required_for_level(level);
    let needed = xp_needed_to_level_up(level);
    CardXp { in_level: xp - total, needed, next_total: total + needed }
}

/// The xp progress of a member at `level` with `xp` points, where it can be
/// computed in 64-bit arithmetic (what `card_xp` requires); `None` where it
/// cannot.
pub fn checked_card_xp(level: i64, xp: i64) -> (c: Option<CardXp>)
    ensures
        c is Some <==> {
            &&& xp_needed_fits(level as int)
            &&& spec_total_xp(level as int) + spec_xp_needed(level as int) <= i64::MAX
            &&& xp - spec_total_xp(level as int) >= i64::MIN
        },
        c matches Some(c) ==> {
            &&& c.in_level == xp - spec_total_xp(level as int)
            &&& c.needed == spec_xp_needed(level as int)
            &&& c.next_total == spec_total_xp(level as int) + spec_xp_needed(level as int)
        },
{
    let l: i128 = level as i128;
    let ghost li: int = level as int;
    assert(li * li <= 0x4000_0000_0000_0000_0000_0000_0000_0000) by (nonlinear_arith)
        requires
            -0x8000_0000_0000_0000 <= li <= 0x8000_0000_0000_0000,
    ;
    assert(li * li >= 0) by (nonlinear_arith);
    let square: i128 = l * l;
    if square > i64::MAX as i128 {
        return None;
    }
    let five: i128 = 5 * square;
    let needed_wide: i128 = five + 50 * l + 100;
    if five > i64::MAX as i128 || needed_wide > i64::MAX as i128 {
        return None;
    }
    assert(xp_needed_fits(li));
    proof {
        assert(5 * (li * li) + 50 * li + 100 >= -25) by (nonlinear_arith);
        if level > 0 {
            lemma_xp_needed_positive(li);
        } else {
            assert(spec_total_xp(li) == 0);
        }
    }
    if !total_xp_fits(level) {
        return None;
    }
    let total: i128 = total_xp_required_for_level(level) as i128;
    if total + needed_wide > i64::MAX as i128 {
        return None;
    }
    if (xp as i128) - total < i64::MIN as i128 {
        return None;
    }
    Some(card_xp(level, xp))
}

/// Height of the title band of the top card.
pub const TOP_TITLE_HEIGHT: usize = 60;

/// Height of the row of one member on the top card.
pub const TOP_USER_HEIGHT: usize = 32;

/// Width of the xp gauge on the top card.
pub const TOP_XP_GAUGE_WIDTH: usize = 180;

/// Width of the top card: the widest rank, name, xp and level texts and the
/// xp gauge, with a margin of 10 before, between and after them.
pub open spec fn spec_top_card_width(rank_width: int, name_width: int, xp_width: int, level_width: int) -> int {
    10 + rank_width + 10 + name_width + 10 + xp_width + 10 + TOP_XP_GAUGE_WIDTH + 10 + level_width + 10
}

/// Height of the top card: one row per member, the title, and a margin of 40.
pub open spec fn spec_top_card_height(users: int) -> int {
    users * TOP_USER_HEIGHT + TOP_TITLE_HEIGHT + 40
}

/// The `(width, height)` of the top card of `users` members, given the
/// widths of the widest texts of each column; `None` where it does not fit
/// in a `usize`.
pub fn top_card_size(rank_width: usize, name_width: usize, xp_width: usize, level_width: usize, users: usize) -> (size:
    Option<(usize, usize)>)
    ensures
        size is Some <==> {
            &&& spec_top_card_width(rank_width as int, name_width as int, xp_width as int, level_width as int) <= usize::MAX
            &&& spec_top_card_height(users as int) <= usize::MAX
        },
        size matches Some((w, h)) ==> {
            &&& w as int == spec_top_card_width(rank_width as int, name_width as int, xp_width as int, level_width as int)
            &&& h as int == spec_top_card_height(users as int)
        },
{
    let margins: usize = 60 + TOP_XP_GAUGE_WIDTH;
    let width = match rank_width.checked_add(name_width) {
        None => None,
        Some(a) => match a.checked_add(xp_width) {
            None => None,
            Some(b) => match b.checked_add(level_width) {
                None => None,
                Some(c) => c.checked_add(margins),
            },
        },
    };
    let height = match users.checked_mul(TOP_USER_HEIGHT) {
        None => None,
        Some(rows) => rows.checked_add(TOP_TITLE_HEIGHT + 40),
    };
    match (width, height) {
        (Some(w), Some(h)) => Some((w, h)),
        _ => None,
    }
}

/// The rank as printed: `#` and the number.
pub fn rank_text(rank: i64) -> (text: String)
    ensures
        text@ == "#"@ + spec_decimal(rank as int),
{
    let mut text = String::new();
    push_str(&mut text, "#");
    let n = decimal_i64(rank);
    push_str(&mut text, n.as_str());
    text
}

/// The xp as printed: the member's xp over the xp at which the next level begins.
pub fn xp_text(xp: i64, next_total: i64) -> (text: String)
    ensures
        text@ == spec_decimal(xp as int) + "/"@ + spec_decimal(next_total as int),
{
    let mut text = String::new();
    let a = decimal_i64(xp);
    push_str(&mut text, a.as_str());
    push_str(&mut text, "/");
    let b = decimal_i64(next_total);
    push_str(&mut text, b.as_str());
    text
}

/// The title of the top card for `count` members.
pub fn top_title(count: usize) -> (text: String)
    ensures
        text@ == "Top "@ + spec_decimal(count as int),
{
    let mut text = String::new();
    push_str(&mut text, "Top ");
    let n = decimal_u64(count as u64);
    push_str(&mut text, n.as_str());
    text
}

} // verus!
