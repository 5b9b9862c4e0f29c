//! Statistics and leaderboards of the roulette, computed from the records
//! of a guild.

use vstd::prelude::*;

use super::Roulette;
use crate::format::{decimal_i64, decimal_u64, spec_decimal};
use crate::sorting::{is_sorted_by_key, lemma_stable_sorted_properties, stable_sort_by_key, stable_sorted};
use crate::tally::{count_keys, max_per_key, ones, spec_tally};
use crate::text::push_str;

verus! {

/// How many entries a leaderboard of the whole guild shows.
pub const LEADERBOARD_SIZE: usize = 10;

/// How many entries a leaderboard about one member (its victims or its
/// bullies) shows.
pub const MEMBER_LEADERBOARD_SIZE: usize = 5;

/// Which user of each record a leaderboard counts.
#[derive(Debug, Clone, Copy, PartialEq, Eq, Structural)]
pub enum Board {
    /// The callers of all games.
    Callers,
    /// The targets of all games.
    Targets,
    /// The targets that the given member shot, RFF left out.
    VictimsOf(u64),
    /// The callers who shot the given member, RFF left out.
    BulliesOf(u64),
}

/// The user that `board` counts for the record `r`, if any.
pub open spec fn board_key(board: Board, r: Roulette) -> Option<u64> {
    match board {
        Board::Callers => Some(r.caller_id),
        Board::Targets => Some(r.target_id),
        Board::VictimsOf(m) => if r.caller_id == m && r.rff_triggered is None {
            Some(r.target_id)
        } else {
            None
        },
        Board::BulliesOf(m) => if r.target_id == m && r.rff_triggered is None {
            Some(r.caller_id)
        } else {
            None
        },
    }
}

/// The users that `board` counts in `scores`, in record order.
pub open spec fn board_keys(scores: Seq<Roulette>, board: Board) -> Seq<u64>
    decreases scores.len(),
{
    if scores.len() == 0 {
        seq![]
    } else {
        let rest = board_keys(scores.drop_last(), board);
        match board_key(board, scores.last()) {
            Some(k) => rest.push(k),
            None => rest,
        }
    }
}

/// The pairs (caller, chance) of the records in which the RFF triggered.
pub open spec fn rff_pairs(scores: Seq<Roulette>) -> Seq<(u64, i64)>
    decreases scores.len(),
{
    if scores.len() == 0 {
        seq![]
    } else {
        let rest = rff_pairs(scores.drop_last());
        match scores.last().rff_triggered {
            Some(v) => rest.push((scores.last().caller_id, v as i64)),
            None => rest,
        }
    }
}

/// The entries of a tally keyed by their value, for sorting.
pub open spec fn by_value(t: Seq<(u64, i64)>) -> Seq<(i64, u64)> {
    t.map_values(|e: (u64, i64)| (e.1, e.0))
}

/// Keyed entries back as (user, value).
pub open spec fn unkeyed(s: Seq<(i64, u64)>) -> Seq<(u64, i64)> {
    s.map_values(|e: (i64, u64)| (e.1, e.0))
}

/// The first `n` entries of `t` by decreasing value; entries with equal
/// values keep their order.
pub open spec fn spec_top(t: Seq<(u64, i64)>, n: nat) -> Seq<(u64, i64)> {
    let sorted = unkeyed(stable_sorted(by_value(t), true));
    if n < sorted.len() {
        sorted.take(n as int)
    } else {
        sorted
    }
}

/// How many entries the leaderboard of `board` shows.
pub open spec fn spec_board_size(board: Board) -> nat {
    match board {
        Board::Callers | Board::Targets => LEADERBOARD_SIZE as nat,
        Board::VictimsOf(_) | Board::BulliesOf(_) => MEMBER_LEADERBOARD_SIZE as nat,
    }
}

/// How many entries the leaderboard of `board` shows.
pub fn board_size(board: Board) -> (n: usize)
    ensures
        n as nat == spec_board_size(board),
{
    match board {
        Board::Callers | Board::Targets => LEADERBOARD_SIZE,
        Board::VictimsOf(_) | Board::BulliesOf(_) => MEMBER_LEADERBOARD_SIZE,
    }
}

/// The leaderboard of `board`: the most counted users, most first.
pub open spec fn spec_leaderboard(scores: Seq<Roulette>, board: Board) -> Seq<(u64, i64)> {
    spec_top(spec_tally(ones(board_keys(scores, board)), false), spec_board_size(board))
}

/// The leaderboard of the highest chances at which each caller was caught.
pub open spec fn spec_rff_leaderboard(scores: Seq<Roulette>) -> Seq<(u64, i64)> {
    spec_top(spec_tally(rff_pairs(scores), true), LEADERBOARD_SIZE as nat)
}

/// The users that `board` counts in `scores`, in record order.
pub fn board_keys_of(scores: &Vec<Roulette>, board: Board) -> (keys: Vec<u64>)
    ensures
        keys@ == board_keys(scores@, board),
{
    let mut keys: Vec<u64> = Vec::new();
    let mut i: usize = 0;
    while i < scores.len()
        invariant
            i <= scores.len(),
            keys@ == board_keys(scores@.take(i as int), board),
        decreases scores.len() - i,
    {
        let r = scores[i];
        let key = match board {
            Board::Callers => Some(r.caller_id),
            Board::Targets => Some(r.target_id),
            Board::VictimsOf(m) => if r.caller_id == m && r.rff_triggered.is_none() {
                Some(r.target_id)
            } else {
                None
            },
            Board::BulliesOf(m) => if r.target_id == m && r.rff_triggered.is_none() {
                Some(r.caller_id)
            } else {
                None
            },
        };
        if let Some(k) = key {
            keys.push(k);
        }
        proof {
            assert(scores@.take(i + 1).drop_last() =~= scores@.take(i as int));
        }
        i = i + 1;
    }
    assert(scores@.take(scores.len() as int) =~= scores@);
    keys
}

/// The pairs (caller, chance) of the records in which the RFF triggered.
pub fn rff_pairs_of(scores: &Vec<Roulette>) -> (pairs: Vec<(u64, i64)>)
    ensures
        pairs@ == rff_pairs(scores@),
{
    let mut pairs: Vec<(u64, i64)> = Vec::new();
    let mut i: usize = 0;
    while i < scores.len()
        invariant
            i <= scores.len(),
            pairs@ == rff_pairs(scores@.take(i as int)),
        decreases scores.len() - i,
    {
        let r = scores[i];
        if let Some(v) = r.rff_triggered {
            pairs.push((r.caller_id, v as i64));
        }
        proof {
            assert(scores@.take(i + 1).drop_last() =~= scores@.take(i as int));
        }
        i = i + 1;
    }
    assert(scores@.take(scores.len() as int) =~= scores@);
    pairs
}

/// The first `n` entries of `t` by decreasing value, ties in their order.
pub fn top_entries(t: Vec<(u64, i64)>, n: usize) -> (top: Vec<(u64, i64)>)
    ensures
        top@ == spec_top(t@, n as nat),
{
    let mut keyed: Vec<(i64, u64)> = Vec::new();
    let mut i: usize = 0;
    while i < t.len()
        invariant
            i <= t.len(),
            keyed@ =~= by_value(t@.take(i as int)),
        decreases t.len() - i,
    {
        let e = t[i];
        keyed.push((e.1, e.0));
        i = i + 1;
    }
    assert(t@.take(t.len() as int) =~= t@);
    assert(keyed@ == by_value(t@));
    let sorted = stable_sort_by_key(keyed, true);
    let ghost all = unkeyed(sorted@);
    let mut top: Vec<(u64, i64)> = Vec::new();
    let mut j: usize = 0;
    while j < sorted.len() && j < n
        invariant
            j <= sorted.len(),
            j <= n,
            top@ =~= all.take(j as int),
            all == unkeyed(sorted@),
        decreases sorted.len() - j,
    {
        let e = sorted[j];
        top.push((e.1, e.0));
        j = j + 1;
    }
    proof {
        assert(all.len() == sorted.len());
        assert(all == unkeyed(stable_sorted(by_value(t@), true)));
        if j == sorted.len() {
            assert(all.take(j as int) =~= all);
        }
    }
    top
}

/// The leaderboard of `board`: how often each user is counted, the most
/// counted first; ten entries for the guild's callers or targets, five for
/// a member's victims or bullies.
pub fn leaderboard(scores: &Vec<Roulette>, board: Board) -> (top: Vec<(u64, i64)>)
    requires
        scores.len() < i64::MAX,
    ensures
        top@ == spec_leaderboard(scores@, board),
{
    let keys = board_keys_of(scores, board);
    proof {
        lemma_board_keys_len(scores@, board);
    }
    let counts = count_keys(&keys);
    top_entries(counts, board_size(board))
}

/// The leaderboard of the highest chance at which each caller was caught
/// by the RFF, the ten highest first.
pub fn rff_leaderboard(scores: &Vec<Roulette>) -> (top: Vec<(u64, i64)>)
    ensures
        top@ == spec_rff_leaderboard(scores@),
{
    let pairs = rff_pairs_of(scores);
    let maxima = max_per_key(&pairs);
    top_entries(maxima, LEADERBOARD_SIZE)
}

proof fn lemma_board_keys_len(scores: Seq<Roulette>, board: Board)
    ensures
        board_keys(scores, board).len() <= scores.len(),
    decreases scores.len(),
{
    if scores.len() > 0 {
        lemma_board_keys_len(scores.drop_last(), board);
    }
}

/// A top list is in decreasing order of value, holds `n` entries or all of
/// them if fewer, and each entry comes from `t`.
pub proof fn lemma_top_law(t: Seq<(u64, i64)>, n: nat)
    ensures
        forall|i: int, j: int| 0 <= i < j < spec_top(t, n).len()
            ==> #[trigger] spec_top(t, n)[i].1 >= #[trigger] spec_top(t, n)[j].1,
        spec_top(t, n).len() == (if n < t.len() { n as int } else { t.len() as int }),
        forall|i: int| 0 <= i < spec_top(t, n).len() ==> t.contains(#[trigger] spec_top(t, n)[i]),
{
    let k = by_value(t);
    let sorted = stable_sorted(k, true);
    lemma_stable_sorted_properties(k, true);
    let all = unkeyed(sorted);
    let top = spec_top(t, n);
    assert forall|i: int| 0 <= i < top.len() implies t.contains(#[trigger] top[i]) by {
        assert(top[i] == all[i]);
        vstd::seq_lib::to_multiset_contains(sorted, sorted[i]);
        vstd::seq_lib::to_multiset_contains(k, sorted[i]);
        assert(k.to_multiset().count(sorted[i]) > 0);
        assert(k.contains(sorted[i]));
        let j = choose|j: int| 0 <= j < k.len() && k[j] == sorted[i];
        assert(t[j] == top[i]);
    }
    assert forall|i: int, j: int| 0 <= i < j < top.len() implies #[trigger] top[i].1 >= #[trigger] top[j].1 by {
        assert(top[i] == all[i] && top[j] == all[j]);
        assert(!(sorted[j].0 > sorted[i].0));
    }
}

/// The field of a leaderboard: a line `name - value` for each row.
pub open spec fn spec_leaderboard_field(rows: Seq<(Seq<char>, i64)>) -> Seq<char>
    decreases rows.len(),
{
    if rows.len() == 0 {
        seq![]
    } else {
        let last = rows.last();
        spec_leaderboard_field(rows.drop_last()) + last.0 + " - "@ + spec_decimal(last.1 as int) + "\n"@
    }
}

/// The field of a leaderboard: a line `name - value` for each row, given
/// the display name of each user.
pub fn leaderboard_field(rows: &Vec<(String, i64)>) -> (field: String)
    ensures
        field@ == spec_leaderboard_field(rows@.map_values(|r: (String, i64)| (r.0@, r.1))),
{
    let ghost view = rows@.map_values(|r: (String, i64)| (r.0@, r.1));
    let mut field = String::new();
    let mut i: usize = 0;
    while i < rows.len()
        invariant
            i <= rows.len(),
            view == rows@.map_values(|r: (String, i64)| (r.0@, r.1)),
            field@ == spec_leaderboard_field(view.take(i as int)),
        decreases rows.len() - i,
    {
        let row = &rows[i];
        push_str(&mut field, row.0.as_str());
        push_str(&mut field, " - ");
        let number = decimal_i64(row.1);
        push_str(&mut field, number.as_str());
        push_str(&mut field, "\n");
        proof {
            assert(view.take(i + 1).drop_last() =~= view.take(i as int));
            assert(view.take(i + 1).last() == view[i as int]);
        }
        i = i + 1;
    }
    assert(view.take(rows.len() as int) =~= view);
    field
}

/// The roulette figures of one member.
#[derive(Debug, Clone, Copy, PartialEq, Eq, Structural)]
pub struct RouletteStats {
    /// Games the member called.
    pub shots: usize,
    /// Games in which the roulette picked the member's own name.
    pub selfshots: usize,
    /// Games in which the RFF caught the member.
    pub rff_triggered: usize,
    /// The member's current chance of RFF.
    pub rff_chance: u8,
    /// The highest chance at which the RFF caught the member (0 if never).
    pub max_rff: u8,
    /// The lowest chance at which the RFF caught the member (0 if never).
    pub min_rff: u8,
}

/// How many records of `s` satisfy `p`.
pub open spec fn count_where(s: Seq<Roulette>, p: spec_fn(Roulette) -> bool) -> nat
    decreases s.len(),
{
    if s.len() == 0 {
        0
    } else {
        count_where(s.drop_last(), p) + (if p(s.last()) { 1nat } else { 0nat })
    }
}

/// Games called by `member`.
pub open spec fn is_shot_by(member: u64) -> spec_fn(Roulette) -> bool {
    |r: Roulette| r.caller_id == member
}

/// Games in which the roulette picked the caller `member` himself.
pub open spec fn is_selfshot_of(member: u64) -> spec_fn(Roulette) -> bool {
    |r: Roulette| r.caller_id == member && r.target_id == member && r.rff_triggered is None
}

/// Games in which the RFF caught the caller `member`.
pub open spec fn is_rff_of(member: u64) -> spec_fn(Roulette) -> bool {
    |r: Roulette| r.caller_id == member && r.target_id == member && r.rff_triggered is Some
}

/// The chances at which the RFF caught `member`, in record order.
pub open spec fn rff_levels(s: Seq<Roulette>, member: u64) -> Seq<u8>
    decreases s.len(),
{
    if s.len() == 0 {
        seq![]
    } else {
        let rest = rff_levels(s.drop_last(), member);
        let r = s.last();
        if r.caller_id == member && r.target_id == member && r.rff_triggered is Some {
            rest.push(r.rff_triggered->0)
        } else {
            rest
        }
    }
}

/// The largest of `v`, if any.
pub open spec fn seq_max(v: Seq<u8>) -> Option<u8>
    decreases v.len(),
{
    if v.len() == 0 {
        None
    } else {
        match seq_max(v.drop_last()) {
            Some(m) => Some(if v.last() > m { v.last() } else { m }),
            None => Some(v.last()),
        }
    }
}

/// The smallest of `v`, if any.
pub open spec fn seq_min(v: Seq<u8>) -> Option<u8>
    decreases v.len(),
{
    if v.len() == 0 {
        None
    } else {
        match seq_min(v.drop_last()) {
            Some(m) => Some(if v.last() < m { v.last() } else { m }),
            None => Some(v.last()),
        }
    }
}

/// The figures of `member` in `scores`, with the chance of RFF `chance`.
pub open spec fn spec_member_stats(scores: Seq<Roulette>, member: u64, chance: u8) -> RouletteStats {
    RouletteStats {
        shots: count_where(scores, is_shot_by(member)) as usize,
        selfshots: count_where(scores, is_selfshot_of(member)) as usize,
        rff_triggered: count_where(scores, is_rff_of(member)) as usize,
        rff_chance: chance,
        max_rff: match seq_max(rff_levels(scores, member)) { Some(m) => m, None => 0 },
        min_rff: match seq_min(rff_levels(scores, member)) { Some(m) => m, None => 0 },
    }
}

proof fn lemma_count_where_bound(s: Seq<Roulette>, p: spec_fn(Roulette) -> bool)
    ensures
        count_where(s, p) <= s.len(),
    decreases s.len(),
{
    if s.len() > 0 {
        lemma_count_where_bound(s.drop_last(), p);
    }
}

/// The figures of `member` in `scores`, with the chance of RFF `chance`.
pub fn member_stats(scores: &Vec<Roulette>, member: u64, chance: u8) -> (stats: RouletteStats)
    ensures
        stats == spec_member_stats(scores@, member, chance),
{
    let mut shots: usize = 0;
    let mut selfshots: usize = 0;
    let mut rffs: usize = 0;
    let mut max_rff: Option<u8> = None;
    let mut min_rff: Option<u8> = None;
    let mut i: usize = 0;
    while i < scores.len()
        invariant
            i <= scores.len(),
            shots == count_where(scores@.take(i as int), is_shot_by(member)),
            selfshots == count_where(scores@.take(i as int), is_selfshot_of(member)),
            rffs == count_where(scores@.take(i as int), is_rff_of(member)),
            max_rff == seq_max(rff_levels(scores@.take(i as int), member)),
            min_rff == seq_min(rff_levels(scores@.take(i as int), member)),
        decreases scores.len() - i,
    {
        let r = scores[i];
        proof {
            assert(scores@.take(i + 1).drop_last() =~= scores@.take(i as int));
            assert(scores@.take(i + 1).last() == r);
            lemma_count_where_bound(scores@.take(i as int), is_shot_by(member));
            lemma_count_where_bound(scores@.take(i as int), is_selfshot_of(member));
            lemma_count_where_bound(scores@.take(i as int), is_rff_of(member));
        }
        if r.caller_id == member {
            shots = shots + 1;
            if r.target_id == member {
                match r.rff_triggered {
                    None => {
                        selfshots = selfshots + 1;
                    },
                    Some(v) => {
                        proof {
                            let lv = rff_levels(scores@.take(i as int), member);
                            assert(rff_levels(scores@.take(i + 1), member) == lv.push(v));
                            assert(lv.push(v).drop_last() =~= lv);
                        }
                        rffs = rffs + 1;
                        max_rff = match max_rff {
                            Some(m) => Some(if v > m { v } else { m }),
                            None => Some(v),
                        };
                        min_rff = match min_rff {
                            Some(m) => Some(if v < m { v } else { m }),
                            None => Some(v),
                        };
                    },
                }
            }
        }
        i = i + 1;
    }
    assert(scores@.take(scores.len() as int) =~= scores@);
    RouletteStats {
        shots,
        selfshots,
        rff_triggered: rffs,
        rff_chance: chance,
        max_rff: match max_rff { Some(m) => m, None => 0 },
        min_rff: match min_rff { Some(m) => m, None => 0 },
    }
}

proof fn lemma_count_parts(s: Seq<Roulette>, member: u64)
    ensures
        count_where(s, is_selfshot_of(member)) + count_where(s, is_rff_of(member)) <= count_where(s, is_shot_by(member)),
        count_where(s, is_rff_of(member)) == rff_levels(s, member).len(),
    decreases s.len(),
{
    if s.len() > 0 {
        lemma_count_parts(s.drop_last(), member);
    }
}

proof fn lemma_min_le_max(v: Seq<u8>)
    ensures
        v.len() > 0 ==> seq_min(v) is Some && seq_max(v) is Some && seq_min(v)->0 <= seq_max(v)->0,
        v.len() == 0 ==> seq_min(v) is None && seq_max(v) is None,
        forall|i: int| 0 <= i < v.len() ==> seq_min(v)->0 <= #[trigger] v[i] <= seq_max(v)->0,
    decreases v.len(),
{
    if v.len() > 0 {
        let t = v.drop_last();
        lemma_min_le_max(t);
        assert forall|i: int| 0 <= i < v.len() implies seq_min(v)->0 <= #[trigger] v[i] <= seq_max(v)->0 by {
            if i < t.len() {
                assert(v[i] == t[i]);
            }
        }
    }
}

/// A member's self shots and RFF together are among the games he called;
/// the RFF count is the number of chances recorded; and when the RFF caught
/// him, the lowest chance is at most the highest one, both among those
/// recorded.
pub proof fn lemma_stats_law(scores: Seq<Roulette>, member: u64, chance: u8)
    requires
        scores.len() <= usize::MAX,
    ensures
        spec_member_stats(scores, member, chance).selfshots + spec_member_stats(scores, member, chance).rff_triggered
            <= spec_member_stats(scores, member, chance).shots,
        spec_member_stats(scores, member, chance).min_rff <= spec_member_stats(scores, member, chance).max_rff,
        forall|i: int| 0 <= i < rff_levels(scores, member).len()
            ==> spec_member_stats(scores, member, chance).min_rff <= #[trigger] rff_levels(scores, member)[i]
                <= spec_member_stats(scores, member, chance).max_rff,
{
    lemma_count_parts(scores, member);
    lemma_count_where_bound(scores, is_shot_by(member));
    lemma_count_where_bound(scores, is_selfshot_of(member));
    lemma_count_where_bound(scores, is_rff_of(member));
    lemma_min_le_max(rff_levels(scores, member));
}

/// The text of the statistics field.
pub open spec fn spec_stats_field(st: RouletteStats) -> Seq<char> {
    spec_decimal(st.shots as int) + " roulettes\n"@
        + spec_decimal(st.selfshots as int) + " selfshots\n"@
        + spec_decimal(st.rff_triggered as int) + " RFF triggered\n"@
        + spec_decimal(st.rff_chance as int) + "% chance of RFF\n"@
        + spec_decimal(st.max_rff as int) + "% max RFF triggered\n"@
        + spec_decimal(st.min_rff as int) + "% min RFF triggered"@
}

/// The text of the statistics field, one figure per line.
pub fn stats_field(st: &RouletteStats) -> (text: String)
    ensures
        text@ == spec_stats_field(*st),
{
    let mut text = String::new();
    let n = decimal_u64(st.shots as u64);
    push_str(&mut text, n.as_str());
    push_str(&mut text, " roulettes\n");
    let n = decimal_u64(st.selfshots as u64);
    push_str(&mut text, n.as_str());
    push_str(&mut text, " selfshots\n");
    let n = decimal_u64(st.rff_triggered as u64);
    push_str(&mut text, n.as_str());
    push_str(&mut text, " RFF triggered\n");
    let n = decimal_u64(st.rff_chance as u64);
    push_str(&mut text, n.as_str());
    push_str(&mut text, "% chance of RFF\n");
    let n = decimal_u64(st.max_rff as u64);
    push_str(&mut text, n.as_str());
    push_str(&mut text, "% max RFF triggered\n");
    let n = decimal_u64(st.min_rff as u64);
    push_str(&mut text, n.as_str());
    push_str(&mut text, "% min RFF triggered");
    assert(text@ =~= spec_stats_field(*st));
    text
}

/// The "RFF star": the caller caught by the RFF at the highest chance, with
/// that chance; among equal chances, the latest record counts.
pub open spec fn spec_rff_star(scores: Seq<Roulette>) -> Option<(u64, u8)>
    decreases scores.len(),
{
    if scores.len() == 0 {
        None
    } else {
        let best = spec_rff_star(scores.drop_last());
        let r = scores.last();
        match r.rff_triggered {
            Some(v) => match best {
                Some(b) => if b.1 > v { best } else { Some((r.caller_id, v)) },
                None => Some((r.caller_id, v)),
            },
            None => best,
        }
    }
}

/// The "RFF star" of `scores`, if the RFF ever triggered.
pub fn rff_star(scores: &Vec<Roulette>) -> (star: Option<(u64, u8)>)
    ensures
        star == spec_rff_star(scores@),
{
    let mut best: Option<(u64, u8)> = None;
    let mut i: usize = 0;
    while i < scores.len()
        invariant
            i <= scores.len(),
            best == spec_rff_star(scores@.take(i as int)),
        decreases scores.len() - i,
    {
        let r = scores[i];
        proof {
            assert(scores@.take(i + 1).drop_last() =~= scores@.take(i as int));
            assert(scores@.take(i + 1).last() == r);
        }
        if let Some(v) = r.rff_triggered {
            best = match best {
                Some(b) => if b.1 > v { Some(b) } else { Some((r.caller_id, v)) },
                None => Some((r.caller_id, v)),
            };
        }
        i = i + 1;
    }
    assert(scores@.take(scores.len() as int) =~= scores@);
    best
}

/// The RFF star is a caller caught at the highest chance that any record
/// shows, and there is one exactly when some record shows the RFF.
pub proof fn lemma_rff_star_law(scores: Seq<Roulette>)
    ensures
        spec_rff_star(scores) is None <==> forall|i: int| 0 <= i < scores.len() ==> #[trigger] scores[i].rff_triggered is None,
        spec_rff_star(scores) matches Some((c, v)) ==> {
            &&& exists|i: int| 0 <= i < scores.len() && #[trigger] scores[i].caller_id == c && scores[i].rff_triggered == Some(v)
            &&& forall|i: int| 0 <= i < scores.len() && #[trigger] scores[i].rff_triggered is Some
                ==> scores[i].rff_triggered->0 <= v
        },
    decreases scores.len(),
{
    if scores.len() > 0 {
        let pre = scores.drop_last();
        lemma_rff_star_law(pre);
        let n = scores.len() - 1;
        assert forall|i: int| 0 <= i < n implies #[trigger] scores[i] == pre[i] by {}
        if let Some((c, v)) = spec_rff_star(scores) {
            if spec_rff_star(scores) == spec_rff_star(pre) {
                let j = choose|j: int| 0 <= j < pre.len() && #[trigger] pre[j].caller_id == c && pre[j].rff_triggered == Some(v);
                assert(scores[j] == pre[j]);
            } else {
                assert(scores[n].caller_id == c && scores[n].rff_triggered == Some(v));
            }
            assert forall|i: int| 0 <= i < scores.len() && #[trigger] scores[i].rff_triggered is Some
                implies scores[i].rff_triggered->0 <= v by {
                if i < n {
                    assert(scores[i] == pre[i]);
                    assert(pre[i].rff_triggered is Some);
                }
            }
        }
        if spec_rff_star(scores) is None {
            assert forall|i: int| 0 <= i < scores.len() implies #[trigger] scores[i].rff_triggered is None by {
                if i < n {
                    assert(scores[i] == pre[i]);
                }
            }
        } else {
            if scores[n].rff_triggered is None {
                let j = choose|j: int| 0 <= j < pre.len() && !(#[trigger] pre[j].rff_triggered is None);
                assert(scores[j] == pre[j]);
            }
        }
    }
}

} // verus!
