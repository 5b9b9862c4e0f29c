//! Rankings of the members of a guild by xp.

use vstd::prelude::*;

use super::models::UserLevel;
use crate::sorting::{goes_before, is_sorted_by_key, stable_sort_by_key, stable_sorted};

verus! {

/// `users` keyed by xp, in their order.
pub open spec fn keyed_by_xp(users: Seq<UserLevel>) -> Seq<(i64, UserLevel)> {
    users.map_values(|u: UserLevel| (u.xp, u))
}

/// `users` keyed by rank, in their order.
pub open spec fn keyed_by_rank(users: Seq<UserLevel>) -> Seq<(i64, UserLevel)> {
    users.map_values(|u: UserLevel| (u.rank, u))
}

/// The items of keyed pairs.
pub open spec fn items(s: Seq<(i64, UserLevel)>) -> Seq<UserLevel> {
    s.map_values(|p: (i64, UserLevel)| p.1)
}

/// `users` by decreasing xp; members with equal xp keep their order.
pub open spec fn by_xp_desc(users: Seq<UserLevel>) -> Seq<UserLevel> {
    items(stable_sorted(keyed_by_xp(users), true))
}

/// `users` by increasing rank; members with equal rank keep their order.
pub open spec fn by_rank_asc(users: Seq<UserLevel>) -> Seq<UserLevel> {
    items(stable_sorted(keyed_by_rank(users), false))
}

/// The members of `sorted[from..]` whose rank is not their position plus one,
/// with the rank set to that position plus one.
pub open spec fn rank_changes_from(sorted: Seq<UserLevel>, from: int) -> Seq<UserLevel>
    decreases sorted.len() - from,
{
    if from < 0 || from >= sorted.len() {
        seq![]
    } else {
        let u = sorted[from];
        let rest = rank_changes_from(sorted, from + 1);
        if u.rank != from + 1 {
            seq![UserLevel { rank: (from + 1) as i64, ..u }] + rest
        } else {
            rest
        }
    }
}

/// The rank updates after sorting by decreasing xp: rank `i + 1` for the
/// `i`-th member, listed for the members whose rank changes.
pub open spec fn spec_rank_changes(users: Seq<UserLevel>) -> Seq<UserLevel> {
    rank_changes_from(by_xp_desc(users), 0)
}

fn key_by_xp(users: Vec<UserLevel>) -> (keyed: Vec<(i64, UserLevel)>)
    ensures
        keyed@ == keyed_by_xp(users@),
{
    let mut keyed: Vec<(i64, UserLevel)> = Vec::new();
    let mut i: usize = 0;
    while i < users.len()
        invariant
            i <= users.len(),
            keyed@ =~= keyed_by_xp(users@.subrange(0, i as int)),
        decreases users.len() - i,
    {
        let u = users[i];
        keyed.push((u.xp, u));
        i = i + 1;
        proof {
            assert(users@.subrange(0, i as int) =~= users@.subrange(0, i - 1).push(u));
        }
    }
    assert(users@.subrange(0, users.len() as int) =~= users@);
    keyed
}

fn key_by_rank(users: Vec<UserLevel>) -> (keyed: Vec<(i64, UserLevel)>)
    ensures
        keyed@ == keyed_by_rank(users@),
{
    let mut keyed: Vec<(i64, UserLevel)> = Vec::new();
    let mut i: usize = 0;
    while i < users.len()
        invariant
            i <= users.len(),
            keyed@ =~= keyed_by_rank(users@.subrange(0, i as int)),
        decreases users.len() - i,
    {
        let u = users[i];
        keyed.push((u.rank, u));
        i = i + 1;
        proof {
            assert(users@.subrange(0, i as int) =~= users@.subrange(0, i - 1).push(u));
        }
    }
    assert(users@.subrange(0, users.len() as int) =~= users@);
    keyed
}

fn unkey(keyed: Vec<(i64, UserLevel)>) -> (users: Vec<UserLevel>)
    ensures
        users@ == items(keyed@),
{
    let mut users: Vec<UserLevel> = Vec::new();
    let mut i: usize = 0;
    while i < keyed.len()
        invariant
            i <= keyed.len(),
            users@ =~= items(keyed@.subrange(0, i as int)),
        decreases keyed.len() - i,
    {
        users.push(keyed[i].1);
        i = i + 1;
        proof {
            assert(keyed@.subrange(0, i as int) =~= keyed@.subrange(0, i - 1).push(keyed@[i - 1]));
        }
    }
    assert(keyed@.subrange(0, keyed.len() as int) =~= keyed@);
    users
}

/// Sort users by decreasing xp; users with equal xp keep their order.
pub fn sort_by_xp_desc(users: Vec<UserLevel>) -> (sorted: Vec<UserLevel>)
    ensures
        sorted@ == by_xp_desc(users@),
{
    unkey(stable_sort_by_key(key_by_xp(users), true))
}

/// Sort users by increasing rank; users with equal rank keep their order.
pub fn sort_by_rank_asc(users: Vec<UserLevel>) -> (sorted: Vec<UserLevel>)
    ensures
        sorted@ == by_rank_asc(users@),
{
    unkey(stable_sort_by_key(key_by_rank(users), false))
}

/// The members whose rank changes when ranks are recomputed from xp: all
/// users are sorted by decreasing xp (equal xp keeps the given order), the
/// `i`-th gets rank `i + 1`, and those whose rank was different are returned
/// with their new rank, in that order.
pub fn rank_changes(all_users: Vec<UserLevel>) -> (changed: Vec<UserLevel>)
    requires
        all_users.len() < i64::MAX,
    ensures
        changed@ == spec_rank_changes(all_users@),
{
    let ghost n = all_users.len();
    let sorted = sort_by_xp_desc(all_users);
    proof {
        crate::sorting::lemma_stable_sorted_properties(keyed_by_xp(all_users@), true);
    }
    let mut changed: Vec<UserLevel> = Vec::new();
    let mut i: usize = 0;
    while i < sorted.len()
        invariant
            sorted.len() == n,
            n < i64::MAX,
            i <= sorted.len(),
            changed@ + rank_changes_from(sorted@, i as int) == rank_changes_from(sorted@, 0),
        decreases sorted.len() - i,
    {
        let u = sorted[i];
        let position: i64 = (i as i64) + 1;
        if u.rank != position {
            let mut v = u;
            v.rank = position;
            proof {
                assert(v == UserLevel { rank: (i + 1) as i64, ..u });
                assert(changed@.push(v) + rank_changes_from(sorted@, i + 1) =~= changed@ + rank_changes_from(sorted@, i as int));
            }
            changed.push(v);
        }
        i = i + 1;
    }
    assert(changed@ + rank_changes_from(sorted@, i as int) =~= changed@);
    changed
}

/// The first `number` users by rank (all of them if there are fewer).
pub fn top_users(all_users: Vec<UserLevel>, number: usize) -> (top: Vec<UserLevel>)
    ensures
        top@ == by_rank_asc(all_users@).take(
            if number <= all_users.len() { number as int } else { all_users.len() as int },
        ),
{
    let sorted = sort_by_rank_asc(all_users);
    proof {
        crate::sorting::lemma_stable_sorted_properties(keyed_by_rank(all_users@), false);
        assert(sorted@.len() == all_users@.len());
    }
    let mut top: Vec<UserLevel> = Vec::new();
    let mut i: usize = 0;
    while i < sorted.len() && i < number
        invariant
            i <= sorted.len(),
            i <= number,
            sorted@.len() == all_users@.len(),
            top@ =~= sorted@.take(i as int),
        decreases sorted.len() - i,
    {
        top.push(sorted[i]);
        i = i + 1;
        proof {
            assert(sorted@.take(i as int) =~= sorted@.take(i - 1).push(sorted@[i - 1]));
        }
    }
    top
}

/// Sorting by xp puts the members in decreasing order of xp and keeps
/// every member: the same members, as many times each.
pub proof fn lemma_by_xp_desc_law(users: Seq<UserLevel>)
    ensures
        by_xp_desc(users).len() == users.len(),
        forall|i: int, j: int| 0 <= i < j < users.len() ==> #[trigger] by_xp_desc(users)[i].xp >= #[trigger] by_xp_desc(users)[j].xp,
        by_xp_desc(users).to_multiset() == users.to_multiset(),
{
    let k = keyed_by_xp(users);
    let key = |u: UserLevel| u.xp;
    assert forall|j: int| 0 <= j < k.len() implies #[trigger] k[j] == (key(users[j]), users[j]) by {}
    lemma_sorted_items(users, k, key, true);
    crate::sorting::lemma_stable_sorted_properties(k, true);
    let sorted = stable_sorted(k, true);
    let r = by_xp_desc(users);
    assert forall|i: int, j: int| 0 <= i < j < users.len() implies #[trigger] r[i].xp >= #[trigger] r[j].xp by {
        assert(r[i] == sorted[i].1 && r[j] == sorted[j].1);
        assert(sorted[i].0 == key(sorted[i].1) && sorted[j].0 == key(sorted[j].1));
        assert(!(sorted[j].0 > sorted[i].0));
    }
}

/// In pairs keyed by `key`, a member occurs as often as its pair does.
proof fn lemma_items_count(s: Seq<(i64, UserLevel)>, key: spec_fn(UserLevel) -> i64, x: UserLevel)
    requires
        forall|i: int| 0 <= i < s.len() ==> #[trigger] s[i].0 == key(s[i].1),
    ensures
        items(s).to_multiset().count(x) == s.to_multiset().count((key(x), x)),
    decreases s.len(),
{
    broadcast use vstd::multiset::group_multiset_axioms;
    if s.len() == 0 {
        assert(items(s) =~= Seq::<UserLevel>::empty());
        vstd::seq_lib::to_multiset_contains(items(s), x);
        vstd::seq_lib::to_multiset_contains(s, (key(x), x));
    } else {
        let t = s.drop_last();
        assert forall|i: int| 0 <= i < t.len() implies #[trigger] t[i].0 == key(t[i].1) by {
            assert(t[i] == s[i]);
        }
        lemma_items_count(t, key, x);
        assert(items(s) =~= items(t).push(s.last().1));
        assert(s =~= t.push(s.last()));
        vstd::seq_lib::to_multiset_build(items(t), s.last().1);
        vstd::seq_lib::to_multiset_build(t, s.last());
        assert(s.last().0 == key(s.last().1));
    }
}

/// Sorting by a key keeps every member, and each sorted pair holds its
/// member's key.
proof fn lemma_sorted_items(users: Seq<UserLevel>, k: Seq<(i64, UserLevel)>, key: spec_fn(UserLevel) -> i64, descending: bool)
    requires
        k.len() == users.len(),
        forall|j: int| 0 <= j < k.len() ==> #[trigger] k[j] == (key(users[j]), users[j]),
    ensures
        forall|i: int| 0 <= i < stable_sorted(k, descending).len()
            ==> #[trigger] stable_sorted(k, descending)[i].0 == key(stable_sorted(k, descending)[i].1),
        items(stable_sorted(k, descending)).to_multiset() == users.to_multiset(),
        items(stable_sorted(k, descending)).len() == users.len(),
{
    let sorted = stable_sorted(k, descending);
    crate::sorting::lemma_stable_sorted_properties(k, descending);
    assert forall|i: int| 0 <= i < sorted.len() implies #[trigger] sorted[i].0 == key(sorted[i].1) by {
        vstd::seq_lib::to_multiset_contains(sorted, sorted[i]);
        vstd::seq_lib::to_multiset_contains(k, sorted[i]);
        let j = choose|j: int| 0 <= j < k.len() && k[j] == sorted[i];
        assert(k[j] == (key(users[j]), users[j]));
    }
    assert(items(k) =~= users);
    assert forall|i: int| 0 <= i < k.len() implies #[trigger] k[i].0 == key(k[i].1) by {
        assert(k[i] == (key(users[i]), users[i]));
    }
    let r = items(sorted);
    assert forall|x: UserLevel| #[trigger] r.to_multiset().count(x) == users.to_multiset().count(x) by {
        lemma_items_count(sorted, key, x);
        lemma_items_count(k, key, x);
    }
    assert(r.to_multiset() =~= users.to_multiset());
}

/// Sorting by rank puts the members in increasing order of rank and keeps
/// every member: the same members, as many times each.
pub proof fn lemma_by_rank_asc_law(users: Seq<UserLevel>)
    ensures
        by_rank_asc(users).len() == users.len(),
        forall|i: int, j: int| 0 <= i < j < users.len() ==> #[trigger] by_rank_asc(users)[i].rank <= #[trigger] by_rank_asc(users)[j].rank,
        by_rank_asc(users).to_multiset() == users.to_multiset(),
{
    let k = keyed_by_rank(users);
    let key = |u: UserLevel| u.rank;
    assert forall|j: int| 0 <= j < k.len() implies #[trigger] k[j] == (key(users[j]), users[j]) by {}
    lemma_sorted_items(users, k, key, false);
    crate::sorting::lemma_stable_sorted_properties(k, false);
    let sorted = stable_sorted(k, false);
    let r = by_rank_asc(users);
    assert forall|i: int, j: int| 0 <= i < j < users.len() implies #[trigger] r[i].rank <= #[trigger] r[j].rank by {
        assert(r[i] == sorted[i].1 && r[j] == sorted[j].1);
        assert(sorted[i].0 == key(sorted[i].1) && sorted[j].0 == key(sorted[j].1));
        assert(!(sorted[j].0 < sorted[i].0));
    }
}

/// Whether `x` is the member at some position `i >= from` of `sorted`, whose
/// rank is not `i + 1`, given rank `i + 1`.
pub open spec fn is_rank_update(sorted: Seq<UserLevel>, from: int, x: UserLevel) -> bool {
    exists|i: int| from <= i < sorted.len() && sorted[i].rank != i + 1
        && x == (UserLevel { rank: (i + 1) as i64, ..sorted[i] })
}

/// The rank updates list, in order of xp, exactly the members whose rank is
/// not their position: each one with the rank `position + 1`.
pub proof fn lemma_rank_changes_law(sorted: Seq<UserLevel>, from: int)
    requires
        0 <= from <= sorted.len(),
        sorted.len() < i64::MAX,
    ensures
        forall|k: int| 0 <= k < rank_changes_from(sorted, from).len()
            ==> is_rank_update(sorted, from, #[trigger] rank_changes_from(sorted, from)[k]),
        forall|i: int| from <= i < sorted.len() && #[trigger] sorted[i].rank != i + 1
            ==> rank_changes_from(sorted, from).contains(UserLevel { rank: (i + 1) as i64, ..sorted[i] }),
    decreases sorted.len() - from,
{
    if from < sorted.len() {
        lemma_rank_changes_law(sorted, from + 1);
        let rest = rank_changes_from(sorted, from + 1);
        let r = rank_changes_from(sorted, from);
        let u = sorted[from];
        assert forall|k: int| 0 <= k < rest.len() implies is_rank_update(sorted, from, #[trigger] rest[k]) by {
            assert(is_rank_update(sorted, from + 1, rest[k]));
            let i = choose|i: int| from + 1 <= i < sorted.len() && sorted[i].rank != i + 1
                && rest[k] == (UserLevel { rank: (i + 1) as i64, ..sorted[i] });
        }
        if u.rank != from + 1 {
            let head = UserLevel { rank: (from + 1) as i64, ..u };
            assert(r == seq![head] + rest);
            assert forall|k: int| 0 <= k < r.len() implies is_rank_update(sorted, from, #[trigger] r[k]) by {
                if k == 0 {
                    assert(r[0] == head);
                } else {
                    assert(r[k] == rest[k - 1]);
                }
            }
            assert forall|i: int| from <= i < sorted.len() && #[trigger] sorted[i].rank != i + 1
                implies r.contains(UserLevel { rank: (i + 1) as i64, ..sorted[i] }) by {
                if i == from {
                    assert(r[0] == head);
                } else {
                    let x = UserLevel { rank: (i + 1) as i64, ..sorted[i] };
                    assert(rest.contains(x));
                    let k = choose|k: int| 0 <= k < rest.len() && rest[k] == x;
                    assert(r[k + 1] == rest[k]);
                }
            }
        } else {
            assert(r == rest);
        }
    }
}

/// Recomputing the ranks of `users` changes, in decreasing order of xp,
/// exactly the members whose rank is not their position in that order, each
/// to its position plus one.
pub proof fn lemma_spec_rank_changes_law(users: Seq<UserLevel>)
    requires
        users.len() < i64::MAX,
    ensures
        forall|k: int| 0 <= k < spec_rank_changes(users).len()
            ==> is_rank_update(by_xp_desc(users), 0, #[trigger] spec_rank_changes(users)[k]),
        forall|i: int| 0 <= i < by_xp_desc(users).len() && #[trigger] by_xp_desc(users)[i].rank != i + 1
            ==> spec_rank_changes(users).contains(UserLevel { rank: (i + 1) as i64, ..by_xp_desc(users)[i] }),
{
    lemma_by_xp_desc_law(users);
    lemma_rank_changes_law(by_xp_desc(users), 0);
}

} // verus!
