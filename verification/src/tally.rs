//! Tallies per user id: one entry per key, in the order in which the keys
//! first appear, holding either the sum or the largest of the values seen
//! for that key.

use vstd::prelude::*;

verus! {

/// What a tally keeps of the values of one key: the largest, or their sum.
pub open spec fn combine(current: i64, value: i64, keep_max: bool) -> i64 {
    if keep_max {
        if value > current { value } else { current }
    } else {
        (current + value) as i64
    }
}

/// The tally `t` after one more `value` for `key`: the entry of `key`
/// takes the value in, or a new entry `(key, value)` comes last.
pub open spec fn tally_add(t: Seq<(u64, i64)>, key: u64, value: i64, keep_max: bool) -> Seq<(u64, i64)>
    decreases t.len(),
{
    if t.len() == 0 {
        seq![(key, value)]
    } else if t[0].0 == key {
        t.update(0, (key, combine(t[0].1, value, keep_max)))
    } else {
        seq![t[0]] + tally_add(t.drop_first(), key, value, keep_max)
    }
}

/// The tally of `entries`, taken in order.
pub open spec fn spec_tally(entries: Seq<(u64, i64)>, keep_max: bool) -> Seq<(u64, i64)>
    decreases entries.len(),
{
    if entries.len() == 0 {
        seq![]
    } else {
        tally_add(spec_tally(entries.drop_last(), keep_max), entries.last().0, entries.last().1, keep_max)
    }
}

/// Each key with the value one, to be counted.
pub open spec fn ones(keys: Seq<u64>) -> Seq<(u64, i64)> {
    keys.map_values(|k: u64| (k, 1i64))
}

/// How many times `key` occurs in `keys`.
pub open spec fn occurrences(keys: Seq<u64>, key: u64) -> nat
    decreases keys.len(),
{
    if keys.len() == 0 {
        0
    } else {
        occurrences(keys.drop_last(), key) + (if keys.last() == key { 1nat } else { 0nat })
    }
}

/// No key occurs twice in `t`.
pub open spec fn distinct_keys(t: Seq<(u64, i64)>) -> bool {
    forall|i: int, j: int| 0 <= i < j < t.len() ==> #[trigger] t[i].0 != #[trigger] t[j].0
}

/// Where the first entry of `key` stands in `t`: the tally adds the value there.
proof fn lemma_tally_add_found(t: Seq<(u64, i64)>, key: u64, value: i64, keep_max: bool, i: int)
    requires
        0 <= i < t.len(),
        t[i].0 == key,
        forall|j: int| 0 <= j < i ==> #[trigger] t[j].0 != key,
    ensures
        tally_add(t, key, value, keep_max) == t.update(i, (key, combine(t[i].1, value, keep_max))),
    decreases i,
{
    if i > 0 {
        let rest = t.drop_first();
        assert forall|j: int| 0 <= j < i - 1 implies #[trigger] rest[j].0 != key by {
            assert(rest[j] == t[j + 1]);
        }
        lemma_tally_add_found(rest, key, value, keep_max, i - 1);
        assert(t[0].0 != key);
        assert(seq![t[0]] + rest.update(i - 1, (key, combine(rest[i - 1].1, value, keep_max)))
            =~= t.update(i, (key, combine(t[i].1, value, keep_max))));
    }
}

/// Without an entry of `key`, the tally gets a new entry at its end.
proof fn lemma_tally_add_absent(t: Seq<(u64, i64)>, key: u64, value: i64, keep_max: bool)
    requires
        forall|j: int| 0 <= j < t.len() ==> #[trigger] t[j].0 != key,
    ensures
        tally_add(t, key, value, keep_max) == t.push((key, value)),
    decreases t.len(),
{
    if t.len() > 0 {
        let rest = t.drop_first();
        assert forall|j: int| 0 <= j < rest.len() implies #[trigger] rest[j].0 != key by {
            assert(rest[j] == t[j + 1]);
        }
        lemma_tally_add_absent(rest, key, value, keep_max);
        assert(seq![t[0]] + rest.push((key, value)) =~= t.push((key, value)));
    }
}

/// Counting one more key keeps every count between one and the number of
/// keys counted.
proof fn lemma_count_bounded(t: Seq<(u64, i64)>, key: u64, n: int)
    requires
        0 <= n < i64::MAX,
        forall|j: int| 0 <= j < t.len() ==> 1 <= #[trigger] t[j].1 <= n,
    ensures
        forall|j: int| 0 <= j < tally_add(t, key, 1, false).len()
            ==> 1 <= #[trigger] tally_add(t, key, 1, false)[j].1 <= n + 1,
    decreases t.len(),
{
    if t.len() > 0 && t[0].0 != key {
        let rest = t.drop_first();
        assert forall|j: int| 0 <= j < rest.len() implies 1 <= #[trigger] rest[j].1 <= n by {
            assert(rest[j] == t[j + 1]);
        }
        lemma_count_bounded(rest, key, n);
        let r = tally_add(t, key, 1, false);
        assert forall|j: int| 0 <= j < r.len() implies 1 <= #[trigger] r[j].1 <= n + 1 by {
            if j > 0 {
                assert(r[j] == tally_add(rest, key, 1, false)[j - 1]);
            }
        }
    } else if t.len() > 0 {
        let r = tally_add(t, key, 1, false);
        assert forall|j: int| 0 <= j < r.len() implies 1 <= #[trigger] r[j].1 <= n + 1 by {
            if j == 0 {
                assert(r[0].1 == t[0].1 + 1);
            } else {
                assert(r[j] == t[j]);
            }
        }
    }
}

/// Take one more `value` for `key` into the tally `t`.
fn add_entry(t: &mut Vec<(u64, i64)>, key: u64, value: i64, keep_max: bool)
    requires
        !keep_max ==> forall|j: int| 0 <= j < old(t).len() ==> i64::MIN <= #[trigger] old(t)[j].1 + value <= i64::MAX,
    ensures
        final(t)@ == tally_add(old(t)@, key, value, keep_max),
{
    let mut i: usize = 0;
    while i < t.len()
        invariant
            t@ == old(t)@,
            i <= t.len(),
            forall|j: int| 0 <= j < i ==> #[trigger] t@[j].0 != key,
            !keep_max ==> forall|j: int| 0 <= j < old(t).len() ==> i64::MIN <= #[trigger] old(t)[j].1 + value <= i64::MAX,
        decreases t.len() - i,
    {
        let entry = t[i];
        if entry.0 == key {
            let current = entry.1;
            let combined = if keep_max {
                if value > current { value } else { current }
            } else {
                current + value
            };
            proof {
                lemma_tally_add_found(t@, key, value, keep_max, i as int);
            }
            t.set(i, (key, combined));
            return;
        }
        i = i + 1;
    }
    proof {
        lemma_tally_add_absent(t@, key, value, keep_max);
    }
    t.push((key, value));
}

/// How many times each key occurs in `keys`, one entry per key in the
/// order in which the keys first appear.
pub fn count_keys(keys: &Vec<u64>) -> (counts: Vec<(u64, i64)>)
    requires
        keys.len() < i64::MAX,
    ensures
        counts@ == spec_tally(ones(keys@), false),
{
    let mut counts: Vec<(u64, i64)> = Vec::new();
    let mut i: usize = 0;
    while i < keys.len()
        invariant
            i <= keys.len(),
            keys.len() < i64::MAX,
            counts@ == spec_tally(ones(keys@.take(i as int)), false),
            forall|j: int| 0 <= j < counts.len() ==> 1 <= #[trigger] counts@[j].1 <= i,
        decreases keys.len() - i,
    {
        let key = keys[i];
        let ghost before = counts@;
        add_entry(&mut counts, key, 1, false);
        proof {
            assert(ones(keys@.take(i + 1)).drop_last() =~= ones(keys@.take(i as int)));
            assert(ones(keys@.take(i + 1)).last() == (key, 1i64));
            lemma_count_bounded(before, key, i as int);
        }
        i = i + 1;
    }
    assert(keys@.take(keys.len() as int) =~= keys@);
    counts
}

/// The largest value of each key among `entries`, one entry per key in
/// the order in which the keys first appear.
pub fn max_per_key(entries: &Vec<(u64, i64)>) -> (maxima: Vec<(u64, i64)>)
    ensures
        maxima@ == spec_tally(entries@, true),
{
    let mut maxima: Vec<(u64, i64)> = Vec::new();
    let mut i: usize = 0;
    while i < entries.len()
        invariant
            i <= entries.len(),
            maxima@ == spec_tally(entries@.take(i as int), true),
        decreases entries.len() - i,
    {
        let entry = entries[i];
        add_entry(&mut maxima, entry.0, entry.1, true);
        proof {
            assert(entries@.take(i + 1).drop_last() =~= entries@.take(i as int));
        }
        i = i + 1;
    }
    assert(entries@.take(entries.len() as int) =~= entries@);
    maxima
}

/// One step of a tally without repeated keys: either the entry of `key`
/// at the returned position takes the value in, or a new entry comes last;
/// no key is repeated afterwards either.
proof fn lemma_tally_step(t: Seq<(u64, i64)>, key: u64, value: i64, keep_max: bool) -> (i: int)
    requires
        distinct_keys(t),
    ensures
        distinct_keys(tally_add(t, key, value, keep_max)),
        0 <= i <= t.len(),
        i < t.len() ==> t[i].0 == key
            && tally_add(t, key, value, keep_max) == t.update(i, (key, combine(t[i].1, value, keep_max))),
        i == t.len() ==> (forall|j: int| 0 <= j < t.len() ==> #[trigger] t[j].0 != key)
            && tally_add(t, key, value, keep_max) == t.push((key, value)),
{
    if exists|j: int| 0 <= j < t.len() && t[j].0 == key {
        let i = choose|j: int| 0 <= j < t.len() && t[j].0 == key;
        assert forall|j: int| 0 <= j < i implies #[trigger] t[j].0 != key by {
            assert(t[j].0 != t[i].0);
        }
        lemma_tally_add_found(t, key, value, keep_max, i);
        let r = t.update(i, (key, combine(t[i].1, value, keep_max)));
        assert forall|a: int, b: int| 0 <= a < b < r.len() implies #[trigger] r[a].0 != #[trigger] r[b].0 by {
            assert(r[a].0 == t[a].0 && r[b].0 == t[b].0);
        }
        i
    } else {
        lemma_tally_add_absent(t, key, value, keep_max);
        let r = t.push((key, value));
        assert forall|a: int, b: int| 0 <= a < b < r.len() implies #[trigger] r[a].0 != #[trigger] r[b].0 by {
            if b < t.len() {
                assert(r[a] == t[a] && r[b] == t[b]);
            } else {
                assert(r[a] == t[a]);
            }
        }
        t.len() as int
    }
}

proof fn lemma_occurrences_bound(keys: Seq<u64>, key: u64)
    ensures
        occurrences(keys, key) <= keys.len(),
    decreases keys.len(),
{
    if keys.len() > 0 {
        lemma_occurrences_bound(keys.drop_last(), key);
    }
}

/// What a count of keys holds: no key twice, exactly the keys that occur,
/// each with the number of times it occurs.
pub proof fn lemma_count_keys_law(keys: Seq<u64>)
    requires
        keys.len() < i64::MAX,
    ensures
        distinct_keys(spec_tally(ones(keys), false)),
        forall|i: int| 0 <= i < spec_tally(ones(keys), false).len()
            ==> #[trigger] spec_tally(ones(keys), false)[i].1 == occurrences(keys, spec_tally(ones(keys), false)[i].0),
        forall|k: u64| occurrences(keys, k) > 0
            <==> exists|i: int| 0 <= i < spec_tally(ones(keys), false).len() && #[trigger] spec_tally(ones(keys), false)[i].0 == k,
    decreases keys.len(),
{
    let r = spec_tally(ones(keys), false);
    if keys.len() > 0 {
        let pre = keys.drop_last();
        let k = keys.last();
        lemma_count_keys_law(pre);
        let r0 = spec_tally(ones(pre), false);
        assert(ones(keys).drop_last() =~= ones(pre));
        assert(ones(keys).last() == (k, 1i64));
        assert(r == tally_add(r0, k, 1, false));
        let i = lemma_tally_step(r0, k, 1, false);
        if i < r0.len() {
            lemma_occurrences_bound(pre, k);
            assert forall|j: int| 0 <= j < r.len() implies #[trigger] r[j].1 == occurrences(keys, r[j].0) by {
                if j != i {
                    assert(r[j] == r0[j]);
                    assert(r0[j].0 != r0[i].0);
                }
            }
            assert forall|x: u64| occurrences(keys, x) > 0 implies exists|j: int| 0 <= j < r.len() && #[trigger] r[j].0 == x by {
                if x == k {
                    assert(r[i].0 == x);
                } else {
                    assert(occurrences(keys, x) == occurrences(pre, x));
                    assert(occurrences(pre, x) > 0);
                    let j = choose|j: int| 0 <= j < r0.len() && #[trigger] r0[j].0 == x;
                    assert(r[j].0 == x);
                }
            }
            assert forall|x: u64| (exists|j: int| 0 <= j < r.len() && #[trigger] r[j].0 == x) implies occurrences(keys, x) > 0 by {
                let j = choose|j: int| 0 <= j < r.len() && #[trigger] r[j].0 == x;
                assert(occurrences(keys, x) == occurrences(pre, x) + (if k == x { 1nat } else { 0nat }));
                if j != i {
                    assert(r0[j].0 == x);
                    assert(exists|b: int| 0 <= b < r0.len() && #[trigger] r0[b].0 == x);
                }
            }
        } else {
            assert(occurrences(pre, k) == 0) by {
                if occurrences(pre, k) > 0 {
                    let j = choose|j: int| 0 <= j < r0.len() && #[trigger] r0[j].0 == k;
                    assert(r0[j].0 != k);
                }
            }
            assert forall|j: int| 0 <= j < r.len() implies #[trigger] r[j].1 == occurrences(keys, r[j].0) by {
                if j < r0.len() {
                    assert(r[j] == r0[j]);
                    assert(r0[j].0 != k);
                }
            }
            assert forall|x: u64| occurrences(keys, x) > 0 implies exists|j: int| 0 <= j < r.len() && #[trigger] r[j].0 == x by {
                if x == k {
                    assert(r[r0.len() as int].0 == x);
                } else {
                    assert(occurrences(keys, x) == occurrences(pre, x));
                    assert(occurrences(pre, x) > 0);
                    let j = choose|j: int| 0 <= j < r0.len() && #[trigger] r0[j].0 == x;
                    assert(r[j].0 == x);
                }
            }
            assert forall|x: u64| (exists|j: int| 0 <= j < r.len() && #[trigger] r[j].0 == x) implies occurrences(keys, x) > 0 by {
                let j = choose|j: int| 0 <= j < r.len() && #[trigger] r[j].0 == x;
                assert(occurrences(keys, x) == occurrences(pre, x) + (if k == x { 1nat } else { 0nat }));
                if j < r0.len() {
                    assert(r0[j].0 == x);
                    assert(exists|b: int| 0 <= b < r0.len() && #[trigger] r0[b].0 == x);
                }
            }
        }
    }
}

/// The tally of maxima after one more entry `e`, with the position that
/// `lemma_tally_step` gave.
spec fn max_step_facts(r0: Seq<(u64, i64)>, e: (u64, i64), i: int, r: Seq<(u64, i64)>) -> bool {
    &&& 0 <= i <= r0.len()
    &&& i < r0.len() ==> r0[i].0 == e.0 && r == r0.update(i, (e.0, combine(r0[i].1, e.1, true)))
    &&& i == r0.len() ==> (forall|j: int| 0 <= j < r0.len() ==> #[trigger] r0[j].0 != e.0) && r == r0.push(e)
}

proof fn lemma_max_step_contains(entries: Seq<(u64, i64)>, pre: Seq<(u64, i64)>, e: (u64, i64), r0: Seq<(u64, i64)>, i: int, r: Seq<(u64, i64)>)
    requires
        entries.len() == pre.len() + 1,
        entries.last() == e,
        forall|j: int| 0 <= j < pre.len() ==> entries[j] == #[trigger] pre[j],
        max_step_facts(r0, e, i, r),
        forall|a: int| 0 <= a < r0.len() ==> pre.contains(#[trigger] r0[a]),
    ensures
        forall|a: int| 0 <= a < r.len() ==> entries.contains(#[trigger] r[a]),
{
    assert forall|a: int| 0 <= a < r.len() implies entries.contains(#[trigger] r[a]) by {
        if a == i && !(i < r0.len() && e.1 <= r0[i].1) {
            assert(entries[pre.len() as int] == r[a]);
        } else {
            assert(r[a] == r0[a]);
            assert(pre.contains(r0[a]));
            let j = choose|j: int| 0 <= j < pre.len() && pre[j] == r0[a];
            assert(entries[j] == pre[j]);
        }
    }
}

proof fn lemma_max_step_largest(entries: Seq<(u64, i64)>, pre: Seq<(u64, i64)>, e: (u64, i64), r0: Seq<(u64, i64)>, i: int, r: Seq<(u64, i64)>)
    requires
        entries.len() == pre.len() + 1,
        entries.last() == e,
        forall|j: int| 0 <= j < pre.len() ==> entries[j] == #[trigger] pre[j],
        max_step_facts(r0, e, i, r),
        distinct_keys(r0),
        forall|a: int, j: int| 0 <= a < r0.len() && 0 <= j < pre.len() && #[trigger] pre[j].0 == #[trigger] r0[a].0
            ==> pre[j].1 <= r0[a].1,
        forall|j: int| 0 <= j < pre.len() ==> exists|a: int| 0 <= a < r0.len() && #[trigger] r0[a].0 == #[trigger] pre[j].0,
    ensures
        forall|a: int, j: int| 0 <= a < r.len() && 0 <= j < entries.len()
            && #[trigger] entries[j].0 == #[trigger] r[a].0 ==> entries[j].1 <= r[a].1,
{
    let n = pre.len() as int;
    assert forall|a: int, j: int| 0 <= a < r.len() && 0 <= j < entries.len()
        && #[trigger] entries[j].0 == #[trigger] r[a].0 implies entries[j].1 <= r[a].1 by {
        if j == n {
            if a != i {
                assert(r[a] == r0[a]);
                if i < r0.len() {
                    assert(r0[a].0 != r0[i].0);
                }
            }
        } else {
            assert(entries[j] == pre[j]);
            let b = choose|b: int| 0 <= b < r0.len() && #[trigger] r0[b].0 == #[trigger] pre[j].0;
            if a < r0.len() {
                assert(r0[a].0 == r0[b].0) by {
                    if a != i {
                        assert(r[a] == r0[a]);
                    }
                }
                assert(a == b);
            } else {
                assert(r0[b].0 != e.0);
            }
        }
    }
}

proof fn lemma_max_step_keys(entries: Seq<(u64, i64)>, pre: Seq<(u64, i64)>, e: (u64, i64), r0: Seq<(u64, i64)>, i: int, r: Seq<(u64, i64)>)
    requires
        entries.len() == pre.len() + 1,
        entries.last() == e,
        forall|j: int| 0 <= j < pre.len() ==> entries[j] == #[trigger] pre[j],
        max_step_facts(r0, e, i, r),
        forall|j: int| 0 <= j < pre.len() ==> exists|a: int| 0 <= a < r0.len() && #[trigger] r0[a].0 == #[trigger] pre[j].0,
    ensures
        forall|j: int| 0 <= j < entries.len()
            ==> exists|a: int| 0 <= a < r.len() && #[trigger] r[a].0 == #[trigger] entries[j].0,
{
    assert forall|j: int| 0 <= j < entries.len()
        implies exists|a: int| 0 <= a < r.len() && #[trigger] r[a].0 == #[trigger] entries[j].0 by {
        if j == pre.len() {
            assert(r[i].0 == e.0);
        } else {
            assert(entries[j] == pre[j]);
            let b = choose|b: int| 0 <= b < r0.len() && #[trigger] r0[b].0 == #[trigger] pre[j].0;
            assert(r[b].0 == r0[b].0);
        }
    }
}

/// What a tally of maxima holds: no key twice, exactly the keys of
/// `entries`, each with the largest value that `entries` has for it.
pub proof fn lemma_max_per_key_law(entries: Seq<(u64, i64)>)
    ensures
        distinct_keys(spec_tally(entries, true)),
        forall|i: int| 0 <= i < spec_tally(entries, true).len()
            ==> entries.contains(#[trigger] spec_tally(entries, true)[i]),
        forall|i: int, j: int| 0 <= i < spec_tally(entries, true).len() && 0 <= j < entries.len()
            && #[trigger] entries[j].0 == #[trigger] spec_tally(entries, true)[i].0
            ==> entries[j].1 <= spec_tally(entries, true)[i].1,
        forall|j: int| 0 <= j < entries.len()
            ==> exists|i: int| 0 <= i < spec_tally(entries, true).len() && #[trigger] spec_tally(entries, true)[i].0 == #[trigger] entries[j].0,
    decreases entries.len(),
{
    if entries.len() > 0 {
        let pre = entries.drop_last();
        let e = entries.last();
        lemma_max_per_key_law(pre);
        let r0 = spec_tally(pre, true);
        let r = spec_tally(entries, true);
        let i = lemma_tally_step(r0, e.0, e.1, true);
        assert(max_step_facts(r0, e, i, r));
        lemma_max_step_contains(entries, pre, e, r0, i, r);
        lemma_max_step_largest(entries, pre, e, r0, i, r);
        lemma_max_step_keys(entries, pre, e, r0, i, r);
    }
}

/// The sum of the values of a tally.
pub open spec fn total_value(t: Seq<(u64, i64)>) -> int
    decreases t.len(),
{
    if t.len() == 0 {
        0
    } else {
        total_value(t.drop_last()) + t.last().1
    }
}

proof fn lemma_total_value_update(t: Seq<(u64, i64)>, i: int, e: (u64, i64))
    requires
        0 <= i < t.len(),
    ensures
        total_value(t.update(i, e)) == total_value(t) - t[i].1 + e.1,
    decreases t.len(),
{
    let u = t.update(i, e);
    if i < t.len() - 1 {
        lemma_total_value_update(t.drop_last(), i, e);
        assert(u.drop_last() =~= t.drop_last().update(i, e));
    } else {
        assert(u.drop_last() =~= t.drop_last());
    }
}

/// A count of keys counts every key once: its counts add up to the number of keys.
pub proof fn lemma_count_keys_total(keys: Seq<u64>)
    requires
        keys.len() < i64::MAX,
    ensures
        total_value(spec_tally(ones(keys), false)) == keys.len(),
    decreases keys.len(),
{
    if keys.len() > 0 {
        let pre = keys.drop_last();
        lemma_count_keys_total(pre);
        lemma_count_keys_law(pre);
        let r0 = spec_tally(ones(pre), false);
        assert(ones(keys).drop_last() =~= ones(pre));
        assert(ones(keys).last() == (keys.last(), 1i64));
        let i = lemma_tally_step(r0, keys.last(), 1, false);
        if i < r0.len() {
            lemma_occurrences_bound(pre, keys.last());
            lemma_total_value_update(r0, i, (keys.last(), combine(r0[i].1, 1, false)));
        } else {
            assert(r0.push((keys.last(), 1i64)).drop_last() =~= r0);
        }
    }
}

} // verus!
