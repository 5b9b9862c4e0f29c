//! Stable sorting of keyed items, as `slice::sort_by` does it: items with
//! equal keys keep the order they had.

use vstd::prelude::*;

verus! {

/// Whether key `a` must come before key `b`.
pub open spec fn goes_before(descending: bool, a: i64, b: i64) -> bool {
    if descending {
        a > b
    } else {
        a < b
    }
}

/// Whether the keys of `s` are in order.
pub open spec fn is_sorted_by_key<T>(s: Seq<(i64, T)>, descending: bool) -> bool {
    forall|i: int, j: int| 0 <= i < j < s.len() ==> !goes_before(descending, #[trigger] s[j].0, #[trigger] s[i].0)
}

/// The position where `x` is inserted in `s`: after every item it does not go before.
pub open spec fn insert_position<T>(s: Seq<(i64, T)>, x: (i64, T), descending: bool) -> int
    decreases s.len(),
{
    if s.len() == 0 {
        0
    } else if goes_before(descending, x.0, s.last().0) {
        insert_position(s.drop_last(), x, descending)
    } else {
        s.len() as int
    }
}

/// The stable sort of `s`: each item in turn is inserted after the items
/// already placed that it does not go before.
pub open spec fn stable_sorted<T>(s: Seq<(i64, T)>, descending: bool) -> Seq<(i64, T)>
    decreases s.len(),
{
    if s.len() == 0 {
        s
    } else {
        let rest = stable_sorted(s.drop_last(), descending);
        rest.insert(insert_position(rest, s.last(), descending), s.last())
    }
}

proof fn lemma_insert_position_bounds<T>(s: Seq<(i64, T)>, x: (i64, T), descending: bool)
    ensures
        0 <= insert_position(s, x, descending) <= s.len(),
    decreases s.len(),
{
    if s.len() > 0 && goes_before(descending, x.0, s.last().0) {
        lemma_insert_position_bounds(s.drop_last(), x, descending);
    }
}

/// In a sorted sequence, the insertion position splits the items into those
/// that `x` does not go before and those it goes before.
proof fn lemma_insert_position_split<T>(s: Seq<(i64, T)>, x: (i64, T), descending: bool)
    requires
        is_sorted_by_key(s, descending),
    ensures
        forall|i: int| 0 <= i < insert_position(s, x, descending) ==> !goes_before(descending, x.0, #[trigger] s[i].0),
        forall|i: int| insert_position(s, x, descending) <= i < s.len() ==> goes_before(descending, x.0, #[trigger] s[i].0),
    decreases s.len(),
{
    lemma_insert_position_bounds(s, x, descending);
    if s.len() > 0 {
        let p = insert_position(s, x, descending);
        if goes_before(descending, x.0, s.last().0) {
            let t = s.drop_last();
            assert(is_sorted_by_key(t, descending)) by {
                assert forall|i: int, j: int| 0 <= i < j < t.len() implies !goes_before(descending, #[trigger] t[j].0, #[trigger] t[i].0) by {
                    assert(t[i] == s[i] && t[j] == s[j]);
                }
            }
            lemma_insert_position_split(t, x, descending);
            assert forall|i: int| p <= i < s.len() implies goes_before(descending, x.0, #[trigger] s[i].0) by {
                if i < s.len() - 1 {
                    assert(s[i] == t[i]);
                }
            }
            assert forall|i: int| 0 <= i < p implies !goes_before(descending, x.0, #[trigger] s[i].0) by {
                assert(s[i] == t[i]);
            }
        } else {
            assert forall|i: int| 0 <= i < p implies !goes_before(descending, x.0, #[trigger] s[i].0) by {
                if i < s.len() - 1 {
                    assert(!goes_before(descending, s.last().0, s[i].0));
                }
            }
        }
    }
}

/// The stable sort is sorted and holds the same items.
pub proof fn lemma_stable_sorted_properties<T>(s: Seq<(i64, T)>, descending: bool)
    ensures
        is_sorted_by_key(stable_sorted(s, descending), descending),
        stable_sorted(s, descending).to_multiset() == s.to_multiset(),
        stable_sorted(s, descending).len() == s.len(),
    decreases s.len(),
{
    if s.len() > 0 {
        let t = s.drop_last();
        let x = s.last();
        let rest = stable_sorted(t, descending);
        lemma_stable_sorted_properties(t, descending);
        lemma_insert_position_bounds(rest, x, descending);
        lemma_insert_position_split(rest, x, descending);
        let p = insert_position(rest, x, descending);
        let r = rest.insert(p, x);
        assert forall|i: int, j: int| 0 <= i < j < r.len() implies !goes_before(descending, #[trigger] r[j].0, #[trigger] r[i].0) by {
            if j < p {
                assert(r[i] == rest[i] && r[j] == rest[j]);
            } else if j == p {
                assert(r[i] == rest[i]);
            } else if i < p {
                assert(r[i] == rest[i] && r[j] == rest[j - 1]);
            } else if i == p {
                assert(r[j] == rest[j - 1]);
            } else {
                assert(r[i] == rest[i - 1] && r[j] == rest[j - 1]);
            }
        }
        vstd::seq_lib::to_multiset_insert(rest, p, x);
        assert(s == t.push(x));
        vstd::seq_lib::to_multiset_build(t, x);
    }
}

/// Sort `v` by key, stably: ascending keys, or descending ones if `descending`.
pub fn stable_sort_by_key<T>(v: Vec<(i64, T)>, descending: bool) -> (sorted: Vec<(i64, T)>)
    ensures
        sorted@ == stable_sorted(v@, descending),
{
    let mut sorted: Vec<(i64, T)> = Vec::new();
    let ghost input = v@;
    let mut rest = v;
    let mut taken: Vec<(i64, T)> = Vec::new();
    // Move the items out in reverse order so that they can be taken from the front.
    while rest.len() > 0
        invariant
            input == rest@ + taken@.reverse(),
        decreases rest.len(),
    {
        let x = rest.pop().unwrap();
        proof {
            assert(taken@.push(x).reverse() =~= seq![x] + taken@.reverse());
        }
        taken.push(x);
    }
    assert(input =~= taken@.reverse());
    let n = taken.len();
    let mut k: usize = 0;
    while k < n
        invariant
            n == input.len(),
            k <= n,
            taken@.len() == n - k,
            input == input.subrange(0, k as int) + taken@.reverse(),
            sorted@ == stable_sorted(input.subrange(0, k as int), descending),
        decreases n - k,
    {
        let ghost tk = taken@;
        let x = taken.pop().unwrap();
        let ghost before = sorted@;
        proof {
            assert(tk.reverse()[0] == x);
            assert(tk.reverse() =~= seq![x] + taken@.reverse());
            assert(input[k as int] == x) by {
                assert(input[k as int] == (input.subrange(0, k as int) + tk.reverse())[k as int]);
            }
            assert(before.subrange(0, before.len() as int) =~= before);
        }
        proof {
            lemma_insert_position_bounds(before, x, descending);
        }
        let mut p: usize = sorted.len();
        while p > 0 && goes_before_exec(descending, x.0, sorted[p - 1].0)
            invariant
                sorted@ == before,
                p <= sorted.len(),
                insert_position(before, x, descending) == insert_position(before.subrange(0, p as int), x, descending),
            decreases p,
        {
            proof {
                let pre = before.subrange(0, p as int);
                assert(pre.drop_last() =~= before.subrange(0, p - 1));
            }
            p = p - 1;
        }
        proof {
            let pre = before.subrange(0, p as int);
            if p > 0 {
                assert(!goes_before(descending, x.0, pre.last().0));
            }
            assert(insert_position(pre, x, descending) == p);
            let prefix = input.subrange(0, k + 1);
            assert(prefix.drop_last() =~= input.subrange(0, k as int));
        }
        sorted.insert(p, x);
        k = k + 1;
        proof {
            assert(input.subrange(0, k as int) =~= input.subrange(0, k - 1) + seq![x]);
            assert(input =~= input.subrange(0, k as int) + taken@.reverse());
        }
    }
    assert(input.subrange(0, n as int) =~= input);
    sorted
}

/// Executable form of `goes_before`.
fn goes_before_exec(descending: bool, a: i64, b: i64) -> (r: bool)
    ensures
        r == goes_before(descending, a, b),
{
    if descending {
        a > b
    } else {
        a < b
    }
}

} // verus!
