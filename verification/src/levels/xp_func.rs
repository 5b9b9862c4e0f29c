//! The xp curve: how much xp each level costs, and which level an amount of xp reaches.

use vstd::prelude::*;

verus! {

/// The amount of xp needed from level `level` to level `level + 1`
/// (the curve used by Mee6).
pub open spec fn spec_xp_needed(level: int) -> int {
    5 * (level * level) + 50 * level + 100
}

/// `xp_needed_to_level_up(level)` can be computed in 64-bit arithmetic.
pub open spec fn xp_needed_fits(level: int) -> bool {
    &&& 5 * (level * level) <= i64::MAX
    &&& spec_xp_needed(level) <= i64::MAX
}

/// The total xp needed to go from level 0 to level `level`.
pub open spec fn spec_total_xp(level: int) -> int
    decreases level,
{
    if level <= 0 {
        0
    } else {
        spec_total_xp(level - 1) + spec_xp_needed(level - 1)
    }
}

/// The level reached with `xp` points: the smallest level whose next
/// threshold is not below `xp`.
pub open spec fn is_level_of_xp(xp: int, level: int) -> bool {
    &&& 0 <= level
    &&& xp <= spec_total_xp(level + 1)
    &&& (level == 0 || spec_total_xp(level) < xp)
}

/// Xp needed for one level is at least 100 from level 0 on.
pub proof fn lemma_xp_needed_positive(level: int)
    requires
        0 <= level,
    ensures
        spec_xp_needed(level) >= 100,
        spec_xp_needed(level) >= 5 * (level * level),
{
    assert(level * level >= 0) by (nonlinear_arith)
        requires
            0 <= level,
    ;
}

/// The cumulative curve is non-decreasing.
pub proof fn lemma_total_xp_monotonic(a: int, b: int)
    requires
        a <= b,
    ensures
        spec_total_xp(a) <= spec_total_xp(b),
    decreases b - a,
{
    if a < b {
        lemma_total_xp_monotonic(a, b - 1);
        if b - 1 >= 0 {
            lemma_xp_needed_positive(b - 1);
        } else {
            assert(spec_total_xp(b) == 0);
            assert(spec_total_xp(b - 1) == 0);
        }
    }
}

/// The cumulative curve strictly increases from level 0 on.
pub proof fn lemma_total_xp_strictly_increasing(a: int, b: int)
    requires
        0 <= a < b,
    ensures
        spec_total_xp(a) < spec_total_xp(b),
{
    lemma_total_xp_monotonic(a, b - 1);
    lemma_xp_needed_positive(b - 1);
}

/// The cumulative curve grows at least as fast as the cube of the level.
pub proof fn lemma_total_xp_cubic(level: int)
    requires
        0 <= level,
    ensures
        level * level * level <= spec_total_xp(level),
    decreases level,
{
    if level > 0 {
        let l = level - 1;
        lemma_total_xp_cubic(l);
        let t = spec_total_xp(l);
        assert(spec_total_xp(level) == t + spec_xp_needed(l));
        assert(level * level * level <= t + spec_xp_needed(l)) by (nonlinear_arith)
            requires
                l == level - 1,
                0 <= l,
                l * l * l <= t,
                spec_xp_needed(l) == 5 * (l * l) + 50 * l + 100,
        ;
    } else {
        assert(level * level * level == 0) by (nonlinear_arith)
            requires
                level == 0,
        ;
    }
}

/// A level whose cumulative xp fits in 64 bits has a one-level cost that fits too.
pub proof fn lemma_small_level_fits(level: int)
    requires
        0 <= level,
        level * level * level <= i64::MAX,
    ensures
        level < 0x20_0000,
        xp_needed_fits(level),
        spec_xp_needed(level) <= 0x2_0000_0000_0000,
{
    if level >= 0x20_0000 {
        assert(level * level * level >= 0x20_0000 * 0x20_0000 * 0x20_0000) by (nonlinear_arith)
            requires
                level >= 0x20_0000,
        ;
    }
    assert(level * level <= 0x20_0000 * 0x20_0000) by (nonlinear_arith)
        requires
            0 <= level < 0x20_0000,
    ;
}

/// The cost of each level below `level` is at most the cumulative cost of `level`.
pub proof fn lemma_step_below_total(k: int, level: int)
    requires
        0 <= k < level,
    ensures
        spec_xp_needed(k) <= spec_total_xp(level),
        spec_total_xp(k + 1) <= spec_total_xp(level),
{
    lemma_total_xp_monotonic(k + 1, level);
    lemma_total_xp_monotonic(0, k);
}

/// A random amount of xp between `min_gain` and `max_gain`, both included.
pub fn rand_xp_points(min_gain: i64, max_gain: i64) -> (points: i64)
    requires
        min_gain <= max_gain,
    ensures
        min_gain <= points <= max_gain,
{
    crate::random::random_inclusive(min_gain, max_gain)
}

/// The amount of xp needed from level `level` to level `level + 1`.
pub fn xp_needed_to_level_up(level: i64) -> (xp: i64)
    requires
        xp_needed_fits(level as int),
    ensures
        xp as int == spec_xp_needed(level as int),
{
    let ghost l: int = level as int;
    assert(-0x8000_0000 <= l <= 0x8000_0000) by (nonlinear_arith)
        requires
            5 * (l * l) <= i64::MAX,
    ;
    assert(5 * (l * l) + 50 * l >= -125) by (nonlinear_arith);
    let square: i64 = level * level;
    5 * square + 50 * level + 100
}

/// The total xp needed to reach `level` from level 0.
pub fn total_xp_required_for_level(level: i64) -> (total: i64)
    requires
        spec_total_xp(level as int) <= i64::MAX,
    ensures
        total as int == spec_total_xp(level as int),
{
    let mut total: i64 = 0;
    let mut k: i64 = 0;
    while k < level
        invariant
            0 <= k,
            k <= level || level <= 0,
            level <= 0 ==> k == 0,
            spec_total_xp(level as int) <= i64::MAX,
            total as int == spec_total_xp(k as int),
        decreases level - k,
    {
        proof {
            lemma_step_below_total(k as int, level as int);
            lemma_total_xp_cubic(level as int);
            assert(k * k * k <= level * level * level) by (nonlinear_arith)
                requires
                    0 <= k < level,
            ;
            lemma_small_level_fits(k as int);
        }
        let step = xp_needed_to_level_up(k);
        total = total + step;
        k = k + 1;
    }
    proof {
        if level <= 0 {
            assert(spec_total_xp(level as int) == 0);
            assert(k == 0);
        }
    }
    total
}

/// Whether the total xp needed to reach `level` fits in an `i64`.
pub fn total_xp_fits(level: i64) -> (fits: bool)
    ensures
        fits == (spec_total_xp(level as int) <= i64::MAX),
{
    if level <= 0 {
        return true;
    }
    let mut total: i64 = 0;
    let mut k: i64 = 0;
    while k < level
        invariant
            0 <= k <= level,
            total as int == spec_total_xp(k as int),
        decreases level - k,
    {
        proof {
            lemma_total_xp_cubic(k as int);
            lemma_small_level_fits(k as int);
        }
        let step = xp_needed_to_level_up(k);
        proof {
            lemma_xp_needed_positive(k as int);
        }
        match total.checked_add(step) {
            Some(t) => {
                total = t;
            },
            None => {
                proof {
                    lemma_total_xp_monotonic(k + 1, level as int);
                }
                return false;
            },
        }
        k = k + 1;
    }
    true
}

/// The level reached with `xp` points.
///
/// With exactly the cumulative xp of a level, the member is still on the
/// level below: `calculate_level_from_xp(1150) == 4` though 1150 xp are
/// needed for level 5.
pub fn calculate_level_from_xp(xp: i64) -> (level: i64)
    requires
        xp >= i64::MIN + 100,
    ensures
        is_level_of_xp(xp as int, level as int),
{
    let mut rest: i64 = xp;
    let mut level: i64 = 0;
    loop
        invariant
            0 <= level,
            xp >= i64::MIN + 100,
            rest as int == xp as int - spec_total_xp(level as int),
            level == 0 || spec_total_xp(level as int) < xp,
        decreases i64::MAX as int - spec_total_xp(level as int),
    {
        proof {
            lemma_total_xp_cubic(level as int);
            lemma_small_level_fits(level as int);
            lemma_xp_needed_positive(level as int);
        }
        let step = xp_needed_to_level_up(level);
        rest = rest - step;
        if rest > 0 {
            level = level + 1;
        } else {
            return level;
        }
    }
}

/// Each amount of xp reaches exactly one level.
pub proof fn lemma_level_of_xp_unique(xp: int, a: int, b: int)
    requires
        is_level_of_xp(xp, a),
        is_level_of_xp(xp, b),
    ensures
        a == b,
{
    if a < b {
        lemma_total_xp_monotonic(a + 1, b);
    } else if b < a {
        lemma_total_xp_monotonic(b + 1, a);
    }
}

/// More xp never means a lower level.
pub proof fn lemma_level_of_xp_monotonic(x: int, y: int, a: int, b: int)
    requires
        x <= y,
        is_level_of_xp(x, a),
        is_level_of_xp(y, b),
    ensures
        a <= b,
{
    if b < a {
        lemma_total_xp_monotonic(b + 1, a);
    }
}

/// One xp point more than the cumulative xp of level `n` reaches level `n`.
pub proof fn lemma_level_just_above_threshold(n: int)
    requires
        0 <= n,
    ensures
        is_level_of_xp(spec_total_xp(n) + 1, n),
{
    lemma_xp_needed_positive(n);
}

/// The cumulative xp of level `n` itself still reaches only the level below.
pub proof fn lemma_level_at_threshold(n: int)
    requires
        1 <= n,
    ensures
        is_level_of_xp(spec_total_xp(n), n - 1),
{
    lemma_total_xp_strictly_increasing(n - 1, n);
}

/// The cumulative xp of a level is the sum of the one-level costs below it.
pub proof fn lemma_total_xp_step(level: int)
    requires
        0 <= level,
    ensures
        spec_total_xp(level + 1) == spec_total_xp(level) + spec_xp_needed(level),
{
}

} // verus!
