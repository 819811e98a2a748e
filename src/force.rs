//! The distance-to-magnitude force law shared by every pairwise interaction.
use crate::fixed::{lemma_quot_trunc_bound, quot_trunc, SCALE};
use vstd::arithmetic::div_mod::{lemma_div_by_multiple, lemma_div_is_ordered, lemma_div_pos_is_pos};
use vstd::prelude::*;

verus! {

/// Largest admissible interaction distance (fixed-point).
pub const MAX_RANGE: i64 = 0x1_0000_0000;

/// Largest admissible distance handed to the force law (fixed-point).
pub const MAX_DISTANCE: i64 = 0x1_0000_0000_0000;

/// Largest admissible magnitude of an interaction coefficient (1000.0).
pub const COEF_LIMIT: i64 = 1_000_000;

pub open spec fn abs(x: int) -> int {
    if x < 0 {
        -x
    } else {
        x
    }
}

/// Force-law parameters that the engine accepts.
pub open spec fn valid_range(min_dist: int, max_dist: int) -> bool {
    0 < min_dist < max_dist <= MAX_RANGE
}

pub open spec fn valid_strength(strength: int) -> bool {
    -COEF_LIMIT <= strength <= COEF_LIMIT
}

/// Short-range repulsion: `d / minDist - 1`, from `-1` at `0` to `0` at `minDist`.
pub open spec fn repulsion_branch(d: int, min_dist: int) -> int {
    (d * SCALE) / min_dist - SCALE
}

/// Mid-range interaction: `strength * (1 - x)` where
/// `x = |2d - maxDist - minDist| / (maxDist - minDist)`.
pub open spec fn interaction_branch(d: int, min_dist: int, max_dist: int, strength: int) -> int {
    let width = max_dist - min_dist;
    quot_trunc(strength * (width - abs(2 * d - max_dist - min_dist)), width)
}

/// The force magnitude at distance `d`: repulsive up to `minDist`, shaped by
/// `strength` up to `maxDist`, and zero beyond.
pub open spec fn force_law(d: int, min_dist: int, max_dist: int, strength: int) -> int {
    if d <= min_dist {
        repulsion_branch(d, min_dist)
    } else if d <= max_dist {
        interaction_branch(d, min_dist, max_dist, strength)
    } else {
        0
    }
}

/// The branches agree where they meet: the law is zero at `minDist` from either
/// side and at `maxDist` from either side, and it peaks at `strength` halfway
/// between the two distances.
pub proof fn lemma_force_law_continuous(min_dist: int, max_dist: int, strength: int)
    requires
        valid_range(min_dist, max_dist),
    ensures
        repulsion_branch(min_dist, min_dist) == 0,
        interaction_branch(min_dist, min_dist, max_dist, strength) == 0,
        force_law(min_dist, min_dist, max_dist, strength) == 0,
        interaction_branch(max_dist, min_dist, max_dist, strength) == 0,
        force_law(max_dist, min_dist, max_dist, strength) == 0,
        force_law(max_dist + 1, min_dist, max_dist, strength) == 0,
        (min_dist + max_dist) % 2 == 0 ==> force_law(
            (min_dist + max_dist) / 2,
            min_dist,
            max_dist,
            strength,
        ) == strength,
{
    let w = max_dist - min_dist;
    lemma_div_by_multiple(SCALE as int, min_dist);
    assert(min_dist * SCALE == SCALE * min_dist) by (nonlinear_arith);
    assert(strength * 0 == 0) by (nonlinear_arith);
    assert(0int / w == 0);
    if (min_dist + max_dist) % 2 == 0 {
        let mid = (min_dist + max_dist) / 2;
        assert(abs(2 * mid - max_dist - min_dist) == 0);
        if strength >= 0 {
            lemma_div_by_multiple(strength, w);
            assert(strength * w == w * strength) by (nonlinear_arith);
        } else {
            lemma_div_by_multiple(-strength, w);
            assert(strength * w == -((-strength) * w)) by (nonlinear_arith);
        }
    }
}

/// At distance zero the law is `-1` whatever the strength, and it vanishes at
/// every distance from `maxDist` on.
pub proof fn lemma_force_law_bounded(min_dist: int, max_dist: int, strength: int)
    requires
        valid_range(min_dist, max_dist),
    ensures
        force_law(0, min_dist, max_dist, strength) == -SCALE,
        forall|d: int| d >= max_dist ==> #[trigger] force_law(d, min_dist, max_dist, strength) == 0,
{
    assert(0int / min_dist == 0);
    assert forall|d: int| d >= max_dist implies #[trigger] force_law(
        d,
        min_dist,
        max_dist,
        strength,
    ) == 0 by {
        lemma_force_law_continuous(min_dist, max_dist, strength);
    }
}

/// Beyond `minDist` the law never exceeds `|strength|` in magnitude, so the
/// value at the midpoint is the peak.
pub proof fn lemma_force_law_peak(d: int, min_dist: int, max_dist: int, strength: int)
    requires
        valid_range(min_dist, max_dist),
        min_dist < d,
    ensures
        abs(force_law(d, min_dist, max_dist, strength)) <= abs(strength),
{
    if d <= max_dist {
        let w = max_dist - min_dist;
        let a = w - abs(2 * d - max_dist - min_dist);
        let s = abs(strength);
        assert(-(s * w) <= strength * a <= s * w) by (nonlinear_arith)
            requires
                0 <= a <= w,
                s == abs(strength),
        ;
        lemma_quot_trunc_bound(strength * a, w, s * w);
        lemma_div_by_multiple(s, w);
    }
}

/// The law stays within `[-max(1, |strength|), max(1, |strength|)]`.
pub proof fn lemma_force_law_magnitude(d: int, min_dist: int, max_dist: int, strength: int)
    requires
        0 <= d,
        valid_range(min_dist, max_dist),
        valid_strength(strength),
    ensures
        -COEF_LIMIT <= force_law(d, min_dist, max_dist, strength) <= COEF_LIMIT,
        d <= min_dist ==> -SCALE <= force_law(d, min_dist, max_dist, strength) <= 0,
        min_dist < d <= max_dist ==> abs(force_law(d, min_dist, max_dist, strength)) <= abs(
            strength,
        ),
{
    if d <= min_dist {
        lemma_div_is_ordered(d * SCALE, SCALE * min_dist, min_dist);
        assert(d * SCALE <= SCALE * min_dist) by (nonlinear_arith)
            requires
                0 <= d <= min_dist,
        ;
        lemma_div_by_multiple(SCALE as int, min_dist);
        assert(SCALE * min_dist == min_dist * SCALE) by (nonlinear_arith);
        lemma_div_pos_is_pos(d * SCALE, min_dist);
    } else if d <= max_dist {
        let w = max_dist - min_dist;
        let a = w - abs(2 * d - max_dist - min_dist);
        assert(0 <= a <= w);
        let s = abs(strength);
        assert(-(s * w) <= strength * a <= s * w) by (nonlinear_arith)
            requires
                0 <= a <= w,
                s == abs(strength),
        ;
        lemma_quot_trunc_bound(strength * a, w, s * w);
        lemma_div_by_multiple(s, w);
    }
}

/// The force magnitude at distance `d` (see `force_law`).
pub fn calculate_force(d: i64, min_dist: i64, max_dist: i64, strength: i64) -> (r: i64)
    requires
        0 <= d <= MAX_DISTANCE,
        valid_range(min_dist as int, max_dist as int),
        valid_strength(strength as int),
    ensures
        r == force_law(d as int, min_dist as int, max_dist as int, strength as int),
        -COEF_LIMIT <= r <= COEF_LIMIT,
{
    proof {
        lemma_force_law_magnitude(d as int, min_dist as int, max_dist as int, strength as int);
    }
    if d <= min_dist {
        (d * SCALE) / min_dist - SCALE
    } else if d <= max_dist {
        let width = max_dist - min_dist;
        let offset = 2 * d - max_dist - min_dist;
        let dev: i64 = if offset < 0 {
            -offset
        } else {
            offset
        };
        let span: i64 = width - dev;
        assert(-(COEF_LIMIT * MAX_RANGE) <= strength * span <= COEF_LIMIT * MAX_RANGE)
            by (nonlinear_arith)
            requires
                -COEF_LIMIT <= strength <= COEF_LIMIT,
                0 <= span <= MAX_RANGE,
        ;
        let product: i128 = strength as i128 * span as i128;
        let q = if product >= 0 {
            product / width as i128
        } else {
            -((-product) / width as i128)
        };
        q as i64
    } else {
        0
    }
}

} // verus!
