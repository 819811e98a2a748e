//! Fixed-point arithmetic: every real quantity of the engine is an integer
//! count of thousandths (`1.0` is written `SCALE`).
use vstd::arithmetic::div_mod::{
    lemma_div_is_ordered, lemma_div_pos_is_pos, lemma_fundamental_div_mod, lemma_mod_pos_bound,
};
use vstd::prelude::*;

verus! {

/// One unit in fixed-point representation.
pub const SCALE: i64 = 1000;

/// Division by a positive divisor that rounds toward zero, so that
/// `quot_trunc(-a, b) == -quot_trunc(a, b)`.
pub open spec fn quot_trunc(a: int, b: int) -> int {
    if a >= 0 {
        a / b
    } else {
        -((-a) / b)
    }
}

/// `r` is the integer square root of `n`, rounded down.
pub open spec fn is_floor_sqrt(r: int, n: int) -> bool {
    0 <= r && r * r <= n < (r + 1) * (r + 1)
}

/// The integer square root of `n`, rounded down.
pub open spec fn floor_sqrt(n: int) -> int {
    choose|r: int| is_floor_sqrt(r, n)
}

/// The integer square root of `n`, rounded up.
pub open spec fn ceil_root(n: int) -> int {
    let d = floor_sqrt(n);
    if d * d == n {
        d
    } else {
        d + 1
    }
}

pub proof fn lemma_quot_trunc_neg(a: int, b: int)
    requires
        b > 0,
    ensures
        quot_trunc(-a, b) == -quot_trunc(a, b),
{
    if a == 0 {
        assert(0int / b == 0) by (nonlinear_arith)
            requires
                b > 0,
        ;
    }
}

/// `|quot_trunc(a, b)| <= bound / b` whenever `|a| <= bound`.
pub proof fn lemma_quot_trunc_bound(a: int, b: int, bound: int)
    requires
        b > 0,
        -bound <= a <= bound,
    ensures
        -(bound / b) <= quot_trunc(a, b) <= bound / b,
{
    if a >= 0 {
        lemma_div_is_ordered(a, bound, b);
        lemma_div_pos_is_pos(a, b);
    } else {
        lemma_div_is_ordered(-a, bound, b);
        lemma_div_pos_is_pos(-a, b);
    }
}

pub proof fn lemma_square_monotonic(a: int, b: int)
    requires
        0 <= a <= b,
    ensures
        a * a <= b * b,
{
    assert(a * a <= b * b) by (nonlinear_arith)
        requires
            0 <= a <= b,
    ;
}

/// There is exactly one floor square root of a non-negative integer.
pub proof fn lemma_floor_sqrt_unique(r: int, n: int)
    requires
        is_floor_sqrt(r, n),
    ensures
        floor_sqrt(n) == r,
{
    let s = floor_sqrt(n);
    assert(is_floor_sqrt(s, n));
    if s < r {
        lemma_square_monotonic(s + 1, r);
    } else if r < s {
        lemma_square_monotonic(r + 1, s);
    }
}

/// `|quot_trunc(a, b)| * b <= |a|`: truncation never rounds away from zero.
pub proof fn lemma_quot_trunc_mul_le(a: int, b: int)
    requires
        b > 0,
    ensures
        0 <= (if quot_trunc(a, b) < 0 { -quot_trunc(a, b) } else { quot_trunc(a, b) }) * b <= (
        if a < 0 {
            -a
        } else {
            a
        }),
{
    let m = if a < 0 {
        -a
    } else {
        a
    };
    lemma_fundamental_div_mod(m, b);
    lemma_mod_pos_bound(m, b);
    lemma_div_pos_is_pos(m, b);
    assert((m / b) * b <= m) by (nonlinear_arith)
        requires
            m == b * (m / b) + m % b,
            0 <= m % b,
    ;
    assert(0 <= (m / b) * b) by (nonlinear_arith)
        requires
            0 <= m / b,
            b > 0,
    ;
}

/// Integer square root of `n`, rounded down (binary search).
pub fn isqrt(n: u128) -> (r: u64)
    requires
        n < 0x1_0000_0000_0000_0000_0000_0000,
    ensures
        is_floor_sqrt(r as int, n as int),
        r == floor_sqrt(n as int),
{
    let mut lo: u128 = 0;
    let mut hi: u128 = 0x1_0000_0000_0000;
    assert(hi * hi == 0x1_0000_0000_0000_0000_0000_0000) by (nonlinear_arith)
        requires
            hi == 0x1_0000_0000_0000,
    ;
    while hi - lo > 1
        invariant
            lo < hi <= 0x1_0000_0000_0000,
            lo * lo <= n,
            n < hi * hi,
        decreases hi - lo,
    {
        let mid: u128 = lo + (hi - lo) / 2;
        assert(mid * mid <= 0x1_0000_0000_0000 * 0x1_0000_0000_0000) by (nonlinear_arith)
            requires
                mid < 0x1_0000_0000_0000,
        ;
        if mid * mid <= n {
            lo = mid;
        } else {
            hi = mid;
        }
    }
    assert(hi == lo + 1);
    proof {
        lemma_floor_sqrt_unique(lo as int, n as int);
    }
    lo as u64
}

/// Quotient of `a` by a positive `b`, rounded toward zero.
pub fn div_trunc(a: i128, b: i128) -> (r: i128)
    requires
        b > 0,
        a > i128::MIN,
    ensures
        r == quot_trunc(a as int, b as int),
{
    if a >= 0 {
        a / b
    } else {
        proof {
            lemma_div_is_ordered(-a as int, i128::MAX as int, b as int);
            lemma_div_pos_is_pos(-a as int, b as int);
        }
        -((-a) / b)
    }
}

} // verus!
