//! Sample arithmetic for the fixed-point signal path.
//!
//! Samples are `i64` fixed-point values. Additions saturate at the representable
//! range, and the feedback gain of 13/20 (0.65) is applied with truncation toward
//! zero, so the scaled magnitude never exceeds the input magnitude.

use vstd::prelude::*;
use vstd::arithmetic::div_mod::lemma_div_is_ordered;
use vstd::arithmetic::mul::lemma_mul_inequality;

verus! {

/// Clamp an unbounded integer into the representable sample range.
pub open spec fn clamp64(v: int) -> int {
    if v > i64::MAX as int {
        i64::MAX as int
    } else if v < i64::MIN as int {
        i64::MIN as int
    } else {
        v
    }
}

/// Saturating addition of two samples.
pub open spec fn sat_add_s(a: i64, b: i64) -> i64 {
    clamp64(a + b) as i64
}

/// The feedback gain 13/20 applied to `x`, truncating toward zero.
pub open spec fn gain_s(x: int) -> int {
    if x >= 0 {
        (x * 13) / 20
    } else {
        -(((0 - x) * 13) / 20)
    }
}

/// One feedback mixing term: matrix entry `m` (one of -1, 0, 1) times sample `v`,
/// scaled by the fixed gain.
pub open spec fn gterm_s(m: int, v: i64) -> i64 {
    gain_s(m * v) as i64
}

/// The gain of any value in the doubled sample range stays strictly inside the
/// `i64` range, since 13/20 < 1.
pub proof fn lemma_gain_fits(x: int)
    requires
        i64::MIN <= x <= -(i64::MIN as int),
    ensures
        i64::MIN < gain_s(x) <= i64::MAX,
        x == 0 ==> gain_s(x) == 0,
{
    let bound: int = -(i64::MIN as int);
    if x >= 0 {
        lemma_mul_inequality(x, bound, 13);
        lemma_div_is_ordered(x * 13, bound * 13, 20);
        assert((bound * 13) / 20 <= i64::MAX as int);
        assert(gain_s(x) >= 0) by {
            lemma_div_is_ordered(0, x * 13, 20);
            lemma_mul_inequality(0, x, 13);
        }
    } else {
        let y = 0 - x;
        lemma_mul_inequality(y, bound, 13);
        lemma_div_is_ordered(y * 13, bound * 13, 20);
        assert((bound * 13) / 20 <= i64::MAX as int);
        assert((y * 13) / 20 >= 0) by {
            lemma_div_is_ordered(0, y * 13, 20);
            lemma_mul_inequality(0, y, 13);
        }
    }
}

pub fn sat_add(a: i64, b: i64) -> (r: i64)
    ensures
        r == sat_add_s(a, b),
{
    let s: i128 = a as i128 + b as i128;
    if s > i64::MAX as i128 {
        i64::MAX
    } else if s < i64::MIN as i128 {
        i64::MIN
    } else {
        s as i64
    }
}

/// Compute one feedback mixing term: `(m * v) * 13 / 20`, truncating toward zero.
pub fn apply_gain(m: i64, v: i64) -> (r: i64)
    requires
        -1 <= m <= 1,
    ensures
        r == gterm_s(m as int, v),
{
    let x: i128 = if m == 1 {
        v as i128
    } else if m == -1 {
        -(v as i128)
    } else {
        0
    };
    proof {
        if m == 1 {
            assert((1 as int) * (v as int) == v as int) by (nonlinear_arith);
        } else if m == -1 {
            assert((-1 as int) * (v as int) == -(v as int)) by (nonlinear_arith);
        } else {
            assert((0 as int) * (v as int) == 0) by (nonlinear_arith);
        }
        assert(x as int == (m as int) * (v as int));
        lemma_gain_fits(x as int);
    }
    if x >= 0 {
        let d: u128 = ((x as u128) * 13) / 20;
        d as i64
    } else {
        let mag: u128 = (-x) as u128;
        let d: u128 = (mag * 13) / 20;
        -(d as i64)
    }
}

} // verus!
