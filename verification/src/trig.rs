//! Fixed-point trigonometry on milliradian angles.
//!
//! A full turn is `TWO_PI_MILLI` milliradians.  The sine of an angle is
//! approximated by Bhaskara's rational formula, scaled so that a unit
//! vector has length `crate::SCALE`.  The approximation is exact at the
//! axes: 0, a quarter, a half and three quarters of a turn map to 0,
//! 1000, 0 and -1000.

use crate::math::{abs_val, lemma_div_trunc_bound};
use crate::vec2::norm_sq;
use vstd::prelude::*;

verus! {

/// Half a turn, in milliradians.
pub const PI_MILLI: i64 = 3142;

/// A quarter turn, in milliradians.
pub const HALF_PI_MILLI: i64 = 1571;

/// A full turn, in milliradians.
pub const TWO_PI_MILLI: i64 = 6284;

/// Bhaskara's sine approximation on a half turn, scaled by 1000:
/// for `x` in `[0, PI_MILLI]` this approximates `1000 * sin(x / 1000)`.
pub open spec fn sine_poly(x: int) -> int {
    let t = x * (3142 - x);
    16000 * t / (49360820 - 4 * t)
}

/// Scaled sine of an angle already reduced to `[0, TWO_PI_MILLI)`.
pub open spec fn sin_reduced(x: int) -> int {
    if x < 3142 {
        sine_poly(x)
    } else {
        -sine_poly(x - 3142)
    }
}

/// Scaled sine of an arbitrary milliradian angle.
pub open spec fn sin_of(a: int) -> int {
    sin_reduced(a % 6284)
}

/// Scaled cosine of an arbitrary milliradian angle.
pub open spec fn cos_of(a: int) -> int {
    sin_of(a + 1571)
}

proof fn lemma_poly_product_range(x: int)
    requires
        0 <= x <= 3142,
    ensures
        0 <= x * (3142 - x) <= 2468041,
{
    assert(0 <= x * (3142 - x) <= 2468041) by (nonlinear_arith)
        requires
            0 <= x <= 3142,
    ;
}

fn sine_poly_exec(x: i64) -> (r: i64)
    requires
        0 <= x <= 3142,
    ensures
        r == sine_poly(x as int),
        0 <= r <= 1000,
{
    proof {
        lemma_poly_product_range(x as int);
    }
    let t: i64 = x * (3142 - x);
    let num: i64 = 16000 * t;
    let den: i64 = 49360820 - 4 * t;
    proof {
        assert(num <= 1000 * den);
        lemma_div_trunc_bound(num as int, den as int, 1000);
    }
    num / den
}

/// Scaled sine, exact with respect to `sin_of`.
pub fn sin_milli(a: i64) -> (r: i64)
    requires
        -2_000_000_000_000_000 <= a <= 2_000_000_000_000_000,
    ensures
        r == sin_of(a as int),
        -1000 <= r <= 1000,
{
    let m0: i64 = a % 6284;
    let m: i64 = if m0 < 0 {
        m0 + 6284
    } else {
        m0
    };
    assert(m == (a as int) % 6284);
    if m < 3142 {
        sine_poly_exec(m)
    } else {
        let p = sine_poly_exec(m - 3142);
        -p
    }
}

/// Scaled cosine, exact with respect to `cos_of`.
pub fn cos_milli(a: i64) -> (r: i64)
    requires
        -1_000_000_000_000_000 <= a <= 1_000_000_000_000_000,
    ensures
        r == cos_of(a as int),
        -1000 <= r <= 1000,
{
    sin_milli(a + 1571)
}

proof fn lemma_sine_poly_at_least_half(x: int)
    requires
        785 <= x <= 2357,
    ensures
        sine_poly(x) >= 500,
{
    assert(x * (3142 - x) >= 1850245) by (nonlinear_arith)
        requires
            785 <= x <= 2357,
    ;
    lemma_poly_product_range(x);
    let t = x * (3142 - x);
    let num = 16000 * t;
    let den = 49360820 - 4 * t;
    assert(num >= 500 * den);
    assert(num / den >= 500) by (nonlinear_arith)
        requires
            den > 0,
            num >= 500 * den,
    ;
}

/// No milliradian angle maps to a degenerate heading: the scaled
/// cosine/sine pair always has squared length at least a quarter of a
/// unit, because at least one of the two is at least an eighth of a turn
/// away from its zero.
pub proof fn lemma_heading_norm_lower(a: int)
    ensures
        norm_sq((cos_of(a), sin_of(a))) >= 250000,
{
    let x = a % 6284;
    assert(0 <= x < 6284);
    let c = cos_of(a);
    let s = sin_of(a);
    if 785 <= x <= 2357 {
        lemma_sine_poly_at_least_half(x);
        assert(s >= 500);
    } else if 3927 <= x <= 5499 {
        lemma_sine_poly_at_least_half(x - 3142);
        assert(s <= -500);
    } else {
        // x is near the horizontal axis, so the cosine is at least half
        // a unit in magnitude.
        let y = (a + 1571) % 6284;
        assert(y == (x + 1571) % 6284);
        if x < 785 {
            assert(y == x + 1571);
            lemma_sine_poly_at_least_half(y);
            assert(c >= 500);
        } else if x < 3927 {
            assert(y == x + 1571);
            lemma_sine_poly_at_least_half(y - 3142);
            assert(c <= -500);
        } else {
            assert(y == x - 4713);
            lemma_sine_poly_at_least_half(y);
            assert(c >= 500);
        }
    }
    assert(c * c + s * s >= 250000) by (nonlinear_arith)
        requires
            abs_val(c) >= 500 || abs_val(s) >= 500,
    ;
}

} // verus!
