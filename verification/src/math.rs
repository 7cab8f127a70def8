//! Small integer helpers: truncating division and remainder as Rust's
//! signed `/` and `%` compute them, absolute value, and the integer square
//! root used to measure heading magnitudes.

use vstd::prelude::*;

verus! {

/// Quotient of `a` by `b`, rounded toward zero: the value Rust's `/`
/// produces on signed integers.
pub open spec fn div_trunc(a: int, b: int) -> int {
    if a >= 0 {
        a / b
    } else {
        -((-a) / b)
    }
}

/// Remainder of `a` by `b` with the sign of `a`: the value Rust's `%`
/// produces on signed integers.
pub open spec fn rem_trunc(a: int, b: int) -> int {
    if a >= 0 {
        a % b
    } else {
        -((-a) % b)
    }
}

/// Absolute value.
pub open spec fn abs_val(a: int) -> int {
    if a >= 0 {
        a
    } else {
        -a
    }
}

/// The floor of the real square root of `n`.
pub closed spec fn sqrt_floor(n: int) -> int {
    choose|r: int| 0 <= r && #[trigger] (r * r) <= n && n < (r + 1) * (r + 1)
}

proof fn lemma_sqrt_exists(n: int) -> (r: int)
    requires
        n >= 0,
    ensures
        0 <= r,
        r * r <= n,
        n < (r + 1) * (r + 1),
    decreases n,
{
    if n == 0 {
        0
    } else {
        let p = lemma_sqrt_exists(n - 1);
        if (p + 1) * (p + 1) <= n {
            assert(n < (p + 2) * (p + 2)) by (nonlinear_arith)
                requires
                    p >= 0,
                    n - 1 < (p + 1) * (p + 1),
                    (p + 1) * (p + 1) <= n,
            ;
            p + 1
        } else {
            p
        }
    }
}

proof fn lemma_sqrt_unique(n: int, r1: int, r2: int)
    requires
        0 <= r1,
        r1 * r1 <= n,
        n < (r1 + 1) * (r1 + 1),
        0 <= r2,
        r2 * r2 <= n,
        n < (r2 + 1) * (r2 + 1),
    ensures
        r1 == r2,
{
    assert(r1 == r2) by (nonlinear_arith)
        requires
            0 <= r1,
            r1 * r1 <= n,
            n < (r1 + 1) * (r1 + 1),
            0 <= r2,
            r2 * r2 <= n,
            n < (r2 + 1) * (r2 + 1),
    ;
}

/// The defining properties of `sqrt_floor` on non-negative arguments.
pub broadcast proof fn lemma_sqrt_floor(n: int)
    requires
        n >= 0,
    ensures
        0 <= #[trigger] sqrt_floor(n),
        sqrt_floor(n) * sqrt_floor(n) <= n,
        n < (sqrt_floor(n) + 1) * (sqrt_floor(n) + 1),
{
    let w = lemma_sqrt_exists(n);
    assert(0 <= w && w * w <= n && n < (w + 1) * (w + 1));
    let r = choose|r: int| 0 <= r && #[trigger] (r * r) <= n && n < (r + 1) * (r + 1);
    assert(0 <= r && r * r <= n && n < (r + 1) * (r + 1));
}

/// `sqrt_floor` never exceeds a bound whose square covers `n`.
pub proof fn lemma_sqrt_floor_le(n: int, b: int)
    requires
        0 <= n,
        0 <= b,
        n < (b + 1) * (b + 1),
    ensures
        sqrt_floor(n) <= b,
{
    broadcast use lemma_sqrt_floor;

    let r = sqrt_floor(n);
    assert(r <= b) by (nonlinear_arith)
        requires
            0 <= r,
            r * r <= n,
            0 <= b,
            n < (b + 1) * (b + 1),
    ;
}

/// `sqrt_floor` is at least any value whose square is covered by `n`.
pub proof fn lemma_sqrt_floor_ge(n: int, b: int)
    requires
        0 <= b,
        b * b <= n,
    ensures
        sqrt_floor(n) >= b,
{
    broadcast use lemma_sqrt_floor;

    let r = sqrt_floor(n);
    assert(r >= b) by (nonlinear_arith)
        requires
            0 <= r,
            n < (r + 1) * (r + 1),
            0 <= b,
            b * b <= n,
    ;
}

/// Integer square root: the floor of the square root of `n`.
pub fn isqrt(n: i64) -> (r: i64)
    requires
        n >= 0,
    ensures
        r == sqrt_floor(n as int),
        0 <= r <= 3_037_000_499,
{
    proof {
        broadcast use lemma_sqrt_floor;

    }
    let mut lo: i64 = 0;
    let mut hi: i64 = 3_037_000_500;
    assert((n as int) < (hi as int) * (hi as int)) by (nonlinear_arith)
        requires
            n <= 0x7fff_ffff_ffff_ffff,
            hi == 3_037_000_500int,
    ;
    while hi - lo > 1
        invariant
            0 <= lo < hi <= 3_037_000_500,
            lo * lo <= n,
            (n as int) < (hi as int) * (hi as int),
        decreases hi - lo,
    {
        let mid: i64 = lo + (hi - lo) / 2;
        assert(lo < mid < hi);
        assert(mid * mid <= 0x7fff_ffff_ffff_ffff) by (nonlinear_arith)
            requires
                0 <= mid < 3_037_000_500int,
        ;
        if mid * mid <= n {
            lo = mid;
        } else {
            hi = mid;
        }
    }
    proof {
        lemma_sqrt_unique(n as int, lo as int, sqrt_floor(n as int));
    }
    lo
}

/// A truncating quotient is no larger in magnitude than any `c` with
/// `|a| <= b * c`.
pub proof fn lemma_div_trunc_bound(a: int, b: int, c: int)
    requires
        b > 0,
        c >= 0,
        abs_val(a) <= b * c,
    ensures
        abs_val(div_trunc(a, b)) <= c,
{
    if a >= 0 {
        assert(a / b <= c) by (nonlinear_arith)
            requires
                b > 0,
                c >= 0,
                0 <= a <= b * c,
        ;
        assert(a / b >= 0) by (nonlinear_arith)
            requires
                b > 0,
                a >= 0,
        ;
    } else {
        assert((-a) / b <= c) by (nonlinear_arith)
            requires
                b > 0,
                c >= 0,
                0 <= -a <= b * c,
        ;
        assert((-a) / b >= 0) by (nonlinear_arith)
            requires
                b > 0,
                -a >= 0,
        ;
    }
}

/// Magnitudes distribute over products with a non-negative factor.
pub proof fn lemma_abs_mul(x: int, y: int)
    requires
        y >= 0,
    ensures
        abs_val(x * y) == abs_val(x) * y,
{
    assert(abs_val(x * y) == abs_val(x) * y) by (nonlinear_arith)
        requires
            y >= 0,
    ;
}

/// A truncating quotient has the magnitude of the quotient of the
/// magnitude.
pub proof fn lemma_div_trunc_abs(a: int, b: int)
    requires
        b > 0,
    ensures
        abs_val(div_trunc(a, b)) == div_trunc(abs_val(a), b),
{
    if a >= 0 {
        assert(a / b >= 0) by (nonlinear_arith)
            requires
                b > 0,
                a >= 0,
        ;
    } else {
        assert((-a) / b >= 0) by (nonlinear_arith)
            requires
                b > 0,
                -a >= 0,
        ;
    }
}

/// A component's squared magnitude is covered by the squared norm it
/// contributes to.
pub proof fn lemma_comp_sq_le_norm(x: int, y: int)
    ensures
        abs_val(x) * abs_val(x) <= x * x + y * y,
{
    assert(abs_val(x) * abs_val(x) <= x * x + y * y) by (nonlinear_arith);
}

/// A truncating quotient of a value at least `b` is at least one.
pub proof fn lemma_div_trunc_ge_one(a: int, b: int)
    requires
        b > 0,
        a >= b,
    ensures
        div_trunc(a, b) >= 1,
{
    assert(a / b >= 1) by (nonlinear_arith)
        requires
            b > 0,
            a >= b,
    ;
}

} // verus!
