//! Fixed-point scalar arithmetic.
//!
//! Every coordinate and length in this crate is an `i64` counting units of
//! 10^-6 mm; `FIX_ONE` is one millimetre. Dimensionless factors (scales,
//! expression values) use the same representation, so multiplying two values
//! divides the wide product by `FIX_ONE`, truncating toward zero as the
//! hardware division would. Operations that could leave the `i64` range
//! saturate instead of wrapping.

use vstd::prelude::*;

verus! {

/// One millimetre (or the factor 1.0) in fixed-point units.
pub const FIX_ONE: i64 = 1_000_000;

/// Truncating (round toward zero) division on mathematical integers, `d > 0`.
pub open spec fn div_trunc(n: int, d: int) -> int {
    if n >= 0 {
        n / d
    } else {
        -((-n) / d)
    }
}

/// Clamp a mathematical integer into the `i64` range.
pub open spec fn sat_i64(n: int) -> int {
    if n > i64::MAX as int {
        i64::MAX as int
    } else if n < i64::MIN as int {
        i64::MIN as int
    } else {
        n
    }
}

/// The product of two fixed-point factors: `a * b / FIX_ONE`, truncated,
/// clamped into the `i64` range.
pub open spec fn spec_fix_mul(a: int, b: int) -> int {
    sat_i64(div_trunc(a * b, FIX_ONE as int))
}

/// `a * b / d` truncated toward zero and clamped into the `i64` range.
pub open spec fn spec_mul_div(a: int, b: int, d: int) -> int {
    sat_i64(div_trunc(a * b, d))
}

/// Saturating addition.
pub open spec fn spec_sat_add(a: int, b: int) -> int {
    sat_i64(a + b)
}

/// Saturating subtraction.
pub open spec fn spec_sat_sub(a: int, b: int) -> int {
    sat_i64(a - b)
}

proof fn lemma_div_trunc_bound(n: int, d: int)
    requires
        d > 0,
    ensures
        n >= 0 ==> 0 <= div_trunc(n, d) <= n,
        n < 0 ==> n <= div_trunc(n, d) <= 0,
{
    if n >= 0 {
        assert(n / d <= n) by (nonlinear_arith)
            requires n >= 0 && d > 0;
        assert(n / d >= 0) by (nonlinear_arith)
            requires n >= 0 && d > 0;
    } else {
        assert((-n) / d <= -n) by (nonlinear_arith)
            requires -n >= 0 && d > 0;
        assert((-n) / d >= 0) by (nonlinear_arith)
            requires -n >= 0 && d > 0;
    }
}

/// Truncating division of a wide intermediate by a positive divisor.
pub fn div_trunc_wide(n: i128, d: i128) -> (r: i128)
    requires
        d > 0,
        n > i128::MIN,
    ensures
        r as int == div_trunc(n as int, d as int),
        n >= 0 ==> 0 <= r <= n,
        n < 0 ==> n <= r <= 0,
{
    proof {
        lemma_div_trunc_bound(n as int, d as int);
    }
    if n >= 0 {
        n / d
    } else {
        -((-n) / d)
    }
}

/// Clamp a wide value into the `i64` range.
pub fn sat_i64_exec(n: i128) -> (r: i64)
    ensures
        r as int == sat_i64(n as int),
{
    if n > i64::MAX as i128 {
        i64::MAX
    } else if n < i64::MIN as i128 {
        i64::MIN
    } else {
        n as i64
    }
}

/// Fixed-point product `a * b / FIX_ONE`, truncated and saturated.
pub fn fix_mul(a: i64, b: i64) -> (r: i64)
    ensures
        r as int == spec_fix_mul(a as int, b as int),
{
    mul_div(a, b, FIX_ONE)
}

/// `a * b / d`, truncated toward zero and saturated; `d > 0`.
pub fn mul_div(a: i64, b: i64, d: i64) -> (r: i64)
    requires
        d > 0,
    ensures
        r as int == spec_mul_div(a as int, b as int, d as int),
{
    proof {
        assert((i128::MIN as int) < (a as int) * (b as int)
            && (a as int) * (b as int) < (i128::MAX as int))
            by (nonlinear_arith)
            requires
                i64::MIN as int <= a as int <= i64::MAX as int,
                i64::MIN as int <= b as int <= i64::MAX as int;
    }
    let wide: i128 = (a as i128) * (b as i128);
    let q: i128 = div_trunc_wide(wide, d as i128);
    sat_i64_exec(q)
}

/// Fixed-point division `a * FIX_ONE / b`, truncated toward zero and
/// saturated; `b` must be non-zero.
pub open spec fn spec_fix_div(a: int, b: int) -> int {
    if b > 0 {
        sat_i64(div_trunc(a * (FIX_ONE as int), b))
    } else {
        sat_i64(-div_trunc(a * (FIX_ONE as int), -b))
    }
}

/// Fixed-point quotient of two factors.
pub fn fix_div(a: i64, b: i64) -> (r: i64)
    requires
        b != 0,
    ensures
        r as int == spec_fix_div(a as int, b as int),
{
    proof {
        assert((i128::MIN as int) < (a as int) * (FIX_ONE as int)
            && (a as int) * (FIX_ONE as int) < (i128::MAX as int))
            by (nonlinear_arith)
            requires
                i64::MIN as int <= a as int <= i64::MAX as int;
    }
    let wide: i128 = (a as i128) * (FIX_ONE as i128);
    if b > 0 {
        sat_i64_exec(div_trunc_wide(wide, b as i128))
    } else {
        sat_i64_exec(-div_trunc_wide(wide, -(b as i128)))
    }
}

/// Saturating addition on coordinates.
pub fn sat_add(a: i64, b: i64) -> (r: i64)
    ensures
        r as int == spec_sat_add(a as int, b as int),
{
    sat_i64_exec(a as i128 + b as i128)
}

/// Saturating subtraction on coordinates.
pub fn sat_sub(a: i64, b: i64) -> (r: i64)
    ensures
        r as int == spec_sat_sub(a as int, b as int),
{
    sat_i64_exec(a as i128 - b as i128)
}

/// Saturating negation (only `i64::MIN` is clamped).
pub fn sat_neg(a: i64) -> (r: i64)
    ensures
        r as int == sat_i64(-(a as int)),
{
    sat_i64_exec(-(a as i128))
}

/// `2^63`, the starting upper bound of the square-root search.
pub const SQRT_HI: u128 = 0x8000_0000_0000_0000;

/// `2^126`, the square of `SQRT_HI / ... `: the largest radicand accepted.
pub const SQRT_CAP: u128 = 0x4000_0000_0000_0000_0000_0000_0000_0000;

/// Integer square root: the greatest `r` with `r * r <= n`.
pub fn isqrt(n: u128) -> (r: u64)
    requires
        n < SQRT_CAP,
    ensures
        (r as int) * (r as int) <= n as int,
        (n as int) < ((r as int) + 1) * ((r as int) + 1),
{
    let mut lo: u128 = 0;
    let mut hi: u128 = SQRT_HI;
    proof {
        assert((SQRT_HI as int) * (SQRT_HI as int) == SQRT_CAP as int) by (nonlinear_arith);
    }
    // Invariant: lo * lo <= n < hi * hi.
    while lo + 1 < hi
        invariant
            lo < hi,
            hi <= SQRT_HI,
            (lo as int) * (lo as int) <= n as int,
            (n as int) < (hi as int) * (hi as int),
        decreases hi - lo,
    {
        let mid: u128 = lo + (hi - lo) / 2;
        proof {
            assert((mid as int) * (mid as int) <= (SQRT_HI as int) * (SQRT_HI as int))
                by (nonlinear_arith)
                requires 0 <= mid as int && mid as int <= SQRT_HI as int;
            assert((SQRT_HI as int) * (SQRT_HI as int) < u128::MAX as int) by (nonlinear_arith);
        }
        if mid * mid <= n {
            lo = mid;
        } else {
            hi = mid;
        }
    }
    lo as u64
}

} // verus!
