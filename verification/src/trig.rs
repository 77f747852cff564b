//! Fixed-point trigonometry.
//!
//! Angles are `i64` milli-degrees (1000 per degree). Sine and cosine are
//! computed from a quarter-wave table at 10-degree steps with linear
//! interpolation between entries, in the fixed-point scale of `fixed`
//! (1_000_000 is 1.0). The result is exact at multiples of 10 degrees and
//! the definition below is the precise contract of the executable code.

use vstd::prelude::*;
use crate::fixed::FIX_ONE;

verus! {

/// Milli-degrees in a full turn.
pub const TURN_MDEG: i64 = 360_000;

/// Milli-degrees in a quarter turn.
pub const QUARTER_MDEG: i64 = 90_000;

/// `sin(10k degrees)` in fixed-point, for `0 <= k <= 9`.
pub open spec fn sin_table(k: int) -> int {
    if k <= 0 {
        0
    } else if k == 1 {
        173_648
    } else if k == 2 {
        342_020
    } else if k == 3 {
        500_000
    } else if k == 4 {
        642_788
    } else if k == 5 {
        766_044
    } else if k == 6 {
        866_025
    } else if k == 7 {
        939_693
    } else if k == 8 {
        984_808
    } else {
        1_000_000
    }
}

/// Linear interpolation of the quarter-wave table at `x` milli-degrees,
/// `0 <= x <= 90_000`.
pub open spec fn interp_quarter(x: int) -> int {
    let t = x / 10_000;
    let r = x % 10_000;
    if t >= 9 {
        1_000_000
    } else {
        sin_table(t) + (sin_table(t + 1) - sin_table(t)) * r / 10_000
    }
}

/// The angle reduced into `[0, 360_000)`.
pub open spec fn norm_mdeg(a: int) -> int {
    a % (TURN_MDEG as int)
}

/// Fixed-point sine of an angle in milli-degrees.
pub open spec fn spec_sin_mdeg(a: int) -> int {
    let n = norm_mdeg(a);
    if n <= 90_000 {
        interp_quarter(n)
    } else if n <= 180_000 {
        interp_quarter(180_000 - n)
    } else if n <= 270_000 {
        -interp_quarter(n - 180_000)
    } else {
        -interp_quarter(360_000 - n)
    }
}

/// Fixed-point cosine of an angle in milli-degrees.
pub open spec fn spec_cos_mdeg(a: int) -> int {
    spec_sin_mdeg(norm_mdeg(a) + (QUARTER_MDEG as int))
}

proof fn lemma_table_bounds(k: int)
    ensures
        0 <= sin_table(k) <= 1_000_000,
        k < 9 ==> sin_table(k) <= sin_table(k + 1),
{
}

proof fn lemma_interp_bounds(x: int)
    requires
        0 <= x <= 90_000,
    ensures
        0 <= interp_quarter(x) <= 1_000_000,
{
    let t = x / 10_000;
    let r = x % 10_000;
    vstd::arithmetic::div_mod::lemma_fundamental_div_mod(x, 10_000);
    assert(0 <= r < 10_000);
    assert(0 <= t <= 9) by (nonlinear_arith)
        requires 0 <= x <= 90_000 && t == x / 10_000;
    if t < 9 {
        let d = sin_table(t + 1) - sin_table(t);
        assert(0 <= d <= 173_648);
        assert(0 <= d * r <= d * 10_000) by (nonlinear_arith)
            requires 0 <= d && 0 <= r <= 10_000;
        assert(0 <= d * r / 10_000 <= d) by (nonlinear_arith)
            requires 0 <= d * r <= d * 10_000;
    }
}

/// Table lookup for the executable path.
fn sin_table_exec(k: i64) -> (r: i64)
    ensures
        r as int == sin_table(k as int),
{
    if k <= 0 {
        0
    } else if k == 1 {
        173_648
    } else if k == 2 {
        342_020
    } else if k == 3 {
        500_000
    } else if k == 4 {
        642_788
    } else if k == 5 {
        766_044
    } else if k == 6 {
        866_025
    } else if k == 7 {
        939_693
    } else if k == 8 {
        984_808
    } else {
        1_000_000
    }
}

fn interp_quarter_exec(x: i64) -> (r: i64)
    requires
        0 <= x <= 90_000,
    ensures
        r as int == interp_quarter(x as int),
        0 <= r <= 1_000_000,
{
    proof {
        lemma_interp_bounds(x as int);
    }
    let t: i64 = x / 10_000;
    let r0: i64 = x % 10_000;
    if t >= 9 {
        1_000_000
    } else {
        let lo: i64 = sin_table_exec(t);
        let hi: i64 = sin_table_exec(t + 1);
        proof {
            lemma_table_bounds(t as int);
            assert(0 <= (hi - lo) * r0) by (nonlinear_arith)
                requires 0 <= hi - lo && 0 <= r0;
            assert((hi as int - lo as int) * (r0 as int) <= 173_648 * 10_000)
                by (nonlinear_arith)
                requires 0 <= hi - lo <= 173_648 && 0 <= r0 <= 10_000;
        }
        lo + (hi - lo) * r0 / 10_000
    }
}

/// Reduce an angle into `[0, 360_000)`.
pub fn norm_mdeg_exec(a: i64) -> (r: i64)
    ensures
        r as int == norm_mdeg(a as int),
        0 <= r < 360_000,
{
    if a >= 0 {
        let q: i64 = a % TURN_MDEG;
        q
    } else {
        let x: i128 = -(a as i128);
        let r0: i128 = x % (TURN_MDEG as i128);
        proof {
            let d = TURN_MDEG as int;
            let q = (x as int) / d;
            vstd::arithmetic::div_mod::lemma_fundamental_div_mod(x as int, d);
            if r0 == 0 {
                vstd::arithmetic::div_mod::lemma_fundamental_div_mod_converse(
                    a as int, d, -q, 0);
            } else {
                vstd::arithmetic::div_mod::lemma_fundamental_div_mod_converse(
                    a as int, d, -q - 1, d - (r0 as int));
            }
        }
        if r0 == 0 {
            0
        } else {
            (TURN_MDEG as i128 - r0) as i64
        }
    }
}

/// Fixed-point sine; exact with respect to `spec_sin_mdeg`.
pub fn sin_mdeg(a: i64) -> (r: i64)
    ensures
        r as int == spec_sin_mdeg(a as int),
        -FIX_ONE <= r <= FIX_ONE,
{
    let n: i64 = norm_mdeg_exec(a);
    if n <= 90_000 {
        interp_quarter_exec(n)
    } else if n <= 180_000 {
        interp_quarter_exec(180_000 - n)
    } else if n <= 270_000 {
        -interp_quarter_exec(n - 180_000)
    } else {
        -interp_quarter_exec(360_000 - n)
    }
}

/// Fixed-point cosine; exact with respect to `spec_cos_mdeg`.
pub fn cos_mdeg(a: i64) -> (r: i64)
    ensures
        r as int == spec_cos_mdeg(a as int),
        -FIX_ONE <= r <= FIX_ONE,
{
    let n: i64 = norm_mdeg_exec(a);
    sin_mdeg(n + QUARTER_MDEG)
}

} // verus!
