//! Fixed-point sine and cosine of angles in degrees, by quadrant reduction
//! and Bhaskara's rational approximation on the first quadrant (within about
//! 0.0016 of the true value).

use vstd::prelude::*;
use crate::fixed::{SCALE, abs_int, quot_trunc, floor_div_wide, lemma_quot_bound, lemma_quot_nonneg};

verus! {

/// A full turn in fixed-point degrees.
pub const FULL_TURN: i64 = 23592960;  // 360 * 65536

/// A quarter turn in fixed-point degrees.
pub const QUARTER_TURN: i64 = 5898240;  // 90 * 65536

/// Bhaskara's approximation on `[0, 90]` degrees: with `p = x (180 - x)`
/// (in fixed-point degrees), the sine is `4 p / (40500 - p)`.
pub open spec fn spec_sin_quadrant(x: int) -> int {
    let p = (x * (180 * (SCALE as int) - x)) / (SCALE as int);
    quot_trunc(4 * p * (SCALE as int), 40500 * (SCALE as int) - p)
}

/// Sine of an angle in fixed-point degrees: reduce to `[0, 360)`, pick the
/// quadrant, apply the first-quadrant approximation with the right sign.
pub open spec fn spec_sin_deg(d: int) -> int {
    let m = d % (FULL_TURN as int);
    if m < QUARTER_TURN as int {
        spec_sin_quadrant(m)
    } else if m < 2 * QUARTER_TURN as int {
        spec_sin_quadrant(2 * QUARTER_TURN as int - m)
    } else if m < 3 * QUARTER_TURN as int {
        -spec_sin_quadrant(m - 2 * QUARTER_TURN as int)
    } else {
        -spec_sin_quadrant(4 * QUARTER_TURN as int - m)
    }
}

/// Cosine as the sine shifted by a quarter turn.
pub open spec fn spec_cos_deg(d: int) -> int {
    spec_sin_deg(d + QUARTER_TURN as int)
}

/// First-quadrant sine; the result lies in `[0, 1]`.
fn sin_quadrant(x: i64) -> (r: i64)
    requires
        0 <= x <= QUARTER_TURN,
    ensures
        r == spec_sin_quadrant(x as int),
        0 <= r <= SCALE,
{
    proof {
        assert(x * (180 * (SCALE as int) - x) >= 0) by (nonlinear_arith)
            requires
                0 <= x <= 5898240,
                SCALE == 65536,
        ;
        assert(x * (180 * (SCALE as int) - x) <= 0x2000000000000000) by (nonlinear_arith)
            requires
                0 <= x <= 5898240,
                SCALE == 65536,
        ;
    }
    let praw: i128 = (x as i128) * (180 * (SCALE as i128) - (x as i128));
    let p: i128 = floor_div_wide(praw, SCALE as i128);
    proof {
        vstd::arithmetic::div_mod::lemma_div_pos_is_pos(praw as int, SCALE as int);
        assert((x as int) * (180 * (SCALE as int) - x) <= 8100 * (SCALE as int) * (SCALE as int))
            by (nonlinear_arith)
            requires
                0 <= x <= 5898240,
                SCALE == 65536,
        ;
        vstd::arithmetic::div_mod::lemma_div_is_ordered(
            praw as int,
            8100 * (SCALE as int) * (SCALE as int),
            SCALE as int,
        );
        assert((8100 * (SCALE as int) * (SCALE as int)) / (SCALE as int) == 8100 * (SCALE as int))
            by (nonlinear_arith);
    }
    let num: i128 = 4 * p * (SCALE as i128);
    let den: i128 = 40500 * (SCALE as i128) - p;
    proof {
        crate::fixed::lemma_abs_mul_bound(4 * p, SCALE as int, 4 * 8100 * (SCALE as int),
            SCALE as int);
    }
    let q: i128 = crate::fixed::quot_wide(num, den);
    proof {
        lemma_quot_nonneg(num as int, den as int);
        vstd::arithmetic::div_mod::lemma_div_is_ordered(
            num as int,
            (SCALE as int) * (32400 * (SCALE as int)),
            den as int,
        );
        assert(4 * (p as int) * (SCALE as int) <= (SCALE as int) * (32400 * (SCALE as int)))
            by (nonlinear_arith)
            requires
                0 <= p <= 8100 * (SCALE as int),
                SCALE == 65536,
        ;
        vstd::arithmetic::div_mod::lemma_div_multiples_vanish(
            32400 * (SCALE as int),
            den as int,
        );
        assert(((SCALE as int) * (32400 * (SCALE as int))) / (den as int) <= SCALE as int) by {
            vstd::arithmetic::div_mod::lemma_div_is_ordered_by_denominator(
                (SCALE as int) * (32400 * (SCALE as int)),
                32400 * (SCALE as int),
                den as int,
            );
            vstd::arithmetic::div_mod::lemma_div_multiples_vanish(
                SCALE as int,
                32400 * (SCALE as int),
            );
            assert((SCALE as int) * (32400 * (SCALE as int)) == (32400 * (SCALE as int)) * (
            SCALE as int)) by (nonlinear_arith);
        };
    }
    q as i64
}

/// Reduce an angle to `[0, 360)` fixed-point degrees.
fn reduce_angle(d: i64) -> (r: i64)
    requires
        abs_int(d as int) <= 0x1000000000000,
    ensures
        r == (d as int) % (FULL_TURN as int),
        0 <= r < FULL_TURN,
{
    let fd: i128 = floor_div_wide(d as i128, FULL_TURN as i128);
    proof {
        vstd::arithmetic::div_mod::lemma_fundamental_div_mod(d as int, FULL_TURN as int);
        vstd::arithmetic::div_mod::lemma_mod_bound(d as int, FULL_TURN as int);
    }
    let m: i128 = (d as i128) - fd * (FULL_TURN as i128);
    m as i64
}

/// Sine of an angle in fixed-point degrees.
pub fn fp_sin_deg(d: i64) -> (r: i64)
    requires
        abs_int(d as int) <= 0x1000000000000,
    ensures
        r == spec_sin_deg(d as int),
        abs_int(r as int) <= SCALE,
{
    let m = reduce_angle(d);
    if m < QUARTER_TURN {
        sin_quadrant(m)
    } else if m < 2 * QUARTER_TURN {
        sin_quadrant(2 * QUARTER_TURN - m)
    } else if m < 3 * QUARTER_TURN {
        -sin_quadrant(m - 2 * QUARTER_TURN)
    } else {
        -sin_quadrant(4 * QUARTER_TURN - m)
    }
}

/// Cosine of an angle in fixed-point degrees.
pub fn fp_cos_deg(d: i64) -> (r: i64)
    requires
        abs_int(d as int) <= 0x800000000000,
    ensures
        r == spec_cos_deg(d as int),
        abs_int(r as int) <= SCALE,
{
    fp_sin_deg(d + QUARTER_TURN)
}

} // verus!
