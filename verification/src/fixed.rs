//! Fixed-point scalar arithmetic.
//!
//! A scalar is an `i64` holding a real value scaled by `SCALE` = 2^16, so one
//! unit of world space is 65536 and the smallest representable step is about
//! 1.5e-5. Products and quotients are computed in `i128` and rounded toward
//! zero, as the corresponding machine operations on wider types would.

use vstd::prelude::*;

verus! {

/// Scale factor of the fixed-point representation: 2^16.
pub const SCALE: i64 = 65536;

/// Absolute value, as mathematical integers.
pub open spec fn abs_int(a: int) -> int {
    if a >= 0 {
        a
    } else {
        -a
    }
}

/// Quotient rounded toward zero (both operands as mathematical integers,
/// divisor positive in magnitude).
pub open spec fn quot_trunc(a: int, b: int) -> int {
    if (a >= 0) == (b >= 0) {
        abs_int(a) / abs_int(b)
    } else {
        -(abs_int(a) / abs_int(b))
    }
}

/// The fixed-point product of `a` and `b`: their integer product rescaled.
pub open spec fn fmul(a: int, b: int) -> int {
    quot_trunc(a * b, SCALE as int)
}

/// The fixed-point quotient of `a` by `b`.
pub open spec fn fdiv(a: int, b: int) -> int {
    quot_trunc(a * (SCALE as int), b)
}

/// `r` is the floor of the square root of `n`.
pub open spec fn is_sqrt_floor(n: int, r: int) -> bool {
    0 <= r && r * r <= n && n < (r + 1) * (r + 1)
}

/// The floor of the square root of `n` (meaningful for `n >= 0`).
pub open spec fn sqrt_floor(n: int) -> int {
    choose|r: int| is_sqrt_floor(n, r)
}

/// The floor square root is unique, so any witness equals `sqrt_floor`.
pub proof fn lemma_sqrt_floor_unique(n: int, r: int)
    requires
        is_sqrt_floor(n, r),
    ensures
        sqrt_floor(n) == r,
{
    let s = sqrt_floor(n);
    assert(is_sqrt_floor(n, s));
    assert(r < s + 1 && s < r + 1) by (nonlinear_arith)
        requires
            0 <= r && r * r <= n && n < (r + 1) * (r + 1),
            0 <= s && s * s <= n && n < (s + 1) * (s + 1),
    ;
}

/// Every nonnegative integer has a floor square root.
pub proof fn lemma_sqrt_exists(n: int)
    requires
        n >= 0,
    ensures
        is_sqrt_floor(n, sqrt_floor(n)),
{
    let w = lemma_sqrt_exists_helper(n as nat);
    lemma_sqrt_floor_unique(n, w);
}

proof fn lemma_sqrt_exists_helper(n: nat) -> (r: int)
    ensures
        is_sqrt_floor(n as int, r),
    decreases n,
{
    if n == 0 {
        0
    } else {
        let r = lemma_sqrt_exists_helper((n - 1) as nat);
        if (r + 1) * (r + 1) <= n {
            assert(is_sqrt_floor(n as int, r + 1)) by (nonlinear_arith)
                requires
                    0 <= r,
                    r * r <= n - 1 < (r + 1) * (r + 1),
                    (r + 1) * (r + 1) <= n,
            ;
            r + 1
        } else {
            r
        }
    }
}

/// Bound on the magnitude of a product from bounds on its factors.
pub proof fn lemma_abs_mul_bound(x: int, y: int, mx: int, my: int)
    requires
        abs_int(x) <= mx,
        abs_int(y) <= my,
        0 <= mx,
        0 <= my,
    ensures
        abs_int(x * y) <= mx * my,
{
    assert(abs_int(x * y) <= mx * my) by (nonlinear_arith)
        requires
            abs_int(x) <= mx,
            abs_int(y) <= my,
            0 <= mx,
            0 <= my,
    ;
}

/// Bound on a truncated quotient from a bound on the dividend.
pub proof fn lemma_quot_bound(a: int, b: int, m: int)
    requires
        b != 0,
        abs_int(a) <= m,
    ensures
        abs_int(quot_trunc(a, b)) <= m / abs_int(b),
        abs_int(quot_trunc(a, b)) <= m,
{
    vstd::arithmetic::div_mod::lemma_div_is_ordered(abs_int(a), m, abs_int(b));
    vstd::arithmetic::div_mod::lemma_div_pos_is_pos(abs_int(a), abs_int(b));
    vstd::arithmetic::div_mod::lemma_div_nonincreasing(m, abs_int(b));
}

/// Bound a single fixed-point product from bounds on its factors.
pub proof fn lemma_fmul_bound(a: int, b: int, ma: int, mb: int)
    requires
        abs_int(a) <= ma,
        abs_int(b) <= mb,
        0 <= ma,
        0 <= mb,
    ensures
        abs_int(fmul(a, b)) <= (ma * mb) / (SCALE as int),
        abs_int(fmul(a, b)) <= ma * mb,
{
    lemma_abs_mul_bound(a, b, ma, mb);
    lemma_quot_bound(a * b, SCALE as int, ma * mb);
}

/// Bound a single fixed-point quotient by a divisor of magnitude at least
/// one scale unit.
pub proof fn lemma_fdiv_bound(a: int, b: int, ma: int)
    requires
        abs_int(a) <= ma,
        abs_int(b) >= SCALE,
        0 <= ma,
    ensures
        abs_int(fdiv(a, b)) <= ma,
{
    lemma_abs_mul_bound(a, SCALE as int, ma, SCALE as int);
    lemma_quot_bound(a * (SCALE as int), b, ma * (SCALE as int));
    vstd::arithmetic::div_mod::lemma_div_is_ordered_by_denominator(
        ma * (SCALE as int),
        SCALE as int,
        abs_int(b),
    );
    vstd::arithmetic::div_mod::lemma_div_multiples_vanish(ma, SCALE as int);
}

/// Truncating division by a positive divisor is monotone in the dividend.
pub proof fn lemma_quot_trunc_monotone(a1: int, a2: int, b: int)
    requires
        a1 <= a2,
        b > 0,
    ensures
        quot_trunc(a1, b) <= quot_trunc(a2, b),
{
    if a1 >= 0 {
        vstd::arithmetic::div_mod::lemma_div_is_ordered(a1, a2, b);
    } else if a2 < 0 {
        vstd::arithmetic::div_mod::lemma_div_is_ordered(-a2, -a1, b);
    } else {
        vstd::arithmetic::div_mod::lemma_div_pos_is_pos(-a1, b);
        vstd::arithmetic::div_mod::lemma_div_pos_is_pos(a2, b);
    }
}

/// A truncated quotient of a nonpositive dividend by a positive divisor is
/// nonpositive.
pub proof fn lemma_quot_nonpos(a: int, b: int)
    requires
        b > 0,
        a <= 0,
    ensures
        quot_trunc(a, b) <= 0,
{
    vstd::arithmetic::div_mod::lemma_div_pos_is_pos(abs_int(a), b);
}

/// A truncated quotient of a nonnegative dividend is the plain quotient.
pub proof fn lemma_quot_nonneg(a: int, b: int)
    requires
        b > 0,
        a >= 0,
    ensures
        quot_trunc(a, b) == a / b,
        quot_trunc(a, b) >= 0,
{
    vstd::arithmetic::div_mod::lemma_div_pos_is_pos(a, b);
}

proof fn lemma_abs_mul(a: int, b: int)
    ensures
        abs_int(a * b) == abs_int(a) * abs_int(b),
{
    assert(abs_int(a * b) == abs_int(a) * abs_int(b)) by (nonlinear_arith);
}

/// Magnitude of an `i128`, as a `u128`.
fn abs_wide(a: i128) -> (r: u128)
    requires
        a != i128::MIN,
    ensures
        r == abs_int(a as int),
{
    if a >= 0 {
        a as u128
    } else {
        (-a) as u128
    }
}

/// Quotient of two `i128` values, rounded toward zero.
pub fn quot_wide(a: i128, b: i128) -> (r: i128)
    requires
        b != 0,
        -0x7fffffffffffffffffffffffffffffff <= a <= 0x7fffffffffffffffffffffffffffffff,
        -0x7fffffffffffffffffffffffffffffff <= b <= 0x7fffffffffffffffffffffffffffffff,
    ensures
        r == quot_trunc(a as int, b as int),
        abs_int(r as int) <= abs_int(a as int),
{
    let ma: u128 = abs_wide(a);
    let mb: u128 = abs_wide(b);
    let q: u128 = ma / mb;
    assert(q <= ma) by {
        assert(ma / mb <= ma) by (nonlinear_arith)
            requires
                mb >= 1,
        ;
    };
    if (a >= 0) == (b >= 0) {
        q as i128
    } else {
        -(q as i128)
    }
}

/// Fixed-point product, computed in `i128` and rounded toward zero.
pub fn fp_mul(a: i64, b: i64) -> (r: i64)
    requires
        i64::MIN <= fmul(a as int, b as int) <= i64::MAX,
    ensures
        r == fmul(a as int, b as int),
{
    proof {
        lemma_abs_mul(a as int, b as int);
        assert(abs_int(a as int) * abs_int(b as int) <= 0x8000000000000000 * 0x8000000000000000)
            by (nonlinear_arith)
            requires
                abs_int(a as int) <= 0x8000000000000000,
                abs_int(b as int) <= 0x8000000000000000,
        ;
    }
    let p: i128 = (a as i128) * (b as i128);
    let q: i128 = quot_wide(p, SCALE as i128);
    q as i64
}

/// Fixed-point quotient, computed in `i128` and rounded toward zero.
pub fn fp_div(a: i64, b: i64) -> (r: i64)
    requires
        b != 0,
        i64::MIN <= fdiv(a as int, b as int) <= i64::MAX,
    ensures
        r == fdiv(a as int, b as int),
{
    proof {
        lemma_abs_mul(a as int, SCALE as int);
        assert(abs_int(a as int) * (SCALE as int) <= 0x8000000000000000 * 0x10000)
            by (nonlinear_arith)
            requires
                abs_int(a as int) <= 0x8000000000000000,
        ;
    }
    let p: i128 = (a as i128) * (SCALE as i128);
    let q: i128 = quot_wide(p, b as i128);
    q as i64
}

/// Euclidean (floor) quotient of a wide value by a positive divisor.
pub fn floor_div_wide(a: i128, b: i128) -> (r: i128)
    requires
        0 < b <= 0x10000000000000000,
        -0x7fffffffffffffffffffffffffffffff <= a <= 0x7fffffffffffffffffffffffffffffff,
    ensures
        r == (a as int) / (b as int),
{
    if a >= 0 {
        ((a as u128) / (b as u128)) as i128
    } else {
        let m: u128 = (-a) as u128;
        let q: u128 = (m + (b as u128) - 1) / (b as u128);
        proof {
            let mi = m as int;
            let bi = b as int;
            let qi = q as int;
            vstd::arithmetic::div_mod::lemma_fundamental_div_mod(mi + bi - 1, bi);
            let r0 = (mi + bi - 1) % bi;
            assert((-qi) * bi == -(qi * bi)) by (nonlinear_arith);
            assert(bi * qi == qi * bi) by (nonlinear_arith);
            assert(-mi == (-qi) * bi + (bi - 1 - r0));
            vstd::arithmetic::div_mod::lemma_fundamental_div_mod_converse_div(
                -mi,
                bi,
                -qi,
                bi - 1 - r0,
            );
            vstd::arithmetic::div_mod::lemma_div_pos_is_pos(mi + bi - 1, bi);
            assert(mi + bi - 1 <= bi * mi) by (nonlinear_arith)
                requires
                    mi >= 1,
                    bi >= 1,
            ;
            vstd::arithmetic::div_mod::lemma_div_is_ordered(mi + bi - 1, bi * mi, bi);
            vstd::arithmetic::div_mod::lemma_div_multiples_vanish(mi, bi);
        }
        -(q as i128)
    }
}
pub fn isqrt(n: u128) -> (r: u128)
    requires
        n < 0x1000000000000000000000000000000,  // 2^120
    ensures
        is_sqrt_floor(n as int, r as int),
{
    let mut lo: u128 = 0;
    let mut hi: u128 = 0x1000000000000000;  // 2^60
    assert(hi * hi > n) by (nonlinear_arith)
        requires
            hi == 0x1000000000000000,
            n < 0x1000000000000000000000000000000,
    ;
    while hi - lo > 1
        invariant
            lo < hi,
            hi <= 0x1000000000000000,
            lo * lo <= n,
            n < hi * hi,
        decreases hi - lo,
    {
        let mid: u128 = lo + (hi - lo) / 2;
        assert(lo < mid < hi);
        assert(mid * mid < 0x1000000000000000000000000000000) by (nonlinear_arith)
            requires
                mid < 0x1000000000000000,
        ;
        if mid * mid <= n {
            lo = mid;
        } else {
            hi = mid;
        }
    }
    lo
}

/// Floor square root of a nonnegative fixed-point scalar, as a fixed-point
/// scalar: the integer square root of `x` rescaled by 2^16.
pub fn fp_sqrt(x: i64) -> (r: i64)
    requires
        0 <= x,
    ensures
        0 <= r,
        is_sqrt_floor(x * (SCALE as int), r as int),
        r == sqrt_floor(x * (SCALE as int)),
        r <= 0x200000000000,  // stays well inside i64
{
    proof {
        assert((x as int) * (SCALE as int) <= 0x7fffffffffffffff * 0x10000) by (nonlinear_arith)
            requires
                0 <= x <= 0x7fffffffffffffff,
        ;
    }
    let wide: u128 = (x as u128) * (SCALE as u128);
    assert(wide < 0x1000000000000000000000000000000);
    let s: u128 = isqrt(wide);
    assert(s <= 0x200000000000) by (nonlinear_arith)
        requires
            (s as int) * (s as int) <= wide,
            wide == (x as int) * (SCALE as int),
            0 <= x <= 0x7fffffffffffffff,
            s >= 0,
    ;
    proof {
        lemma_sqrt_floor_unique(x * (SCALE as int), s as int);
    }
    s as i64
}

/// Clamp a scalar into `[lo, hi]`.
pub fn fp_clamp(x: i64, lo: i64, hi: i64) -> (r: i64)
    requires
        lo <= hi,
    ensures
        r == if x < lo {
            lo
        } else if x > hi {
            hi
        } else {
            x
        },
{
    if x < lo {
        lo
    } else if x > hi {
        hi
    } else {
        x
    }
}

/// Magnitude of a scalar.
pub fn fp_abs(x: i64) -> (r: i64)
    requires
        x != i64::MIN,
    ensures
        r == abs_int(x as int),
{
    if x >= 0 {
        x
    } else {
        -x
    }
}

} // verus!
