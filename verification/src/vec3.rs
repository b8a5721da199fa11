//! Three-component fixed-point vectors, used for positions, directions and
//! linear-RGB colours.

use vstd::prelude::*;
use crate::fixed::{
    SCALE, abs_int, quot_trunc, sqrt_floor, is_sqrt_floor, fp_div, fp_mul, fp_sqrt,
    lemma_quot_bound, lemma_quot_nonneg, lemma_sqrt_floor_unique,
};

verus! {

/// Bound on the magnitude of every coordinate of scene geometry and rays:
/// 2^32 in fixed-point units, that is 65536 world units.
pub const VMAX: i64 = 0x100000000;

/// Components below this magnitude count as zero; at the 2^16 scale the
/// smallest nonzero magnitude is one.
pub const NEAR_ZERO_THRESHOLD: i64 = 1;

#[derive(Clone, Copy, PartialEq, Eq, Structural, Debug)]
pub struct Vec3 {
    pub x: i64,
    pub y: i64,
    pub z: i64,
}

pub type Point3 = Vec3;

pub type Color = Vec3;

/// Every component of `v` has magnitude at most `m`.
pub open spec fn within(v: Vec3, m: int) -> bool {
    abs_int(v.x as int) <= m && abs_int(v.y as int) <= m && abs_int(v.z as int) <= m
}

/// The unscaled integer dot product of `a` and `b`.
pub open spec fn dot_raw(a: Vec3, b: Vec3) -> int {
    a.x * b.x + a.y * b.y + a.z * b.z
}

/// Fixed-point dot product: the raw product rescaled once, rounding toward
/// zero.
pub open spec fn spec_dot(a: Vec3, b: Vec3) -> int {
    quot_trunc(dot_raw(a, b), SCALE as int)
}

/// Fixed-point squared length.
pub open spec fn spec_len_sq(a: Vec3) -> int {
    spec_dot(a, a)
}

/// Fixed-point length: floor square root of the squared length, rescaled.
pub open spec fn spec_len(a: Vec3) -> int {
    sqrt_floor(spec_len_sq(a) * (SCALE as int))
}

/// Fixed-point cross product, one rescaling per component.
pub open spec fn spec_cross(a: Vec3, b: Vec3) -> Vec3 {
    Vec3 {
        x: quot_trunc(a.y * b.z - a.z * b.y, SCALE as int) as i64,
        y: quot_trunc(a.z * b.x - a.x * b.z, SCALE as int) as i64,
        z: quot_trunc(a.x * b.y - a.y * b.x, SCALE as int) as i64,
    }
}

/// Componentwise sum.
pub open spec fn spec_add(a: Vec3, b: Vec3) -> Vec3 {
    Vec3 { x: (a.x + b.x) as i64, y: (a.y + b.y) as i64, z: (a.z + b.z) as i64 }
}

/// Componentwise difference.
pub open spec fn spec_sub(a: Vec3, b: Vec3) -> Vec3 {
    Vec3 { x: (a.x - b.x) as i64, y: (a.y - b.y) as i64, z: (a.z - b.z) as i64 }
}

/// Componentwise negation.
pub open spec fn spec_neg(a: Vec3) -> Vec3 {
    Vec3 { x: (-a.x) as i64, y: (-a.y) as i64, z: (-a.z) as i64 }
}

/// Scaling by a fixed-point scalar.
pub open spec fn spec_scale(a: Vec3, s: int) -> Vec3 {
    Vec3 {
        x: quot_trunc(a.x * s, SCALE as int) as i64,
        y: quot_trunc(a.y * s, SCALE as int) as i64,
        z: quot_trunc(a.z * s, SCALE as int) as i64,
    }
}

/// Componentwise fixed-point product (used for colour attenuation).
pub open spec fn spec_mul_vec(a: Vec3, b: Vec3) -> Vec3 {
    Vec3 {
        x: quot_trunc(a.x * b.x, SCALE as int) as i64,
        y: quot_trunc(a.y * b.y, SCALE as int) as i64,
        z: quot_trunc(a.z * b.z, SCALE as int) as i64,
    }
}

/// Rotation about the Y axis by an angle with the given sine and cosine.
pub open spec fn spec_rotate_y(v: Vec3, sin_theta: int, cos_theta: int) -> Vec3 {
    Vec3 {
        x: (crate::fixed::fmul(v.x as int, cos_theta) + crate::fixed::fmul(
            v.z as int,
            sin_theta,
        )) as i64,
        y: v.y,
        z: (-crate::fixed::fmul(v.x as int, sin_theta) + crate::fixed::fmul(
            v.z as int,
            cos_theta,
        )) as i64,
    }
}

/// Rotation about the X axis by an angle with the given sine and cosine.
pub open spec fn spec_rotate_x(v: Vec3, sin_theta: int, cos_theta: int) -> Vec3 {
    Vec3 {
        x: v.x,
        y: (crate::fixed::fmul(v.y as int, cos_theta) - crate::fixed::fmul(
            v.z as int,
            sin_theta,
        )) as i64,
        z: (crate::fixed::fmul(v.y as int, sin_theta) + crate::fixed::fmul(
            v.z as int,
            cos_theta,
        )) as i64,
    }
}

/// Rotation about the Z axis by an angle with the given sine and cosine.
pub open spec fn spec_rotate_z(v: Vec3, sin_theta: int, cos_theta: int) -> Vec3 {
    Vec3 {
        x: (crate::fixed::fmul(v.x as int, cos_theta) - crate::fixed::fmul(
            v.y as int,
            sin_theta,
        )) as i64,
        y: (crate::fixed::fmul(v.x as int, sin_theta) + crate::fixed::fmul(
            v.y as int,
            cos_theta,
        )) as i64,
        z: v.z,
    }
}

/// Rodrigues rotation about an axis with the given sine and cosine, each
/// term saturated into geometry range.
pub open spec fn spec_rotate_rodrigues(v: Vec3, sin_theta: int, cos_theta: int, k: Vec3) -> Vec3 {
    let va = spec_scale_sat(v, cos_theta, VMAX as int);
    let vb = spec_scale_sat(spec_cross(k, v), sin_theta, VMAX as int);
    let vc = spec_scale_sat(
        k,
        crate::fixed::fmul(spec_dot(k, v), SCALE as int - cos_theta),
        VMAX as int,
    );
    spec_add_sat(spec_add_sat(va, vb, VMAX as int), vc, VMAX as int)
}

/// Component of `v` along axis `i` (0, 1 or 2).
pub open spec fn spec_comp(v: Vec3, i: int) -> i64 {
    if i == 0 {
        v.x
    } else if i == 1 {
        v.y
    } else {
        v.z
    }
}

/// All components strictly below the near-zero threshold.
pub open spec fn spec_near_zero(a: Vec3) -> bool {
    abs_int(a.x as int) < NEAR_ZERO_THRESHOLD && abs_int(a.y as int) < NEAR_ZERO_THRESHOLD
        && abs_int(a.z as int) < NEAR_ZERO_THRESHOLD
}

/// A raw dot product of vectors within `m` is at most `3 m^2`.
pub proof fn lemma_dot_raw_bound(a: Vec3, b: Vec3, m: int)
    requires
        within(a, m),
        within(b, m),
        0 <= m,
    ensures
        abs_int(dot_raw(a, b)) <= 3 * m * m,
{
    assert(3 * m * m == m * m + m * m + m * m) by (nonlinear_arith);
    crate::fixed::lemma_abs_mul_bound(a.x as int, b.x as int, m, m);
    crate::fixed::lemma_abs_mul_bound(a.y as int, b.y as int, m, m);
    crate::fixed::lemma_abs_mul_bound(a.z as int, b.z as int, m, m);
}

/// A fixed-point dot product of vectors within `m` is at most `3 m^2 / 2^16`.
pub proof fn lemma_dot_bound(a: Vec3, b: Vec3, m: int)
    requires
        within(a, m),
        within(b, m),
        0 <= m,
    ensures
        abs_int(spec_dot(a, b)) <= (3 * m * m) / (SCALE as int),
{
    lemma_dot_raw_bound(a, b, m);
    lemma_quot_bound(dot_raw(a, b), SCALE as int, 3 * m * m);
}

/// A fixed-point dot product bound from different bounds on the factors.
pub proof fn lemma_dot_bound_mixed(a: Vec3, b: Vec3, ma: int, mb: int)
    requires
        within(a, ma),
        within(b, mb),
        0 <= ma,
        0 <= mb,
    ensures
        abs_int(dot_raw(a, b)) <= 3 * (ma * mb),
        abs_int(spec_dot(a, b)) <= (3 * (ma * mb)) / (SCALE as int),
{
    assert(3 * (ma * mb) == ma * mb + ma * mb + ma * mb) by (nonlinear_arith);
    crate::fixed::lemma_abs_mul_bound(a.x as int, b.x as int, ma, mb);
    crate::fixed::lemma_abs_mul_bound(a.y as int, b.y as int, ma, mb);
    crate::fixed::lemma_abs_mul_bound(a.z as int, b.z as int, ma, mb);
    lemma_quot_bound(dot_raw(a, b), SCALE as int, 3 * (ma * mb));
}

/// Each component of a fixed-point cross product of vectors within `m` is at
/// most `2 m^2 / 2^16`.
pub proof fn lemma_cross_bound(a: Vec3, b: Vec3, m: int)
    requires
        within(a, m),
        within(b, m),
        0 <= m,
    ensures
        within(spec_cross(a, b), (2 * m * m) / (SCALE as int)),
{
    assert(2 * m * m == m * m + m * m) by (nonlinear_arith);
    crate::fixed::lemma_abs_mul_bound(a.x as int, b.y as int, m, m);
    crate::fixed::lemma_abs_mul_bound(a.x as int, b.z as int, m, m);
    crate::fixed::lemma_abs_mul_bound(a.y as int, b.x as int, m, m);
    crate::fixed::lemma_abs_mul_bound(a.y as int, b.z as int, m, m);
    crate::fixed::lemma_abs_mul_bound(a.z as int, b.x as int, m, m);
    crate::fixed::lemma_abs_mul_bound(a.z as int, b.y as int, m, m);
    lemma_quot_bound(a.y * b.z - a.z * b.y, SCALE as int, 2 * m * m);
    lemma_quot_bound(a.z * b.x - a.x * b.z, SCALE as int, 2 * m * m);
    lemma_quot_bound(a.x * b.y - a.y * b.x, SCALE as int, 2 * m * m);
    assert((2 * m * m) / (SCALE as int) >= 0) by {
        assert(2 * m * m >= 0) by (nonlinear_arith)
            requires
                m >= 0,
        ;
        vstd::arithmetic::div_mod::lemma_div_pos_is_pos(2 * m * m, SCALE as int);
    };
}

/// Exact componentwise normalisation: each component divided by the
/// fixed-point length.
pub open spec fn spec_unit(v: Vec3) -> Vec3 {
    Vec3 {
        x: crate::fixed::fdiv(v.x as int, spec_len(v)) as i64,
        y: crate::fixed::fdiv(v.y as int, spec_len(v)) as i64,
        z: crate::fixed::fdiv(v.z as int, spec_len(v)) as i64,
    }
}

/// A vector of unit scale, up to fixed-point rounding: its squared length
/// lies between one half and two.
pub open spec fn unit_wf(v: Vec3) -> bool {
    SCALE / 2 <= spec_len_sq(v) <= 2 * SCALE
}

/// The unit vector along the first axis, used when normalisation degenerates.
pub open spec fn spec_axis_unit() -> Vec3 {
    Vec3 { x: SCALE, y: 0i64, z: 0i64 }
}

/// How far a checked unit direction's squared length may sit from one:
/// about 3 percent, room enough for the truncation of a short input.
pub const UNIT_TOLERANCE: i64 = 2048;

/// Normalisation with a checked outcome: the exact quotient when its
/// squared length lands within the unit tolerance, else the first-axis
/// unit vector.
pub open spec fn spec_unit_dir(v: Vec3) -> Vec3 {
    if within(spec_unit(v), 2 * SCALE as int) && abs_int(spec_len_sq(spec_unit(v)) - SCALE)
        <= UNIT_TOLERANCE {
        spec_unit(v)
    } else {
        spec_axis_unit()
    }
}

/// Normalisation of a possibly far-beyond-unit vector: shrink by the scale
/// once when any component is large, then take the checked unit direction,
/// falling back to the axis vector for vanishing inputs.
pub open spec fn spec_normalize_wide(v: Vec3) -> Vec3 {
    let s = if within(v, 0x200000000) {
        v
    } else {
        Vec3 {
            x: quot_trunc(v.x as int, SCALE as int) as i64,
            y: quot_trunc(v.y as int, SCALE as int) as i64,
            z: quot_trunc(v.z as int, SCALE as int) as i64,
        }
    };
    if spec_len_sq(s) >= 1 {
        spec_unit_dir(s)
    } else {
        spec_axis_unit()
    }
}

/// Componentwise fixed-point division by a scalar.
pub open spec fn spec_div_vec(v: Vec3, s: int) -> Vec3 {
    Vec3 {
        x: crate::fixed::fdiv(v.x as int, s) as i64,
        y: crate::fixed::fdiv(v.y as int, s) as i64,
        z: crate::fixed::fdiv(v.z as int, s) as i64,
    }
}

/// A scalar clamped into `[-b, b]`.
pub open spec fn spec_sat(x: int, b: int) -> i64 {
    if x < -b {
        (-b) as i64
    } else if x > b {
        b as i64
    } else {
        x as i64
    }
}

/// Scaling by a fixed-point scalar, each component saturated into `[-b, b]`.
pub open spec fn spec_scale_sat(v: Vec3, s: int, b: int) -> Vec3 {
    Vec3 {
        x: spec_sat(quot_trunc(v.x * s, SCALE as int), b),
        y: spec_sat(quot_trunc(v.y * s, SCALE as int), b),
        z: spec_sat(quot_trunc(v.z * s, SCALE as int), b),
    }
}

/// Componentwise sum, each component saturated into `[-b, b]`.
pub open spec fn spec_add_sat(v: Vec3, w: Vec3, b: int) -> Vec3 {
    Vec3 {
        x: spec_sat(v.x + w.x, b),
        y: spec_sat(v.y + w.y, b),
        z: spec_sat(v.z + w.z, b),
    }
}

/// Componentwise difference, each component saturated into `[-b, b]`.
pub open spec fn spec_sub_sat(v: Vec3, w: Vec3, b: int) -> Vec3 {
    Vec3 {
        x: spec_sat(v.x - w.x, b),
        y: spec_sat(v.y - w.y, b),
        z: spec_sat(v.z - w.z, b),
    }
}

fn sat_wide(x: i128, b: i64) -> (r: i64)
    requires
        0 <= b,
    ensures
        r == spec_sat(x as int, b as int),
{
    if x < -(b as i128) {
        -b
    } else if x > b as i128 {
        b
    } else {
        x as i64
    }
}

/// Division of a scalar by the scale, rounding toward zero.
fn div_by_scale(x: i64) -> (r: i64)
    requires
        x != i64::MIN,
    ensures
        r == quot_trunc(x as int, SCALE as int),
{
    if x >= 0 {
        x / SCALE
    } else {
        -((-x) / SCALE)
    }
}

/// The fallback axis vector has squared length exactly one.
pub proof fn lemma_axis_unit_len_sq()
    ensures
        spec_len_sq(spec_axis_unit()) == SCALE,
        unit_wf(spec_axis_unit()),
        within(spec_axis_unit(), 2 * SCALE as int),
{
    let v = spec_axis_unit();
    assert(dot_raw(v, v) == 0x100000000);
    assert(quot_trunc(0x100000000, 65536) == 65536) by {
        assert(0x100000000int / 65536 == 65536) by (nonlinear_arith);
    };
}

/// A vector of unit scale has components of magnitude at most two.
pub proof fn lemma_unit_wf_within(v: Vec3)
    requires
        unit_wf(v),
    ensures
        within(v, 2 * SCALE as int),
{
    lemma_len_sq_nonneg(v);
    crate::fixed::lemma_quot_nonneg(dot_raw(v, v), SCALE as int);
    vstd::arithmetic::div_mod::lemma_fundamental_div_mod(dot_raw(v, v), SCALE as int);
    assert(dot_raw(v, v) <= 2 * (SCALE as int) * (SCALE as int) + (SCALE as int)) by {
        assert((dot_raw(v, v) / (SCALE as int)) * (SCALE as int) <= 2 * (SCALE as int) * (
        SCALE as int)) by (nonlinear_arith)
            requires
                dot_raw(v, v) / (SCALE as int) <= 2 * (SCALE as int),
        ;
    };
    assert(abs_int(v.x as int) <= 2 * (SCALE as int) && abs_int(v.y as int) <= 2 * (SCALE as int)
        && abs_int(v.z as int) <= 2 * (SCALE as int)) by (nonlinear_arith)
        requires
            v.x * v.x + v.y * v.y + v.z * v.z <= 2 * (SCALE as int) * (SCALE as int) + (
            SCALE as int),
            SCALE == 65536,
    ;
}

/// Negation keeps the squared length.
pub proof fn lemma_neg_len_sq(v: Vec3)
    requires
        within(v, 0x3fffffffffffffff),
    ensures
        spec_len_sq(spec_neg(v)) == spec_len_sq(v),
{
    let n = spec_neg(v);
    assert(n.x * n.x == v.x * v.x && n.y * n.y == v.y * v.y && n.z * n.z == v.z * v.z)
        by (nonlinear_arith)
        requires
            n.x == -v.x && n.y == -v.y && n.z == -v.z,
    ;
}

/// A squared length is never negative.
pub proof fn lemma_len_sq_nonneg(a: Vec3)
    ensures
        spec_len_sq(a) >= 0,
        dot_raw(a, a) >= 0,
{
    assert(a.x * a.x + a.y * a.y + a.z * a.z >= 0) by (nonlinear_arith);
    lemma_quot_nonneg(dot_raw(a, a), SCALE as int);
}

impl Vec3 {
    pub fn new(x: i64, y: i64, z: i64) -> (r: Vec3)
        ensures
            r == (Vec3 { x, y, z }),
    {
        Vec3 { x, y, z }
    }

    pub fn zero() -> (r: Vec3)
        ensures
            r == (Vec3 { x: 0i64, y: 0i64, z: 0i64 }),
    {
        Vec3 { x: 0, y: 0, z: 0 }
    }

    pub fn origin() -> (r: Vec3)
        ensures
            r == (Vec3 { x: 0i64, y: 0i64, z: 0i64 }),
    {
        Vec3 { x: 0, y: 0, z: 0 }
    }

    pub fn x(&self) -> (r: i64)
        ensures
            r == self.x,
    {
        self.x
    }

    pub fn y(&self) -> (r: i64)
        ensures
            r == self.y,
    {
        self.y
    }

    pub fn z(&self) -> (r: i64)
        ensures
            r == self.z,
    {
        self.z
    }

    pub fn add(&self, o: &Vec3) -> (r: Vec3)
        requires
            within(*self, 0x3fffffffffffffff),
            within(*o, 0x3fffffffffffffff),
        ensures
            r == spec_add(*self, *o),
    {
        Vec3 { x: self.x + o.x, y: self.y + o.y, z: self.z + o.z }
    }

    pub fn sub(&self, o: &Vec3) -> (r: Vec3)
        requires
            within(*self, 0x3fffffffffffffff),
            within(*o, 0x3fffffffffffffff),
        ensures
            r == spec_sub(*self, *o),
    {
        Vec3 { x: self.x - o.x, y: self.y - o.y, z: self.z - o.z }
    }

    pub fn neg(&self) -> (r: Vec3)
        requires
            within(*self, 0x3fffffffffffffff),
        ensures
            r == spec_neg(*self),
    {
        Vec3 { x: -self.x, y: -self.y, z: -self.z }
    }

    pub fn scale(&self, s: i64) -> (r: Vec3)
        requires
            within(*self, 0x4000000000000000),
            abs_int(s as int) <= 0x4000000000000000,
            i64::MIN <= quot_trunc(self.x * s, SCALE as int) <= i64::MAX,
            i64::MIN <= quot_trunc(self.y * s, SCALE as int) <= i64::MAX,
            i64::MIN <= quot_trunc(self.z * s, SCALE as int) <= i64::MAX,
        ensures
            r == spec_scale(*self, s as int),
    {
        Vec3 { x: fp_mul(self.x, s), y: fp_mul(self.y, s), z: fp_mul(self.z, s) }
    }

    pub fn mul_vec(&self, o: &Vec3) -> (r: Vec3)
        requires
            within(*self, 0x4000000000000000),
            within(*o, 0x4000000000000000),
            i64::MIN <= quot_trunc(self.x * o.x, SCALE as int) <= i64::MAX,
            i64::MIN <= quot_trunc(self.y * o.y, SCALE as int) <= i64::MAX,
            i64::MIN <= quot_trunc(self.z * o.z, SCALE as int) <= i64::MAX,
        ensures
            r == spec_mul_vec(*self, *o),
    {
        Vec3 { x: fp_mul(self.x, o.x), y: fp_mul(self.y, o.y), z: fp_mul(self.z, o.z) }
    }

    pub fn dot(&self, o: &Vec3) -> (r: i64)
        requires
            within(*self, 0x40000000000000),
            within(*o, 0x40000000000000),
            i64::MIN <= spec_dot(*self, *o) <= i64::MAX,
        ensures
            r == spec_dot(*self, *o),
    {
        proof {
            let m: int = 0x40000000000000;
            crate::fixed::lemma_abs_mul_bound(self.x as int, o.x as int, m, m);
            crate::fixed::lemma_abs_mul_bound(self.y as int, o.y as int, m, m);
            crate::fixed::lemma_abs_mul_bound(self.z as int, o.z as int, m, m);
        }
        let px: i128 = (self.x as i128) * (o.x as i128);
        let py: i128 = (self.y as i128) * (o.y as i128);
        let pz: i128 = (self.z as i128) * (o.z as i128);
        let s: i128 = px + py + pz;
        assert(s == dot_raw(*self, *o));
        let q: i128 = crate::fixed::quot_wide(s, SCALE as i128);
        q as i64
    }

    pub fn length_squared(&self) -> (r: i64)
        requires
            within(*self, 0x40000000000000),
            spec_len_sq(*self) <= i64::MAX,
        ensures
            r == spec_len_sq(*self),
            r >= 0,
    {
        proof {
            lemma_len_sq_nonneg(*self);
        }
        self.dot(self)
    }

    pub fn length(&self) -> (r: i64)
        requires
            within(*self, 0x40000000000000),
            spec_len_sq(*self) <= i64::MAX,
        ensures
            r == spec_len(*self),
            r >= 0,
            is_sqrt_floor(spec_len_sq(*self) * (SCALE as int), r as int),
    {
        let ls: i64 = self.length_squared();
        fp_sqrt(ls)
    }

    pub fn cross(&self, o: &Vec3) -> (r: Vec3)
        requires
            within(*self, 0x40000000000000),
            within(*o, 0x40000000000000),
            i64::MIN <= quot_trunc(self.y * o.z - self.z * o.y, SCALE as int) <= i64::MAX,
            i64::MIN <= quot_trunc(self.z * o.x - self.x * o.z, SCALE as int) <= i64::MAX,
            i64::MIN <= quot_trunc(self.x * o.y - self.y * o.x, SCALE as int) <= i64::MAX,
        ensures
            r == spec_cross(*self, *o),
    {
        proof {
            let m: int = 0x40000000000000;
            crate::fixed::lemma_abs_mul_bound(self.x as int, o.y as int, m, m);
            crate::fixed::lemma_abs_mul_bound(self.x as int, o.z as int, m, m);
            crate::fixed::lemma_abs_mul_bound(self.y as int, o.x as int, m, m);
            crate::fixed::lemma_abs_mul_bound(self.y as int, o.z as int, m, m);
            crate::fixed::lemma_abs_mul_bound(self.z as int, o.x as int, m, m);
            crate::fixed::lemma_abs_mul_bound(self.z as int, o.y as int, m, m);
        }
        let cx: i128 = (self.y as i128) * (o.z as i128) - (self.z as i128) * (o.y as i128);
        let cy: i128 = (self.z as i128) * (o.x as i128) - (self.x as i128) * (o.z as i128);
        let cz: i128 = (self.x as i128) * (o.y as i128) - (self.y as i128) * (o.x as i128);
        let rx: i128 = crate::fixed::quot_wide(cx, SCALE as i128);
        let ry: i128 = crate::fixed::quot_wide(cy, SCALE as i128);
        let rz: i128 = crate::fixed::quot_wide(cz, SCALE as i128);
        Vec3 { x: rx as i64, y: ry as i64, z: rz as i64 }
    }

    /// Rotate about the Y axis by an angle given through its sine and
    /// cosine: `x' = x cos + z sin`, `z' = -x sin + z cos`.
    pub fn rotate_y(&self, sin_theta: i64, cos_theta: i64) -> (r: Vec3)
        requires
            within(*self, 0x2000000000 as int),
            abs_int(sin_theta as int) <= SCALE,
            abs_int(cos_theta as int) <= SCALE,
        ensures
            r == spec_rotate_y(*self, sin_theta as int, cos_theta as int),
            within(r, 0x4000000002 as int),
    {
        proof {
            crate::fixed::lemma_fmul_bound(self.x as int, cos_theta as int, 0x2000000000,
                SCALE as int);
            crate::fixed::lemma_fmul_bound(self.x as int, sin_theta as int, 0x2000000000,
                SCALE as int);
            crate::fixed::lemma_fmul_bound(self.z as int, cos_theta as int, 0x2000000000,
                SCALE as int);
            crate::fixed::lemma_fmul_bound(self.z as int, sin_theta as int, 0x2000000000,
                SCALE as int);
            assert((0x2000000000int * (SCALE as int)) / (SCALE as int) == 0x2000000000)
                by (nonlinear_arith);
        }
        Vec3 {
            x: crate::fixed::fp_mul(self.x, cos_theta) + crate::fixed::fp_mul(self.z, sin_theta),
            y: self.y,
            z: -crate::fixed::fp_mul(self.x, sin_theta) + crate::fixed::fp_mul(self.z, cos_theta),
        }
    }

    /// Scale by a fixed-point scalar, saturating each component into
    /// `[-b, b]`; total, so callers need no overflow bookkeeping.
    pub fn scale_sat(&self, s: i64, b: i64) -> (r: Vec3)
        requires
            0 <= b,
        ensures
            r == spec_scale_sat(*self, s as int, b as int),
            within(r, b as int),
    {
        proof {
            crate::fixed::lemma_abs_mul_bound(self.x as int, s as int, 0x8000000000000000,
                0x8000000000000000);
            crate::fixed::lemma_abs_mul_bound(self.y as int, s as int, 0x8000000000000000,
                0x8000000000000000);
            crate::fixed::lemma_abs_mul_bound(self.z as int, s as int, 0x8000000000000000,
                0x8000000000000000);
        }
        let px: i128 = crate::fixed::quot_wide((self.x as i128) * (s as i128), SCALE as i128);
        let py: i128 = crate::fixed::quot_wide((self.y as i128) * (s as i128), SCALE as i128);
        let pz: i128 = crate::fixed::quot_wide((self.z as i128) * (s as i128), SCALE as i128);
        Vec3 { x: sat_wide(px, b), y: sat_wide(py, b), z: sat_wide(pz, b) }
    }

    /// Add, saturating each component into `[-b, b]`.
    pub fn add_sat(&self, o: &Vec3, b: i64) -> (r: Vec3)
        requires
            0 <= b,
        ensures
            r == spec_add_sat(*self, *o, b as int),
            within(r, b as int),
    {
        Vec3 {
            x: sat_wide((self.x as i128) + (o.x as i128), b),
            y: sat_wide((self.y as i128) + (o.y as i128), b),
            z: sat_wide((self.z as i128) + (o.z as i128), b),
        }
    }

    /// Subtract, saturating each component into `[-b, b]`.
    pub fn sub_sat(&self, o: &Vec3, b: i64) -> (r: Vec3)
        requires
            0 <= b,
        ensures
            r == spec_sub_sat(*self, *o, b as int),
            within(r, b as int),
    {
        Vec3 {
            x: sat_wide((self.x as i128) - (o.x as i128), b),
            y: sat_wide((self.y as i128) - (o.y as i128), b),
            z: sat_wide((self.z as i128) - (o.z as i128), b),
        }
    }

    /// Divide every component by a fixed-point scalar.
    pub fn div_scalar(&self, s: i64) -> (r: Vec3)
        requires
            s != 0,
            within(*self, 0x1000000000000),
            i64::MIN <= crate::fixed::fdiv(self.x as int, s as int) <= i64::MAX,
            i64::MIN <= crate::fixed::fdiv(self.y as int, s as int) <= i64::MAX,
            i64::MIN <= crate::fixed::fdiv(self.z as int, s as int) <= i64::MAX,
        ensures
            r == spec_div_vec(*self, s as int),
            r.x == crate::fixed::fdiv(self.x as int, s as int),
            r.y == crate::fixed::fdiv(self.y as int, s as int),
            r.z == crate::fixed::fdiv(self.z as int, s as int),
    {
        Vec3 {
            x: crate::fixed::fp_div(self.x, s),
            y: crate::fixed::fp_div(self.y, s),
            z: crate::fixed::fp_div(self.z, s),
        }
    }

    /// Rotate about the X axis by an angle given through its sine and
    /// cosine: `y' = y cos - z sin`, `z' = y sin + z cos`.
    pub fn rotate_x(&self, sin_theta: i64, cos_theta: i64) -> (r: Vec3)
        requires
            within(*self, 0x2000000000 as int),
            abs_int(sin_theta as int) <= SCALE,
            abs_int(cos_theta as int) <= SCALE,
        ensures
            r == spec_rotate_x(*self, sin_theta as int, cos_theta as int),
            within(r, 0x4000000002 as int),
    {
        proof {
            crate::fixed::lemma_fmul_bound(self.y as int, cos_theta as int, 0x2000000000,
                SCALE as int);
            crate::fixed::lemma_fmul_bound(self.y as int, sin_theta as int, 0x2000000000,
                SCALE as int);
            crate::fixed::lemma_fmul_bound(self.z as int, cos_theta as int, 0x2000000000,
                SCALE as int);
            crate::fixed::lemma_fmul_bound(self.z as int, sin_theta as int, 0x2000000000,
                SCALE as int);
            assert((0x2000000000int * (SCALE as int)) / (SCALE as int) == 0x2000000000)
                by (nonlinear_arith);
        }
        Vec3 {
            x: self.x,
            y: crate::fixed::fp_mul(self.y, cos_theta) - crate::fixed::fp_mul(self.z, sin_theta),
            z: crate::fixed::fp_mul(self.y, sin_theta) + crate::fixed::fp_mul(self.z, cos_theta),
        }
    }

    /// Rotate about the Z axis by an angle given through its sine and
    /// cosine: `x' = x cos - y sin`, `y' = x sin + y cos`.
    pub fn rotate_z(&self, sin_theta: i64, cos_theta: i64) -> (r: Vec3)
        requires
            within(*self, 0x2000000000 as int),
            abs_int(sin_theta as int) <= SCALE,
            abs_int(cos_theta as int) <= SCALE,
        ensures
            r == spec_rotate_z(*self, sin_theta as int, cos_theta as int),
            within(r, 0x4000000002 as int),
    {
        proof {
            crate::fixed::lemma_fmul_bound(self.x as int, cos_theta as int, 0x2000000000,
                SCALE as int);
            crate::fixed::lemma_fmul_bound(self.x as int, sin_theta as int, 0x2000000000,
                SCALE as int);
            crate::fixed::lemma_fmul_bound(self.y as int, cos_theta as int, 0x2000000000,
                SCALE as int);
            crate::fixed::lemma_fmul_bound(self.y as int, sin_theta as int, 0x2000000000,
                SCALE as int);
            assert((0x2000000000int * (SCALE as int)) / (SCALE as int) == 0x2000000000)
                by (nonlinear_arith);
        }
        Vec3 {
            x: crate::fixed::fp_mul(self.x, cos_theta) - crate::fixed::fp_mul(self.y, sin_theta),
            y: crate::fixed::fp_mul(self.x, sin_theta) + crate::fixed::fp_mul(self.y, cos_theta),
            z: self.z,
        }
    }

    /// Rodrigues rotation of this vector about the unit-scale axis `k` by
    /// an angle given through its sine and cosine:
    /// `v cos + (k x v) sin + k (k . v)(1 - cos)`, every term saturated
    /// into geometry range.
    pub fn rotate_rodrigues(&self, sin_theta: i64, cos_theta: i64, k: &Vec3) -> (r: Vec3)
        requires
            within(*self, VMAX as int),
            within(*k, 2 * SCALE as int),
            abs_int(sin_theta as int) <= SCALE,
            abs_int(cos_theta as int) <= SCALE,
        ensures
            r == spec_rotate_rodrigues(*self, sin_theta as int, cos_theta as int, *k),
            within(r, VMAX as int),
    {
        proof {
            let m = 2 * SCALE as int;
            crate::fixed::lemma_abs_mul_bound(k.x as int, self.y as int, m, VMAX as int);
            crate::fixed::lemma_abs_mul_bound(k.x as int, self.z as int, m, VMAX as int);
            crate::fixed::lemma_abs_mul_bound(k.y as int, self.x as int, m, VMAX as int);
            crate::fixed::lemma_abs_mul_bound(k.y as int, self.z as int, m, VMAX as int);
            crate::fixed::lemma_abs_mul_bound(k.z as int, self.x as int, m, VMAX as int);
            crate::fixed::lemma_abs_mul_bound(k.z as int, self.y as int, m, VMAX as int);
            lemma_quot_bound(k.y * self.z - k.z * self.y, SCALE as int, 2 * (m * (VMAX as int)));
            lemma_quot_bound(k.z * self.x - k.x * self.z, SCALE as int, 2 * (m * (VMAX as int)));
            lemma_quot_bound(k.x * self.y - k.y * self.x, SCALE as int, 2 * (m * (VMAX as int)));
            lemma_dot_bound_mixed(*k, *self, m, VMAX as int);
        }
        let va = self.scale_sat(cos_theta, VMAX);
        let cr = k.cross(self);
        let vb = cr.scale_sat(sin_theta, VMAX);
        let d = k.dot(self);
        proof {
            assert((3 * ((2 * SCALE as int) * (VMAX as int))) / (SCALE as int) == 6 * (
            VMAX as int)) by (nonlinear_arith);
            crate::fixed::lemma_fmul_bound(d as int, SCALE as int - cos_theta, 6 * (VMAX as int),
                2 * SCALE as int);
            assert(((6 * (VMAX as int)) * (2 * SCALE as int)) / (SCALE as int) == 12 * (
            VMAX as int)) by (nonlinear_arith);
        }
        let f = fp_mul(d, SCALE - cos_theta);
        let vc = k.scale_sat(f, VMAX);
        va.add_sat(&vb, VMAX).add_sat(&vc, VMAX)
    }

    /// Indexed access to a component by axis number.
    pub fn comp(&self, i: usize) -> (r: i64)
        requires
            i < 3,
        ensures
            r == spec_comp(*self, i as int),
    {
        if i == 0 {
            self.x
        } else if i == 1 {
            self.y
        } else {
            self.z
        }
    }

    pub fn near_zero(&self) -> (r: bool)
        requires
            within(*self, 0x4000000000000000),
        ensures
            r == spec_near_zero(*self),
    {
        let t = NEAR_ZERO_THRESHOLD;
        let ax = if self.x >= 0 { self.x } else { -self.x };
        let ay = if self.y >= 0 { self.y } else { -self.y };
        let az = if self.z >= 0 { self.z } else { -self.z };
        ax < t && ay < t && az < t
    }

    /// Normalise with a checked outcome: the exact componentwise quotient by
    /// the length when that lands at unit scale, else the first-axis unit
    /// vector. The result always has unit scale.
    pub fn unit_dir(&self) -> (r: Vec3)
        requires
            within(*self, 0x200000000 as int),
            spec_len_sq(*self) >= 1,
        ensures
            r == spec_unit_dir(*self),
            unit_wf(r),
            abs_int(spec_len_sq(r) - SCALE) <= UNIT_TOLERANCE,
            within(r, 2 * SCALE as int),
    {
        proof {
            lemma_dot_bound(*self, *self, 0x200000000 as int);
            lemma_len_sq_nonneg(*self);
        }
        let ls = self.length_squared();
        let len = crate::fixed::fp_sqrt(ls);
        proof {
            assert(len >= 256) by (nonlinear_arith)
                requires
                    ((len + 1) as int) * ((len + 1) as int) > ls * (SCALE as int),
                    ls >= 1,
                    len >= 0,
                    SCALE == 65536,
            ;
            crate::fixed::lemma_abs_mul_bound(self.x as int, SCALE as int, 0x200000000,
                SCALE as int);
            crate::fixed::lemma_abs_mul_bound(self.y as int, SCALE as int, 0x200000000,
                SCALE as int);
            crate::fixed::lemma_abs_mul_bound(self.z as int, SCALE as int, 0x200000000,
                SCALE as int);
            crate::fixed::lemma_quot_bound(self.x * (SCALE as int), len as int, 0x200000000int * (
            SCALE as int));
            crate::fixed::lemma_quot_bound(self.y * (SCALE as int), len as int, 0x200000000int * (
            SCALE as int));
            crate::fixed::lemma_quot_bound(self.z * (SCALE as int), len as int, 0x200000000int * (
            SCALE as int));
        }
        let u = Vec3 {
            x: crate::fixed::fp_div(self.x, len),
            y: crate::fixed::fp_div(self.y, len),
            z: crate::fixed::fp_div(self.z, len),
        };
        proof {
            lemma_axis_unit_len_sq();
        }
        let bound = 2 * SCALE;
        if u.x <= bound && -bound <= u.x && u.y <= bound && -bound <= u.y && u.z <= bound
            && -bound <= u.z {
            proof {
                lemma_dot_bound(u, u, 2 * SCALE as int);
                lemma_len_sq_nonneg(u);
            }
            let uls = u.length_squared();
            if SCALE - UNIT_TOLERANCE <= uls && uls <= SCALE + UNIT_TOLERANCE {
                u
            } else {
                Vec3 { x: SCALE, y: 0, z: 0 }
            }
        } else {
            Vec3 { x: SCALE, y: 0, z: 0 }
        }
    }

    /// Normalise a vector whose components may be far beyond unit scale:
    /// shrink it first when needed, then take the checked unit direction.
    pub fn normalize_wide(&self) -> (r: Vec3)
        requires
            within(*self, 0x800000000000),
        ensures
            r == spec_normalize_wide(*self),
            unit_wf(r),
            within(r, 2 * SCALE as int),
    {
        let big = 0x200000000i64;
        let inb = self.x <= big && -big <= self.x && self.y <= big && -big <= self.y && self.z
            <= big && -big <= self.z;
        let s = if inb {
            *self
        } else {
            Vec3 {
                x: div_by_scale(self.x),
                y: div_by_scale(self.y),
                z: div_by_scale(self.z),
            }
        };
        proof {
            if !inb {
                crate::fixed::lemma_quot_bound(self.x as int, SCALE as int, 0x800000000000);
                crate::fixed::lemma_quot_bound(self.y as int, SCALE as int, 0x800000000000);
                crate::fixed::lemma_quot_bound(self.z as int, SCALE as int, 0x800000000000);
                assert(0x800000000000int / (SCALE as int) == 0x80000000);
            }
            lemma_dot_bound(s, s, 0x200000000);
            lemma_len_sq_nonneg(s);
            lemma_axis_unit_len_sq();
        }
        if s.length_squared() >= 1 {
            s.unit_dir()
        } else {
            Vec3 { x: SCALE, y: 0, z: 0 }
        }
    }

    /// Scale to unit length; the result's components are the fixed-point
    /// quotients of the components by the fixed-point length.
    pub fn unit(&self) -> (r: Vec3)
        requires
            within(*self, 0x40000000000000),
            spec_len_sq(*self) <= i64::MAX,
            spec_len(*self) > 0,
            i64::MIN <= quot_trunc(self.x * (SCALE as int), spec_len(*self)) <= i64::MAX,
            i64::MIN <= quot_trunc(self.y * (SCALE as int), spec_len(*self)) <= i64::MAX,
            i64::MIN <= quot_trunc(self.z * (SCALE as int), spec_len(*self)) <= i64::MAX,
        ensures
            r.x == crate::fixed::fdiv(self.x as int, spec_len(*self)),
            r.y == crate::fixed::fdiv(self.y as int, spec_len(*self)),
            r.z == crate::fixed::fdiv(self.z as int, spec_len(*self)),
    {
        let len: i64 = self.length();
        Vec3 { x: fp_div(self.x, len), y: fp_div(self.y, len), z: fp_div(self.z, len) }
    }
}

} // verus!
