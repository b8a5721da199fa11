//! Scene geometry: spheres, quads, composites, instancing transforms,
//! participating media and the bounding-volume hierarchy, all behind one
//! intersection capability.

use vstd::prelude::*;
use crate::fixed::{
    SCALE, abs_int, quot_trunc, fdiv, fmul, fp_div, fp_mul, fp_sqrt, sqrt_floor, is_sqrt_floor,
    lemma_abs_mul_bound, lemma_quot_bound, lemma_fmul_bound, lemma_quot_nonneg,
};
use crate::vec3::{
    Vec3, Point3, VMAX, within, spec_dot, spec_neg, spec_sub, spec_add, spec_scale, spec_cross,
    spec_len_sq, spec_unit_dir, unit_wf, dot_raw, lemma_dot_bound, lemma_neg_len_sq,
    lemma_len_sq_nonneg, lemma_unit_wf_within, lemma_cross_bound,
};
use crate::ray::{Ray, spec_at};
use crate::interval::{Interval, FP_INF, spec_is_empty};
use crate::aabb::{AABB, BMAX, aabb_wf, aabb_sorted, aabb_within, aabb_contained, spec_aabb_hit,
    spec_unite_aabb};
use crate::material::{Material, material_wf};
use crate::rng::RngState;
use vstd::multiset::Multiset;

verus! {

broadcast use {vstd::std_specs::vec::group_vec_axioms, vstd::multiset::group_multiset_axioms};

/// Bound on the coordinates of rays traversing the scene: twice the
/// geometry bound, since instancing transforms move rays.
pub const RMAX: i64 = 0x200000000;

/// Bound on accepted ray parameters: hits farther than this are discarded
/// as out of numeric range.
pub const TMAX: i64 = 0x100000000000;

/// What a successful intersection reports: the point, the oriented unit
/// normal, the material there, the ray parameter `t`, surface coordinates
/// and whether the ray met the front face.
pub struct HitRecord<'a> {
    pub point: Point3,
    pub normal: Vec3,
    pub material: &'a Material,
    pub t: i64,
    pub u: i64,
    pub v: i64,
    pub front_face: bool,
}

impl<'a> HitRecord<'a> {
    /// Resolve front-face orientation: the stored normal always faces
    /// against the incident ray, and `front_face` records which side was
    /// hit.
    pub fn new(
        point: Point3,
        outward_normal: Vec3,
        material: &'a Material,
        t: i64,
        u: i64,
        v: i64,
        ray: &Ray,
    ) -> (r: HitRecord<'a>)
        requires
            within(outward_normal, VMAX as int),
            within(ray.direction, RMAX as int),
        ensures
            r.front_face == (spec_dot(ray.direction, outward_normal) < 0),
            r.front_face ==> r.normal == outward_normal,
            !r.front_face ==> r.normal == spec_neg(outward_normal),
            r.point == point,
            r.material == material,
            r.t == t,
            r.u == u,
            r.v == v,
            unit_wf(outward_normal) ==> unit_wf(r.normal),
            within(outward_normal, 2 * SCALE as int) ==> within(r.normal, 2 * SCALE as int),
    {
        proof {
            lemma_dot_bound(ray.direction, outward_normal, RMAX as int);
            lemma_neg_len_sq(outward_normal);
        }
        let front_face = ray.direction.dot(&outward_normal) < 0;
        let normal = if front_face {
            outward_normal
        } else {
            outward_normal.neg()
        };
        HitRecord { point, normal, material, t, u, v, front_face }
    }
}

pub struct Sphere {
    pub center: Point3,
    pub radius: i64,
    pub material: Material,
    pub bounding_box: AABB,
}

pub struct Quad {
    pub bottom_left: Point3,
    pub u: Vec3,
    pub v: Vec3,
    pub normal: Vec3,
    pub d: i64,
    pub n: Vec3,
    pub material: Material,
    pub bounding_box: AABB,
}

pub struct HittableComposite {
    pub objects: Vec<Hittable>,
    pub bbox: AABB,
}

pub struct Translate {
    pub object: Box<Hittable>,
    pub offset: Vec3,
    pub bounding_box: AABB,
}

pub struct RotateY {
    pub object: Box<Hittable>,
    pub sin_theta: i64,
    pub cos_theta: i64,
    pub bounding_box: AABB,
}

pub struct ConstantMedium {
    pub boundry: Box<Hittable>,
    pub inv_density: i64,
    pub phase_function: Material,
}

pub struct BVH {
    pub left: Box<Hittable>,
    pub right: Option<Box<Hittable>>,
    pub bounding_box: AABB,
}

pub enum Hittable {
    Sphere(Sphere),
    Quad(Quad),
    Composite(HittableComposite),
    Translate(Translate),
    RotateY(RotateY),
    ConstantMedium(ConstantMedium),
    Bvh(BVH),
}

/// The running union of the boxes of the first `n` objects of a list,
/// starting from the empty box.
pub open spec fn union_up_to(s: Seq<Hittable>, n: int) -> AABB
    decreases n,
{
    if n <= 0 {
        AABB {
            x: Interval { min: crate::interval::FP_INF, max: (-crate::interval::FP_INF) as i64 },
            y: Interval { min: crate::interval::FP_INF, max: (-crate::interval::FP_INF) as i64 },
            z: Interval { min: crate::interval::FP_INF, max: (-crate::interval::FP_INF) as i64 },
        }
    } else {
        spec_unite_aabb(union_up_to(s, n - 1), spec_bounding_box(s[n - 1]))
    }
}

/// Every object of a list is well formed.
pub open spec fn all_wf(s: Seq<Hittable>) -> bool
    decreases s,
{
    forall|i: int| 0 <= i < s.len() ==> hittable_wf(#[trigger] s[i])
}

/// Every object of a list satisfies the tree invariant.
pub open spec fn all_tree_ok(s: Seq<Hittable>) -> bool
    decreases s,
{
    forall|i: int| 0 <= i < s.len() ==> bvh_tree_ok(#[trigger] s[i])
}

/// Geometric well-formedness, recursively: coordinates bounded, materials
/// and children well formed, stored normals at unit scale.
pub open spec fn hittable_wf(h: Hittable) -> bool
    decreases h,
{
    match h {
        Hittable::Sphere(s) => within(s.center, VMAX as int) && 0 < s.radius <= VMAX
            && material_wf(s.material) && aabb_wf(s.bounding_box),
        Hittable::Quad(q) => within(q.bottom_left, (VMAX / 2) as int) && within(
            q.u,
            (VMAX / 2) as int,
        ) && within(q.v, (VMAX / 2) as int) && unit_wf(q.normal) && within(
            q.normal,
            2 * SCALE as int,
        ) && abs_int(q.d as int) <= 4 * VMAX && within(q.n, 0x800000000000) && dot_raw(q.n, q.n)
            >= 1 && material_wf(q.material) && aabb_sorted(q.bounding_box) && aabb_within(
            q.bounding_box,
            BMAX as int + crate::aabb::PAD_DELTA as int,
        ),
        Hittable::Composite(c) => all_wf(c.objects@),
        Hittable::Translate(t) => within(t.offset, VMAX as int) && hittable_wf(*t.object),
        Hittable::RotateY(r) => abs_int(r.sin_theta as int) <= SCALE && abs_int(
            r.cos_theta as int,
        ) <= SCALE && hittable_wf(*r.object),
        Hittable::ConstantMedium(m) => 0 < m.inv_density <= VMAX && material_wf(m.phase_function)
            && hittable_wf(*m.boundry),
        Hittable::Bvh(b) => aabb_within(
            b.bounding_box,
            BMAX as int + crate::aabb::PAD_DELTA as int,
        ) && hittable_wf(*b.left) && (b.right matches Some(rr) ==> hittable_wf(*rr)),
    }
}

/// Pseudo-angle of the planar vector `(a, b)`: piecewise-rational, strictly
/// monotone in the true angle, exact on the axes, in `[0, 4]`.
pub open spec fn spec_diamond_angle(a: int, b: int) -> int {
    if a == 0 && b == 0 {
        0
    } else if a > 0 && b >= 0 {
        fdiv(b, a + b)
    } else if a <= 0 && b > 0 {
        SCALE + fdiv(-a, -a + b)
    } else if a < 0 && b <= 0 {
        2 * SCALE + fdiv(-b, -a - b)
    } else {
        3 * SCALE + fdiv(a, a - b)
    }
}

/// Longitude of a unit-scale point, by the pseudo-angle of `(-x, z)` over
/// four.
pub open spec fn spec_sphere_u(p: Vec3) -> int {
    spec_diamond_angle(-p.x, p.z as int) / 4
}

/// Latitude of a unit-scale point, linear in the cosine: `(1 + y) / 2` with
/// `y` clamped to unit range.
pub open spec fn spec_sphere_v(p: Vec3) -> int {
    (SCALE + (if p.y < -SCALE {
        -SCALE as int
    } else if p.y > SCALE {
        SCALE as int
    } else {
        p.y as int
    })) / 2
}

/// One quadrant's rational part of the pseudo-angle is in `[0, 1]`.
proof fn lemma_diamond_frac(num: int, den: int)
    requires
        0 <= num <= den,
        0 < den,
    ensures
        0 <= fdiv(num, den) <= SCALE,
{
    lemma_quot_nonneg(num * (SCALE as int), den);
    lemma_abs_mul_bound(num, SCALE as int, den, SCALE as int);
    vstd::arithmetic::div_mod::lemma_div_is_ordered(
        num * (SCALE as int),
        den * (SCALE as int),
        den,
    );
    assert(num * (SCALE as int) <= den * (SCALE as int)) by (nonlinear_arith)
        requires
            0 <= num <= den,
    ;
    vstd::arithmetic::div_mod::lemma_div_multiples_vanish(SCALE as int, den);
    assert(den * (SCALE as int) == (SCALE as int) * den) by (nonlinear_arith);
}

fn diamond_angle(a: i64, b: i64) -> (r: i64)
    requires
        abs_int(a as int) <= 2 * SCALE,
        abs_int(b as int) <= 2 * SCALE,
    ensures
        r == spec_diamond_angle(a as int, b as int),
        0 <= r <= 4 * SCALE,
{
    if a == 0 && b == 0 {
        0
    } else if a > 0 && b >= 0 {
        proof {
            lemma_diamond_frac(b as int, a + b);
        }
        fp_div(b, a + b)
    } else if a <= 0 && b > 0 {
        proof {
            lemma_diamond_frac(-a as int, -a + b);
        }
        SCALE + fp_div(-a, -a + b)
    } else if a < 0 && b <= 0 {
        proof {
            lemma_diamond_frac(-b as int, -a - b);
        }
        2 * SCALE + fp_div(-b, -a - b)
    } else {
        proof {
            lemma_diamond_frac(a as int, a - b);
        }
        3 * SCALE + fp_div(a, a - b)
    }
}

/// Surface coordinates of a unit-scale point on the sphere: a pseudo-angle
/// longitude and a cosine-linear latitude, both in `[0, 1]`.
pub fn get_sphere_uv(p: &Vec3) -> (r: (i64, i64))
    requires
        within(*p, 2 * SCALE as int),
    ensures
        r.0 == spec_sphere_u(*p),
        r.1 == spec_sphere_v(*p),
        0 <= r.0 <= SCALE,
        0 <= r.1 <= SCALE,
{
    let d = diamond_angle(-p.x, p.z);
    let u = d / 4;
    let yc = if p.y < -SCALE {
        -SCALE
    } else if p.y > SCALE {
        SCALE
    } else {
        p.y
    };
    let v = (SCALE + yc) / 2;
    (u, v)
}

/// The discriminant of the sphere quadratic, over unscaled spec integers.
pub open spec fn sph_half_b(s: Sphere, ray: Ray) -> int {
    spec_dot(ray.direction, spec_sub(ray.origin, s.center))
}

pub open spec fn sph_a(ray: Ray) -> int {
    spec_len_sq(ray.direction)
}

pub open spec fn sph_c(s: Sphere, ray: Ray) -> int {
    spec_len_sq(spec_sub(ray.origin, s.center)) - fmul(s.radius as int, s.radius as int)
}

pub open spec fn sph_disc(s: Sphere, ray: Ray) -> int {
    sph_half_b(s, ray) * sph_half_b(s, ray) - sph_a(ray) * sph_c(s, ray)
}

/// The two candidate roots, nearer first.
pub open spec fn sph_root1(s: Sphere, ray: Ray) -> int {
    quot_trunc((-sph_half_b(s, ray) - sqrt_floor(sph_disc(s, ray))) * (SCALE as int), sph_a(ray))
}

pub open spec fn sph_root2(s: Sphere, ray: Ray) -> int {
    quot_trunc((-sph_half_b(s, ray) + sqrt_floor(sph_disc(s, ray))) * (SCALE as int), sph_a(ray))
}

/// A candidate parameter is accepted when it lies strictly inside the ray
/// interval and within numeric range.
pub open spec fn t_accept(t: int, ri: Interval) -> bool {
    ri.min < t < ri.max && -TMAX <= t <= TMAX
}

/// The parameter the sphere intersection reports: the nearer root if
/// acceptable, else the farther, else nothing; the hit point must also lie
/// in the representable world.
pub open spec fn spec_sphere_hit(s: Sphere, ray: Ray, ri: Interval) -> Option<int> {
    if sph_disc(s, ray) < 0 {
        None
    } else {
        let t = if t_accept(sph_root1(s, ray), ri) {
            Some(sph_root1(s, ray))
        } else if t_accept(sph_root2(s, ray), ri) {
            Some(sph_root2(s, ray))
        } else {
            None
        };
        match t {
            Some(tv) => if within(spec_at(ray, tv), VMAX as int) && spec_len_sq(
                spec_sub(spec_at(ray, tv), s.center),
            ) >= 1 {
                Some(tv)
            } else {
                None
            },
            None => None,
        }
    }
}

impl Sphere {
    pub fn new(center: Point3, radius: i64, material: Material) -> (r: Sphere)
        requires
            within(center, (VMAX / 2) as int),
            0 < radius <= VMAX / 2,
            material_wf(material),
        ensures
            r.center == center,
            r.radius == radius,
            r.material == material,
            hittable_wf(Hittable::Sphere(r)),
            r.bounding_box == (AABB {
                x: Interval {
                    min: (center.x - radius) as i64,
                    max: (center.x + radius) as i64,
                },
                y: Interval {
                    min: (center.y - radius) as i64,
                    max: (center.y + radius) as i64,
                },
                z: Interval {
                    min: (center.z - radius) as i64,
                    max: (center.z + radius) as i64,
                },
            }),
    {
        let radius_vec = Vec3 { x: radius, y: radius, z: radius };
        let lo = center.sub(&radius_vec);
        let hi = center.add(&radius_vec);
        let bounding_box = AABB::new_from_points(lo, hi);
        Sphere { center, radius, material, bounding_box }
    }

    /// Solve the quadratic for the ray against this sphere, probing the
    /// nearer root first; the contract mirrors the computation exactly.
    pub fn hit<'a>(&'a self, ray: &Ray, ray_interval: Interval) -> (r: Option<HitRecord<'a>>)
        requires
            within(self.center, VMAX as int),
            0 < self.radius <= VMAX,
            within(ray.origin, RMAX as int),
            within(ray.direction, RMAX as int),
            spec_len_sq(ray.direction) >= 1,
        ensures
            (r is Some) == (spec_sphere_hit(*self, *ray, ray_interval) is Some),
            r matches Some(rec) ==> {
                let onormal = spec_unit_dir(spec_sub(rec.point, self.center));
                spec_sphere_hit(*self, *ray, ray_interval) == Some(rec.t as int) && rec.point
                    == spec_at(*ray, rec.t as int) && rec.front_face == (spec_dot(
                    ray.direction,
                    onormal,
                ) < 0) && (rec.front_face ==> rec.normal == onormal) && (!rec.front_face
                    ==> rec.normal == spec_neg(onormal)) && rec.material == &self.material
                    && rec.u == spec_sphere_u(onormal) && rec.v == spec_sphere_v(onormal)
                    && ray_interval.min < rec.t < ray_interval.max && abs_int(rec.t as int) <= TMAX
                    && within(rec.point, VMAX as int) && unit_wf(rec.normal) && within(
                    rec.normal,
                    2 * SCALE as int,
                ) && 0 <= rec.u <= SCALE && 0 <= rec.v <= SCALE
            },
    {
        proof {
            lemma_dot_bound(ray.direction, ray.direction, RMAX as int);
            lemma_len_sq_nonneg(ray.direction);
        }
        let oc = ray.origin.sub(&self.center);
        let a = ray.direction.length_squared();
        proof {
            lemma_dot_bound(ray.direction, oc, 0x300000000);
            lemma_dot_bound(oc, oc, 0x300000000);
            lemma_len_sq_nonneg(oc);
            lemma_fmul_bound(self.radius as int, self.radius as int, VMAX as int, VMAX as int);
        }
        let half_b = ray.direction.dot(&oc);
        let c = oc.length_squared() - fp_mul(self.radius, self.radius);
        proof {
            assert((3 * 0x300000000int * 0x300000000) / 65536 < 0x20000000000000)
                by (nonlinear_arith);
            assert((3 * 0x200000000int * 0x200000000) / 65536 < 0x10000000000000)
                by (nonlinear_arith);
            assert((VMAX as int * VMAX as int) / 65536 < 0x20000000000000) by (nonlinear_arith);
            lemma_abs_mul_bound(half_b as int, half_b as int, 0x20000000000000, 0x20000000000000);
            lemma_abs_mul_bound(a as int, c as int, 0x10000000000000, 0x40000000000000);
        }
        let disc: i128 = (half_b as i128) * (half_b as i128) - (a as i128) * (c as i128);
        if disc < 0 {
            return None;
        }
        assert(disc < 0x1000000000000000000000000000) by (nonlinear_arith)
            requires
                disc <= 0x20000000000000 * 0x20000000000000 + 0x10000000000000 * 0x40000000000000,
        ;
        let sq: u128 = crate::fixed::isqrt(disc as u128);
        proof {
            crate::fixed::lemma_sqrt_floor_unique(disc as int, sq as int);
            assert(sq < 0x80000000000000) by (nonlinear_arith)
                requires
                    (sq as int) * (sq as int) <= disc,
                    disc < 0x1000000000000000000000000000,
                    sq >= 0,
            ;
        }
        let num1: i128 = -(half_b as i128) - (sq as i128);
        let num2: i128 = -(half_b as i128) + (sq as i128);
        proof {
            lemma_abs_mul_bound(num1 as int, SCALE as int, 0x100000000000000, SCALE as int);
            lemma_abs_mul_bound(num2 as int, SCALE as int, 0x100000000000000, SCALE as int);
        }
        let root1: i128 = crate::fixed::quot_wide(num1 * (SCALE as i128), a as i128);
        let root2: i128 = crate::fixed::quot_wide(num2 * (SCALE as i128), a as i128);
        let lo: i128 = ray_interval.min as i128;
        let hi: i128 = ray_interval.max as i128;
        let root: i128 = if lo < root1 && root1 < hi && -(TMAX as i128) <= root1 && root1 <= (
        TMAX as i128) {
            root1
        } else if lo < root2 && root2 < hi && -(TMAX as i128) <= root2 && root2 <= (TMAX as i128) {
            root2
        } else {
            return None;
        };
        let t: i64 = root as i64;
        proof {
            lemma_abs_mul_bound(ray.direction.x as int, t as int, RMAX as int, TMAX as int);
            lemma_abs_mul_bound(ray.direction.y as int, t as int, RMAX as int, TMAX as int);
            lemma_abs_mul_bound(ray.direction.z as int, t as int, RMAX as int, TMAX as int);
            lemma_quot_bound(ray.direction.x * t, SCALE as int, (RMAX as int) * (TMAX as int));
            lemma_quot_bound(ray.direction.y * t, SCALE as int, (RMAX as int) * (TMAX as int));
            lemma_quot_bound(ray.direction.z * t, SCALE as int, (RMAX as int) * (TMAX as int));
            assert(((RMAX as int) * (TMAX as int)) / (SCALE as int) <= 0x3fffffffffffffff)
                by (nonlinear_arith);
        }
        let point = ray.at(t);
        let vb = VMAX;
        if !(point.x <= vb && -vb <= point.x && point.y <= vb && -vb <= point.y && point.z <= vb
            && -vb <= point.z) {
            return None;
        }
        let diff = point.sub(&self.center);
        proof {
            lemma_dot_bound(diff, diff, 0x200000000);
            lemma_len_sq_nonneg(diff);
        }
        if diff.length_squared() < 1 {
            return None;
        }
        let onormal = diff.unit_dir();
        let uv = get_sphere_uv(&onormal);
        Some(HitRecord::new(point, onormal, &self.material, t, uv.0, uv.1, ray))
    }

    pub fn bounding_box(&self) -> (r: AABB)
        ensures
            r == self.bounding_box,
    {
        self.bounding_box
    }
}

/// The plane basis vector of a quad: the cross product of its edges, or the
/// vertical axis when the edges degenerate.
pub open spec fn spec_quad_basis(u: Vec3, v: Vec3) -> Vec3 {
    let c = spec_cross(u, v);
    if dot_raw(c, c) >= 1 {
        c
    } else {
        Vec3 { x: 0i64, y: SCALE, z: 0i64 }
    }
}

/// A planar barycentric-like coordinate: `(n . (a x b)) / (n . n)` over raw
/// integer products, rescaled once at the division.
pub open spec fn spec_quad_coord(n: Vec3, a: Vec3, b: Vec3) -> int {
    quot_trunc(
        n.x * (a.y * b.z - a.z * b.y) + n.y * (a.z * b.x - a.x * b.z) + n.z * (a.x * b.y - a.y
            * b.x),
        dot_raw(n, n),
    )
}

/// The quad intersection: a plane hit inside the ray interval whose planar
/// coordinates both land in `[0, 1]`; rays parallel to the plane miss.
pub open spec fn spec_quad_hit(q: Quad, ray: Ray, ri: Interval) -> Option<(int, int, int)> {
    let denom = spec_dot(q.normal, ray.direction);
    if abs_int(denom) < crate::vec3::NEAR_ZERO_THRESHOLD as int {
        None
    } else {
        let t = quot_trunc((q.d - spec_dot(q.normal, ray.origin)) * (SCALE as int), denom);
        if !(ri.min <= t <= ri.max) || abs_int(t) > TMAX as int {
            None
        } else {
            let p = spec_at(ray, t);
            if !within(p, VMAX as int) {
                None
            } else {
                let planar = spec_sub(p, q.bottom_left);
                let alpha = spec_quad_coord(q.n, planar, q.v);
                let beta = spec_quad_coord(q.n, q.u, planar);
                if alpha < 0 || alpha > SCALE as int || beta < 0 || beta > SCALE as int {
                    None
                } else {
                    Some((t, alpha, beta))
                }
            }
        }
    }
}

fn quad_coord(n: &Vec3, a: &Vec3, b: &Vec3) -> (r: i128)
    requires
        within(*n, 0x800000000000),
        within(*a, 0x400000000),
        within(*b, 0x400000000),
        dot_raw(*n, *n) >= 1,
    ensures
        r == spec_quad_coord(*n, *a, *b),
{
    proof {
        lemma_abs_mul_bound(a.y as int, b.z as int, 0x400000000, 0x400000000);
        lemma_abs_mul_bound(a.z as int, b.y as int, 0x400000000, 0x400000000);
        lemma_abs_mul_bound(a.z as int, b.x as int, 0x400000000, 0x400000000);
        lemma_abs_mul_bound(a.x as int, b.z as int, 0x400000000, 0x400000000);
        lemma_abs_mul_bound(a.x as int, b.y as int, 0x400000000, 0x400000000);
        lemma_abs_mul_bound(a.y as int, b.x as int, 0x400000000, 0x400000000);
        assert(0x400000000int * 0x400000000 == 0x100000000000000000) by (nonlinear_arith);
    }
    let cx: i128 = (a.y as i128) * (b.z as i128) - (a.z as i128) * (b.y as i128);
    let cy: i128 = (a.z as i128) * (b.x as i128) - (a.x as i128) * (b.z as i128);
    let cz: i128 = (a.x as i128) * (b.y as i128) - (a.y as i128) * (b.x as i128);
    proof {
        lemma_abs_mul_bound(n.x as int, cx as int, 0x800000000000, 0x200000000000000000);
        lemma_abs_mul_bound(n.y as int, cy as int, 0x800000000000, 0x200000000000000000);
        lemma_abs_mul_bound(n.z as int, cz as int, 0x800000000000, 0x200000000000000000);
        lemma_abs_mul_bound(n.x as int, n.x as int, 0x800000000000, 0x800000000000);
        lemma_abs_mul_bound(n.y as int, n.y as int, 0x800000000000, 0x800000000000);
        lemma_abs_mul_bound(n.z as int, n.z as int, 0x800000000000, 0x800000000000);
    }
    let num: i128 = (n.x as i128) * cx + (n.y as i128) * cy + (n.z as i128) * cz;
    let nn: i128 = (n.x as i128) * (n.x as i128) + (n.y as i128) * (n.y as i128) + (n.z as i128)
        * (n.z as i128);
    crate::fixed::quot_wide(num, nn)
}

impl Quad {
    /// A quad from its corner and two edge vectors; the plane data and the
    /// padded bounding box are precomputed.
    pub fn new(bottom_left: Point3, u: Vec3, v: Vec3, material: Material) -> (r: Quad)
        requires
            within(bottom_left, (VMAX / 2) as int),
            within(u, (VMAX / 2) as int),
            within(v, (VMAX / 2) as int),
            material_wf(material),
        ensures
            r.bottom_left == bottom_left,
            r.u == u,
            r.v == v,
            r.material == material,
            r.n == spec_quad_basis(u, v),
            r.normal == crate::vec3::spec_normalize_wide(spec_quad_basis(u, v)),
            r.d == spec_dot(r.normal, bottom_left),
            hittable_wf(Hittable::Quad(r)),
            r.bounding_box == crate::aabb::spec_pad(
                crate::aabb::spec_corner_box(
                    bottom_left,
                    spec_add(spec_add(bottom_left, u), v),
                ),
            ),
            r.bounding_box.x.max - r.bounding_box.x.min >= crate::aabb::PAD_DELTA,
            r.bounding_box.y.max - r.bounding_box.y.min >= crate::aabb::PAD_DELTA,
            r.bounding_box.z.max - r.bounding_box.z.min >= crate::aabb::PAD_DELTA,
            aabb_sorted(r.bounding_box),
    {
        proof {
            lemma_cross_bound(u, v, (VMAX / 2) as int);
            assert((2 * ((VMAX / 2) as int) * ((VMAX / 2) as int)) / (SCALE as int)
                == 0x800000000000) by (nonlinear_arith);
            lemma_abs_mul_bound(u.x as int, v.y as int, (VMAX / 2) as int, (VMAX / 2) as int);
            lemma_abs_mul_bound(u.x as int, v.z as int, (VMAX / 2) as int, (VMAX / 2) as int);
            lemma_abs_mul_bound(u.y as int, v.x as int, (VMAX / 2) as int, (VMAX / 2) as int);
            lemma_abs_mul_bound(u.y as int, v.z as int, (VMAX / 2) as int, (VMAX / 2) as int);
            lemma_abs_mul_bound(u.z as int, v.x as int, (VMAX / 2) as int, (VMAX / 2) as int);
            lemma_abs_mul_bound(u.z as int, v.y as int, (VMAX / 2) as int, (VMAX / 2) as int);
            assert(((VMAX / 2) as int) * ((VMAX / 2) as int) == 0x4000000000000000)
                by (nonlinear_arith);
            lemma_quot_bound(u.y * v.z - u.z * v.y, SCALE as int, 0x8000000000000000);
            lemma_quot_bound(u.z * v.x - u.x * v.z, SCALE as int, 0x8000000000000000);
            lemma_quot_bound(u.x * v.y - u.y * v.x, SCALE as int, 0x8000000000000000);
        }
        let raw_n = u.cross(&v);
        proof {
            lemma_abs_mul_bound(raw_n.x as int, raw_n.x as int, 0x800000000000, 0x800000000000);
            lemma_abs_mul_bound(raw_n.y as int, raw_n.y as int, 0x800000000000, 0x800000000000);
            lemma_abs_mul_bound(raw_n.z as int, raw_n.z as int, 0x800000000000, 0x800000000000);
        }
        let nn: i128 = (raw_n.x as i128) * (raw_n.x as i128) + (raw_n.y as i128) * (raw_n.y
            as i128) + (raw_n.z as i128) * (raw_n.z as i128);
        let n = if nn >= 1 {
            raw_n
        } else {
            Vec3 { x: 0, y: SCALE, z: 0 }
        };
        proof {
            assert((SCALE as int) * (SCALE as int) >= 1) by (nonlinear_arith);
        }
        let normal = n.normalize_wide();
        proof {
            crate::vec3::lemma_dot_bound_mixed(normal, bottom_left, 2 * SCALE as int, (VMAX
                / 2) as int);
            assert((3 * ((2 * SCALE as int) * ((VMAX / 2) as int))) / (SCALE as int) == 3 * (
            VMAX as int)) by (nonlinear_arith);
        }
        let d = normal.dot(&bottom_left);
        let corner = bottom_left.add(&u).add(&v);
        let bounding_box = AABB::new_from_points(bottom_left, corner).pad();
        Quad { bottom_left, u, v, normal, d, n, material, bounding_box }
    }

    /// Intersect the ray with the quad's plane, then test the planar
    /// coordinates; the contract mirrors the computation exactly.
    pub fn hit<'a>(&'a self, ray: &Ray, ray_interval: Interval) -> (r: Option<HitRecord<'a>>)
        requires
            within(self.bottom_left, (VMAX / 2) as int),
            within(self.u, (VMAX / 2) as int),
            within(self.v, (VMAX / 2) as int),
            unit_wf(self.normal),
            within(self.normal, 2 * SCALE as int),
            abs_int(self.d as int) <= 4 * VMAX,
            within(self.n, 0x800000000000),
            dot_raw(self.n, self.n) >= 1,
            within(ray.origin, RMAX as int),
            within(ray.direction, RMAX as int),
            spec_len_sq(ray.direction) >= 1,
        ensures
            (r is Some) == (spec_quad_hit(*self, *ray, ray_interval) is Some),
            r matches Some(rec) ==> {
                spec_quad_hit(*self, *ray, ray_interval) == Some(
                    (rec.t as int, rec.u as int, rec.v as int),
                ) && rec.point == spec_at(*ray, rec.t as int) && rec.front_face == (spec_dot(
                    ray.direction,
                    self.normal,
                ) < 0) && (rec.front_face ==> rec.normal == self.normal) && (!rec.front_face
                    ==> rec.normal == spec_neg(self.normal)) && rec.material == &self.material
                    && ray_interval.min <= rec.t <= ray_interval.max && abs_int(rec.t as int)
                    <= TMAX && within(rec.point, VMAX as int) && unit_wf(rec.normal) && within(
                    rec.normal,
                    2 * SCALE as int,
                ) && 0 <= rec.u <= SCALE && 0 <= rec.v <= SCALE
            },
    {
        proof {
            crate::vec3::lemma_dot_bound_mixed(self.normal, ray.direction, 2 * SCALE as int,
                RMAX as int);
            crate::vec3::lemma_dot_bound_mixed(self.normal, ray.origin, 2 * SCALE as int,
                RMAX as int);
            assert((3 * ((2 * SCALE as int) * (RMAX as int))) / (SCALE as int) == 6 * (
            RMAX as int)) by (nonlinear_arith);
        }
        let denom = self.normal.dot(&ray.direction);
        let adenom = if denom >= 0 {
            denom
        } else {
            -denom
        };
        if adenom < crate::vec3::NEAR_ZERO_THRESHOLD {
            return None;
        }
        let num: i64 = self.d - self.normal.dot(&ray.origin);
        proof {
            lemma_abs_mul_bound(num as int, SCALE as int, 0x2000000000, SCALE as int);
        }
        let t_wide: i128 = crate::fixed::quot_wide((num as i128) * (SCALE as i128), denom as i128);
        if !(ray_interval.min as i128 <= t_wide && t_wide <= ray_interval.max as i128) || t_wide
            > TMAX as i128 || t_wide < -(TMAX as i128) {
            return None;
        }
        let t: i64 = t_wide as i64;
        proof {
            lemma_abs_mul_bound(ray.direction.x as int, t as int, RMAX as int, TMAX as int);
            lemma_abs_mul_bound(ray.direction.y as int, t as int, RMAX as int, TMAX as int);
            lemma_abs_mul_bound(ray.direction.z as int, t as int, RMAX as int, TMAX as int);
            lemma_quot_bound(ray.direction.x * t, SCALE as int, (RMAX as int) * (TMAX as int));
            lemma_quot_bound(ray.direction.y * t, SCALE as int, (RMAX as int) * (TMAX as int));
            lemma_quot_bound(ray.direction.z * t, SCALE as int, (RMAX as int) * (TMAX as int));
            assert(((RMAX as int) * (TMAX as int)) / (SCALE as int) <= 0x3fffffffffffffff)
                by (nonlinear_arith);
        }
        let point = ray.at(t);
        let vb = VMAX;
        if !(point.x <= vb && -vb <= point.x && point.y <= vb && -vb <= point.y && point.z <= vb
            && -vb <= point.z) {
            return None;
        }
        let planar = point.sub(&self.bottom_left);
        let alpha_wide = quad_coord(&self.n, &planar, &self.v);
        let beta_wide = quad_coord(&self.n, &self.u, &planar);
        if alpha_wide < 0 || alpha_wide > SCALE as i128 || beta_wide < 0 || beta_wide > (
        SCALE as i128) {
            return None;
        }
        let alpha: i64 = alpha_wide as i64;
        let beta: i64 = beta_wide as i64;
        Some(HitRecord::new(point, self.normal, &self.material, t, alpha, beta, ray))
    }

    pub fn bounding_box(&self) -> (r: AABB)
        ensures
            r == self.bounding_box,
    {
        self.bounding_box
    }
}

/// Threshold below which a boundary re-entry probe starts, about 1e-4.
pub const MEDIUM_EPS: i64 = 7;

/// A plain tree: spheres, quads, composites and tree nodes only — no media
/// (whose hits draw randomness) and no instancing transforms. On plain
/// trees intersection is a function of the ray and interval alone.
pub open spec fn plain(h: Hittable) -> bool
    decreases h,
{
    match h {
        Hittable::Sphere(_) => true,
        Hittable::Quad(_) => true,
        Hittable::Composite(c) => all_plain(c.objects@),
        Hittable::Translate(t) => plain(*t.object),
        Hittable::Bvh(b) => plain(*b.left) && (b.right matches Some(rn) ==> plain(*rn)),
        _ => false,
    }
}

/// Every object of a list is plain.
pub open spec fn all_plain(s: Seq<Hittable>) -> bool
    decreases s,
{
    forall|i: int| 0 <= i < s.len() ==> plain(#[trigger] s[i])
}

/// The ray parameter a plain tree reports, as a function of the ray and the
/// interval: the deterministic mirror of `hit`.
pub open spec fn det_hit_t(h: Hittable, ray: Ray, ri: Interval) -> Option<int>
    decreases h, 1int,
{
    match h {
        Hittable::Sphere(s) => spec_sphere_hit(s, ray, ri),
        Hittable::Quad(q) => match spec_quad_hit(q, ray, ri) {
            Some(tab) => Some(tab.0),
            None => None,
        },
        Hittable::Composite(c) => det_scan(c.objects@, ray, ri),
        Hittable::Translate(t) => {
            let no = spec_sub(ray.origin, t.offset);
            if !within(no, RMAX as int) {
                None
            } else {
                let moved = Ray { origin: no, direction: ray.direction, time: ray.time };
                match det_hit_t(*t.object, moved, ri) {
                    Some(tv) => if within(
                        spec_add(spec_at(moved, tv), t.offset),
                        VMAX as int,
                    ) {
                        Some(tv)
                    } else {
                        None
                    },
                    None => None,
                }
            }
        },
        Hittable::Bvh(b) => if !spec_aabb_hit(b.bounding_box, ray, ri) {
            None
        } else {
            match b.right {
                None => det_hit_t(*b.left, ray, ri),
                Some(rn) => match det_hit_t(*b.left, ray, ri) {
                    Some(t1) => match det_hit_t(
                        *rn,
                        ray,
                        Interval { min: ri.min, max: t1 as i64 },
                    ) {
                        Some(t2) => Some(t2),
                        None => Some(t1),
                    },
                    None => det_hit_t(*rn, ray, ri),
                },
            }
        },
        _ => None,
    }
}

/// The scan a composite performs: try each object in turn, shrinking the
/// interval's far end to the best parameter found so far.
pub open spec fn det_scan(objs: Seq<Hittable>, ray: Ray, ri: Interval) -> Option<int>
    decreases objs, 0int,
{
    if objs.len() == 0 {
        None
    } else {
        match det_hit_t(objs[0], ray, ri) {
            Some(t0) => match det_scan(
                objs.drop_first(),
                ray,
                Interval { min: ri.min, max: t0 as i64 },
            ) {
                Some(t1) => Some(t1),
                None => Some(t0),
            },
            None => det_scan(objs.drop_first(), ray, ri),
        }
    }
}

/// The medium's scattering decision for one drawn unit-exponential: with
/// entry and exit parameters `t1 < t2` (already clamped into the query
/// interval), ray length `rl` and inverse density, the sampled distance is
/// `draw * inv_density`; it scatters iff that distance fits inside the
/// boundary segment, at `t1 + distance / rl`, rejecting numeric overruns.
pub open spec fn spec_medium_t(t1: int, t2: int, rl: int, draw: int, inv_density: int) -> Option<
    int,
> {
    let hd = fmul(draw, inv_density);
    let dist_inside = quot_trunc((t2 - t1) * rl, SCALE as int);
    if hd > dist_inside {
        None
    } else {
        let t = t1 + quot_trunc(hd * (SCALE as int), rl);
        if t > t2 {
            None
        } else {
            Some(t)
        }
    }
}

/// The medium's scattering parameter, deterministic in the drawn
/// exponential; mirrored exactly, and any reported parameter lies between
/// entry and exit.
pub fn medium_scatter_t(t1: i64, t2: i64, rl: i64, draw: i64, inv_density: i64) -> (r: Option<
    i64,
>)
    requires
        0 <= t1 < t2 <= TMAX,
        256 <= rl <= 0x400000000,
        0 <= draw <= 64 * SCALE,
        0 < inv_density <= VMAX,
    ensures
        (r is Some) == (spec_medium_t(t1 as int, t2 as int, rl as int, draw as int,
            inv_density as int) is Some),
        r matches Some(t) ==> spec_medium_t(
            t1 as int,
            t2 as int,
            rl as int,
            draw as int,
            inv_density as int,
        ) == Some(t as int) && t1 <= t <= t2,
{
    proof {
        lemma_fmul_bound(draw as int, inv_density as int, 64 * SCALE as int, VMAX as int);
        assert(((64 * SCALE as int) * (VMAX as int)) / (SCALE as int) == 64 * (VMAX as int))
            by (nonlinear_arith);
        crate::fixed::lemma_quot_nonneg(draw * inv_density, SCALE as int);
        assert(draw * inv_density >= 0) by (nonlinear_arith)
            requires
                draw >= 0,
                inv_density > 0,
        ;
        lemma_abs_mul_bound((t2 - t1) as int, rl as int, 0x200000000000, 0x400000000);
    }
    let hd = fp_mul(draw, inv_density);
    let dist_inside: i128 = crate::fixed::quot_wide(((t2 - t1) as i128) * (rl as i128),
        SCALE as i128);
    if (hd as i128) > dist_inside {
        return None;
    }
    proof {
        lemma_abs_mul_bound(hd as int, SCALE as int, 0x4000000000, SCALE as int);
        crate::fixed::lemma_quot_nonneg(hd * (SCALE as int), rl as int);
        assert(hd * (SCALE as int) >= 0) by (nonlinear_arith)
            requires
                hd >= 0,
        ;
    }
    let dt: i128 = crate::fixed::quot_wide((hd as i128) * (SCALE as i128), rl as i128);
    let t_wide: i128 = (t1 as i128) + dt;
    if t_wide > (t2 as i128) {
        return None;
    }
    Some(t_wide as i64)
}

/// The properties every reported hit satisfies: the parameter lies in the
/// queried interval and in numeric range, the point and normal are bounded,
/// the normal is unit scale, the material is well formed and the surface
/// coordinates lie in the unit square.
pub open spec fn hit_post(rec: HitRecord, ri: Interval) -> bool {
    ri.min <= rec.t <= ri.max && abs_int(rec.t as int) <= TMAX as int && within(
        rec.point,
        VMAX as int,
    ) && unit_wf(rec.normal) && within(rec.normal, 2 * SCALE as int) && material_wf(*rec.material)
        && 0 <= rec.u <= SCALE && 0 <= rec.v <= SCALE
}

/// The corner of a box selected by the low three bits of `k`.
pub open spec fn spec_box_corner(b: AABB, k: int) -> Vec3 {
    Vec3 {
        x: if k % 2 == 0 {
            b.x.min
        } else {
            b.x.max
        },
        y: if (k / 2) % 2 == 0 {
            b.y.min
        } else {
            b.y.max
        },
        z: if (k / 4) % 2 == 0 {
            b.z.min
        } else {
            b.z.max
        },
    }
}

/// Componentwise minimum.
pub open spec fn vec_min(a: Vec3, b: Vec3) -> Vec3 {
    Vec3 {
        x: if a.x <= b.x {
            a.x
        } else {
            b.x
        },
        y: if a.y <= b.y {
            a.y
        } else {
            b.y
        },
        z: if a.z <= b.z {
            a.z
        } else {
            b.z
        },
    }
}

/// Componentwise maximum.
pub open spec fn vec_max(a: Vec3, b: Vec3) -> Vec3 {
    Vec3 {
        x: if a.x >= b.x {
            a.x
        } else {
            b.x
        },
        y: if a.y >= b.y {
            a.y
        } else {
            b.y
        },
        z: if a.z >= b.z {
            a.z
        } else {
            b.z
        },
    }
}

/// The running extremes of the first `n` rotated corners of a box, seeded
/// at the world bounds.
pub open spec fn spec_rotated_corner_fold(cb: AABB, s: int, c: int, n: int) -> (Vec3, Vec3)
    decreases n,
{
    if n <= 0 {
        (Vec3 { x: BMAX, y: BMAX, z: BMAX }, Vec3 { x: (-BMAX) as i64, y: (-BMAX) as i64, z: (
        -BMAX) as i64 })
    } else {
        let prev = spec_rotated_corner_fold(cb, s, c, n - 1);
        let q = crate::vec3::spec_rotate_y(spec_box_corner(cb, n - 1), s, c);
        (vec_min(prev.0, q), vec_max(prev.1, q))
    }
}

/// A box shifted by a vector, axis by axis.
pub open spec fn spec_shift_box(b: AABB, v: Vec3) -> AABB {
    AABB {
        x: Interval { min: (b.x.min + v.x) as i64, max: (b.x.max + v.x) as i64 },
        y: Interval { min: (b.y.min + v.y) as i64, max: (b.y.max + v.y) as i64 },
        z: Interval { min: (b.z.min + v.z) as i64, max: (b.z.max + v.z) as i64 },
    }
}

/// The bounding box an object reports, as a spec value.
pub open spec fn spec_bounding_box(h: Hittable) -> AABB
    decreases h,
{
    match h {
        Hittable::Sphere(s) => s.bounding_box,
        Hittable::Quad(q) => q.bounding_box,
        Hittable::Composite(c) => c.bbox,
        Hittable::Translate(t) => t.bounding_box,
        Hittable::RotateY(rt) => rt.bounding_box,
        Hittable::ConstantMedium(m) => spec_bounding_box(*m.boundry),
        Hittable::Bvh(b) => b.bounding_box,
    }
}

/// The bounding-volume invariant of a built tree: every node's box is the
/// saturated union of its children's boxes, recursively.
pub open spec fn bvh_tree_ok(h: Hittable) -> bool
    decreases h,
{
    match h {
        Hittable::Bvh(b) => {
            let lb = spec_bounding_box(*b.left);
            let ub = match b.right {
                Some(rn) => spec_unite_aabb(lb, spec_bounding_box(*rn)),
                None => lb,
            };
            b.bounding_box == crate::aabb::spec_clamp_box(ub) && bvh_tree_ok(*b.left) && (
            b.right matches Some(rn) ==> bvh_tree_ok(*rn))
        },
        Hittable::Composite(c) => all_tree_ok(c.objects@),
        Hittable::Translate(t) => bvh_tree_ok(*t.object),
        Hittable::RotateY(rt) => bvh_tree_ok(*rt.object),
        Hittable::ConstantMedium(m) => bvh_tree_ok(*m.boundry),
        _ => true,
    }
}

/// The multiset of objects a tree holds: a tree node contributes its
/// children's objects, anything else is one object of its own.
pub open spec fn tree_elems(h: Hittable) -> Multiset<Hittable>
    decreases h,
{
    match h {
        Hittable::Bvh(b) => tree_elems(*b.left).add(
            match b.right {
                Some(rn) => tree_elems(*rn),
                None => Multiset::empty(),
            },
        ),
        _ => Multiset::empty().insert(h),
    }
}

/// The combined object multiset of a list.
pub open spec fn seq_elems(s: Seq<Hittable>) -> Multiset<Hittable>
    decreases s,
{
    if s.len() == 0 {
        Multiset::empty()
    } else {
        tree_elems(s[0]).add(seq_elems(s.drop_first()))
    }
}

/// Appending an object adds its elements.
proof fn lemma_seq_elems_push(s: Seq<Hittable>, x: Hittable)
    ensures
        seq_elems(s.push(x)) == seq_elems(s).add(tree_elems(x)),
    decreases s.len(),
{
    if s.len() == 0 {
        assert(s.push(x).len() == 1);
        assert(s.push(x)[0] == x);
        assert(s.push(x).drop_first() =~= Seq::<Hittable>::empty());
        assert(seq_elems(s.push(x).drop_first()) == Multiset::<Hittable>::empty());
        assert(seq_elems(s.push(x)) == tree_elems(x).add(Multiset::empty()));
        assert(seq_elems(s) == Multiset::<Hittable>::empty());
        assert(tree_elems(x).add(Multiset::empty()) =~= Multiset::empty().add(tree_elems(x)));
    } else {
        assert(s.push(x)[0] == s[0]);
        assert(s.push(x).drop_first() =~= s.drop_first().push(x));
        lemma_seq_elems_push(s.drop_first(), x);
        assert(seq_elems(s.push(x)) =~= seq_elems(s).add(tree_elems(x)));
    }
}

/// Removing the object at `i` takes its elements away.
proof fn lemma_seq_elems_remove(s: Seq<Hittable>, i: int)
    requires
        0 <= i < s.len(),
    ensures
        seq_elems(s) == tree_elems(s[i]).add(seq_elems(s.remove(i))),
    decreases i,
{
    if i == 0 {
        assert(s.remove(0) =~= s.drop_first());
    } else {
        assert(s.remove(i)[0] == s[0]);
        assert(s.remove(i).drop_first() =~= s.drop_first().remove(i - 1));
        lemma_seq_elems_remove(s.drop_first(), i - 1);
        assert(seq_elems(s) =~= tree_elems(s[i]).add(seq_elems(s.remove(i))));
    }
}

/// Concatenation combines the elements.
proof fn lemma_seq_elems_concat(s1: Seq<Hittable>, s2: Seq<Hittable>)
    ensures
        seq_elems(s1 + s2) == seq_elems(s1).add(seq_elems(s2)),
    decreases s1.len(),
{
    if s1.len() == 0 {
        assert(s1 + s2 =~= s2);
        assert(seq_elems(s1 + s2) =~= seq_elems(s1).add(seq_elems(s2)));
    } else {
        assert((s1 + s2)[0] == s1[0]);
        assert((s1 + s2).drop_first() =~= s1.drop_first() + s2);
        lemma_seq_elems_concat(s1.drop_first(), s2);
        assert(seq_elems(s1 + s2) =~= seq_elems(s1).add(seq_elems(s2)));
    }
}

/// A list without tree nodes contributes one element of its own per entry.
proof fn lemma_seq_elems_flat(s: Seq<Hittable>)
    requires
        forall|i: int| 0 <= i < s.len() ==> !((#[trigger] s[i]) is Bvh),
    ensures
        seq_elems(s).len() == s.len(),
        forall|x: Hittable| #[trigger] seq_elems(s).count(x) > 0 ==> s.contains(x),
    decreases s.len(),
{
    if s.len() > 0 {
        assert(!(s[0] is Bvh));
        assert(tree_elems(s[0]) == Multiset::empty().insert(s[0]));
        assert(forall|i: int|
            0 <= i < s.drop_first().len() ==> #[trigger] s.drop_first()[i] == s[i + 1]);
        lemma_seq_elems_flat(s.drop_first());
        assert forall|x: Hittable| #[trigger] seq_elems(s).count(x) > 0 implies s.contains(x) by {
            if seq_elems(s.drop_first()).count(x) > 0 {
                assert(s.drop_first().contains(x));
                let j = choose|j: int|
                    0 <= j < s.drop_first().len() && s.drop_first()[j] == x;
                assert(s[j + 1] == x);
            } else {
                assert(x == s[0]);
            }
        };
    }
}

/// In a well-built tree, the box of every object the tree holds, saturated
/// into the world, is contained in the root's box saturated likewise.
pub proof fn lemma_tree_ok_covers(h: Hittable)
    requires
        bvh_tree_ok(h),
    ensures
        forall|x: Hittable|
            #[trigger] tree_elems(h).count(x) > 0 ==> aabb_contained(
                crate::aabb::spec_clamp_box(spec_bounding_box(x)),
                crate::aabb::spec_clamp_box(spec_bounding_box(h)),
            ),
    decreases h,
{
    match h {
        Hittable::Bvh(b) => {
            lemma_tree_ok_covers(*b.left);
            let lb = spec_bounding_box(*b.left);
            let ub = match b.right {
                Some(rn) => spec_unite_aabb(lb, spec_bounding_box(*rn)),
                None => lb,
            };
            crate::aabb::lemma_clamp_box_id(b.bounding_box);
            assert forall|x: Hittable| #[trigger] tree_elems(h).count(x) > 0 implies aabb_contained(
                crate::aabb::spec_clamp_box(spec_bounding_box(x)),
                crate::aabb::spec_clamp_box(spec_bounding_box(h)),
            ) by {
                let cx = crate::aabb::spec_clamp_box(spec_bounding_box(x));
                if tree_elems(*b.left).count(x) > 0 {
                    assert(aabb_contained(cx, crate::aabb::spec_clamp_box(lb)));
                    crate::aabb::lemma_clamp_box_monotone(lb, ub);
                } else {
                    match b.right {
                        Some(rn) => {
                            lemma_tree_ok_covers(*rn);
                            let rb = spec_bounding_box(*rn);
                            assert(tree_elems(*rn).count(x) > 0);
                            assert(aabb_contained(cx, crate::aabb::spec_clamp_box(rb)));
                            crate::aabb::lemma_clamp_box_monotone(rb, ub);
                        },
                        None => {
                            assert(false);
                        },
                    }
                }
            };
        },
        _ => {
            assert forall|x: Hittable| #[trigger] tree_elems(h).count(x) > 0 implies aabb_contained(
                crate::aabb::spec_clamp_box(spec_bounding_box(x)),
                crate::aabb::spec_clamp_box(spec_bounding_box(h)),
            ) by {
                assert(x == h);
            };
        },
    }
}

/// In a built tree each child's box, saturated into the world, is contained
/// in its node's box; with a right child the node box is the saturated
/// union of the two child boxes.
pub proof fn lemma_bvh_bbox_contains(b: BVH)
    requires
        bvh_tree_ok(Hittable::Bvh(b)),
    ensures
        aabb_contained(
            crate::aabb::spec_clamp_box(spec_bounding_box(*b.left)),
            b.bounding_box,
        ),
        b.right matches Some(rn) ==> aabb_contained(
            crate::aabb::spec_clamp_box(spec_bounding_box(*rn)),
            b.bounding_box,
        ),
{
    let lb = spec_bounding_box(*b.left);
    match b.right {
        Some(rn) => {
            let rb = spec_bounding_box(*rn);
            crate::aabb::lemma_clamp_box_monotone(lb, spec_unite_aabb(lb, rb));
            crate::aabb::lemma_clamp_box_monotone(rb, spec_unite_aabb(lb, rb));
        },
        None => {
            crate::aabb::lemma_clamp_box_monotone(lb, lb);
        },
    }
}

impl Hittable {
    /// The bounding box of the object; a medium is bounded by its boundary.
    pub fn bounding_box(&self) -> (r: AABB)
        ensures
            r == spec_bounding_box(*self),
        decreases *self,
    {
        match self {
            Hittable::Sphere(s) => s.bounding_box,
            Hittable::Quad(q) => q.bounding_box,
            Hittable::Composite(c) => c.bbox,
            Hittable::Translate(t) => t.bounding_box,
            Hittable::RotateY(rt) => rt.bounding_box,
            Hittable::ConstantMedium(m) => m.boundry.bounding_box(),
            Hittable::Bvh(b) => b.bounding_box,
        }
    }

    /// Intersect a ray with the object over `ray_interval`. Media sample a
    /// random scattering distance, so the result is not a function of the
    /// arguments alone; every reported hit still satisfies `hit_post`.
    pub fn hit<'a>(&'a self, ray: &Ray, ray_interval: Interval, rng: &mut RngState) -> (r: Option<
        HitRecord<'a>,
    >)
        requires
            hittable_wf(*self),
            within(ray.origin, RMAX as int),
            within(ray.direction, RMAX as int),
            spec_len_sq(ray.direction) >= 1,
        ensures
            r matches Some(rec) ==> hit_post(rec, ray_interval),
            plain(*self) ==> ((r is Some) == (det_hit_t(*self, *ray, ray_interval) is Some)),
            plain(*self) ==> (r matches Some(rec) ==> det_hit_t(*self, *ray, ray_interval)
                == Some(rec.t as int)),
            plain(*self) ==> (r matches Some(rec) ==> rec.point == spec_at(*ray, rec.t as int)),
            *self matches Hittable::ConstantMedium(m) ==> (r matches Some(rec) ==> rec.front_face
                == true && rec.u == 0 && rec.v == 0 && *rec.material == m.phase_function
                && rec.normal == (Vec3 { x: SCALE, y: 0i64, z: 0i64 }) && rec.point == spec_at(
                *ray,
                rec.t as int,
            )),
        decreases *self,
    {
        let ghost isplain = plain(*self);
        match self {
            Hittable::Sphere(s) => s.hit(ray, ray_interval),
            Hittable::Quad(q) => q.hit(ray, ray_interval),
            Hittable::Composite(c) => {
                let mut result: Option<HitRecord<'a>> = None;
                let mut closest = ray_interval;
                let mut i: usize = 0;
                proof {
                    if isplain {
                        assert(c.objects@.skip(0) =~= c.objects@);
                    }
                }
                while i < c.objects.len()
                    invariant
                        *self == Hittable::Composite(*c),
                        isplain == plain(*self),
                        all_wf(c.objects@),
                        within(ray.origin, RMAX as int),
                        within(ray.direction, RMAX as int),
                        spec_len_sq(ray.direction) >= 1,
                        closest.min == ray_interval.min,
                        closest.max <= ray_interval.max,
                        result matches Some(rec) ==> hit_post(rec, ray_interval),
                        result matches Some(rec) ==> closest.max == rec.t,
                        isplain ==> all_plain(c.objects@),
                        isplain ==> (result matches Some(rec) ==> rec.point == spec_at(
                            *ray,
                            rec.t as int,
                        )),
                        isplain ==> det_scan(c.objects@, *ray, ray_interval) == (match result {
                            Some(rec) => match det_scan(
                                c.objects@.skip(i as int),
                                *ray,
                                closest,
                            ) {
                                Some(t) => Some(t),
                                None => Some(rec.t as int),
                            },
                            None => det_scan(c.objects@.skip(i as int), *ray, closest),
                        }),
                        i <= c.objects@.len(),
                    decreases c.objects@.len() - i,
                {
                    proof {
                        assert(decreases_to!(*self => self->Composite_0));
                        assert(self->Composite_0 == *c);
                        assert(decreases_to!(*c => c.objects));
                        assert(decreases_to!(c.objects => c.objects@));
                        assert(decreases_to!(c.objects@ => c.objects@[i as int]));
                        assert(decreases_to!(*self => c.objects@[i as int]));
                        assert(hittable_wf(c.objects@[i as int]));
                        if isplain {
                            assert(plain(c.objects@[i as int]));
                        }
                    }
                    let ghost prev_closest = closest;
                    let ghost prev_result_t: Option<int> = if result is Some {
                        Some(result->Some_0.t as int)
                    } else {
                        None
                    };
                    let ghost oi = i as int;
                    let candidate = c.objects[i].hit(ray, closest, rng);
                    proof {
                        if isplain {
                            assert(c.objects@.skip(oi).len() == c.objects@.len() - oi);
                            assert(c.objects@.skip(oi)[0] == c.objects@[oi]);
                            assert(c.objects@.skip(oi).drop_first() =~= c.objects@.skip(oi + 1));
                        }
                    }
                    match candidate {
                        Some(rec) => {
                            closest = Interval { min: closest.min, max: rec.t };
                            result = Some(rec);
                        },
                        None => {},
                    }
                    i = i + 1;
                    proof {
                        if isplain {
                            let objs = c.objects@;
                            let child = det_hit_t(objs[oi], *ray, prev_closest);
                            assert(det_scan(objs.skip(oi), *ray, prev_closest) == (match child {
                                Some(t0) => match det_scan(
                                    objs.skip(oi).drop_first(),
                                    *ray,
                                    Interval { min: prev_closest.min, max: t0 as i64 },
                                ) {
                                    Some(t1) => Some(t1),
                                    None => Some(t0),
                                },
                                None => det_scan(objs.skip(oi).drop_first(), *ray, prev_closest),
                            }));
                        }
                    }
                }
                proof {
                    if isplain {
                        assert(c.objects@.skip(c.objects@.len() as int).len() == 0);
                    }
                }
                result
            },
            Hittable::Translate(t) => {
                let new_origin = ray.origin.sub(&t.offset);
                let rb = RMAX;
                if !(new_origin.x <= rb && -rb <= new_origin.x && new_origin.y <= rb && -rb
                    <= new_origin.y && new_origin.z <= rb && -rb <= new_origin.z) {
                    return None;
                }
                let moved = Ray { origin: new_origin, direction: ray.direction, time: ray.time };
                match t.object.hit(&moved, ray_interval, rng) {
                    None => None,
                    Some(rec) => {
                        let new_point = rec.point.add(&t.offset);
                        proof {
                            if isplain {
                                assert(rec.point == spec_at(moved, rec.t as int));
                                assert(new_point == spec_add(
                                    spec_at(moved, rec.t as int),
                                    t.offset,
                                ));
                                let tv = rec.t as int;
                                lemma_abs_mul_bound(ray.direction.x as int, tv, RMAX as int,
                                    TMAX as int);
                                lemma_abs_mul_bound(ray.direction.y as int, tv, RMAX as int,
                                    TMAX as int);
                                lemma_abs_mul_bound(ray.direction.z as int, tv, RMAX as int,
                                    TMAX as int);
                                lemma_quot_bound(ray.direction.x * tv, SCALE as int, (
                                RMAX as int) * (TMAX as int));
                                lemma_quot_bound(ray.direction.y * tv, SCALE as int, (
                                RMAX as int) * (TMAX as int));
                                lemma_quot_bound(ray.direction.z * tv, SCALE as int, (
                                RMAX as int) * (TMAX as int));
                                assert(((RMAX as int) * (TMAX as int)) / (SCALE as int)
                                    <= 0x3fffffffffffffff) by (nonlinear_arith);
                                assert(spec_add(spec_at(moved, tv), t.offset) =~= spec_at(
                                    *ray,
                                    tv,
                                ));
                            }
                        }
                        let vb = VMAX;
                        if !(new_point.x <= vb && -vb <= new_point.x && new_point.y <= vb && -vb
                            <= new_point.y && new_point.z <= vb && -vb <= new_point.z) {
                            return None;
                        }
                        Some(
                            HitRecord {
                                point: new_point,
                                normal: rec.normal,
                                material: rec.material,
                                t: rec.t,
                                u: rec.u,
                                v: rec.v,
                                front_face: rec.front_face,
                            },
                        )
                    },
                }
            },
            Hittable::RotateY(rt) => {
                let ro = ray.origin.rotate_y(-rt.sin_theta, rt.cos_theta);
                let rd = ray.direction.rotate_y(-rt.sin_theta, rt.cos_theta);
                let rb = RMAX;
                if !(ro.x <= rb && -rb <= ro.x && ro.y <= rb && -rb <= ro.y && ro.z <= rb && -rb
                    <= ro.z && rd.x <= rb && -rb <= rd.x && rd.y <= rb && -rb <= rd.y && rd.z <= rb
                    && -rb <= rd.z) {
                    return None;
                }
                proof {
                    lemma_dot_bound(rd, rd, RMAX as int);
                    lemma_len_sq_nonneg(rd);
                }
                if rd.length_squared() < 1 {
                    return None;
                }
                let rotated = Ray { origin: ro, direction: rd, time: ray.time };
                match rt.object.hit(&rotated, ray_interval, rng) {
                    None => None,
                    Some(rec) => {
                        let new_point = rec.point.rotate_y(rt.sin_theta, rt.cos_theta);
                        let vb = VMAX;
                        if !(new_point.x <= vb && -vb <= new_point.x && new_point.y <= vb && -vb
                            <= new_point.y && new_point.z <= vb && -vb <= new_point.z) {
                            return None;
                        }
                        proof {
                            lemma_fmul_bound(rec.normal.x as int, rt.cos_theta as int, 2 * (
                            SCALE as int), SCALE as int);
                            lemma_fmul_bound(rec.normal.x as int, rt.sin_theta as int, 2 * (
                            SCALE as int), SCALE as int);
                            lemma_fmul_bound(rec.normal.z as int, rt.cos_theta as int, 2 * (
                            SCALE as int), SCALE as int);
                            lemma_fmul_bound(rec.normal.z as int, rt.sin_theta as int, 2 * (
                            SCALE as int), SCALE as int);
                            assert(((2 * (SCALE as int)) * (SCALE as int)) / (SCALE as int) == 2
                                * (SCALE as int)) by (nonlinear_arith);
                        }
                        let rn = rec.normal.rotate_y(rt.sin_theta, rt.cos_theta);
                        proof {
                            lemma_dot_bound(rn, rn, 4 * SCALE as int);
                            lemma_len_sq_nonneg(rn);
                            crate::vec3::lemma_axis_unit_len_sq();
                        }
                        let new_normal = if rn.length_squared() >= 1 {
                            rn.unit_dir()
                        } else {
                            Vec3 { x: SCALE, y: 0, z: 0 }
                        };
                        Some(
                            HitRecord {
                                point: new_point,
                                normal: new_normal,
                                material: rec.material,
                                t: rec.t,
                                u: rec.u,
                                v: rec.v,
                                front_face: rec.front_face,
                            },
                        )
                    },
                }
            },
            Hittable::ConstantMedium(m) => {
                let rec1 = match m.boundry.hit(ray, Interval::universe(), rng) {
                    None => {
                        return None;
                    },
                    Some(rec) => rec,
                };
                let rec2 = match m.boundry.hit(
                    ray,
                    Interval { min: rec1.t + MEDIUM_EPS, max: FP_INF },
                    rng,
                ) {
                    None => {
                        return None;
                    },
                    Some(rec) => rec,
                };
                let mut t1 = rec1.t;
                let mut t2 = rec2.t;
                if t1 < ray_interval.min {
                    t1 = ray_interval.min;
                }
                if t2 > ray_interval.max {
                    t2 = ray_interval.max;
                }
                if t1 >= t2 {
                    return None;
                }
                if t1 < 0 {
                    t1 = 0;
                }
                if t1 >= t2 {
                    // the clamped segment lies entirely behind the origin
                    return None;
                }
                proof {
                    lemma_dot_bound(ray.direction, ray.direction, RMAX as int);
                    lemma_len_sq_nonneg(ray.direction);
                }
                let rl = ray.direction.length();
                proof {
                    assert(rl >= 256) by (nonlinear_arith)
                        requires
                            ((rl + 1) as int) * ((rl + 1) as int) > spec_len_sq(ray.direction) * (
                            SCALE as int),
                            spec_len_sq(ray.direction) >= 1,
                            rl >= 0,
                            SCALE == 65536,
                    ;
                    assert((3 * ((0x200000000 as int) * (0x200000000 as int))) / (SCALE as int)
                        == 0xC000000000000) by (nonlinear_arith);
                    assert(rl <= 0x400000000) by (nonlinear_arith)
                        requires
                            (rl as int) * (rl as int) <= spec_len_sq(ray.direction) * (
                            SCALE as int),
                            spec_len_sq(ray.direction) <= 0xC000000000000,
                            rl >= 0,
                            SCALE == 65536,
                    ;
                }
                let e = rng.exp_unit();
                let t: i64 = match medium_scatter_t(t1, t2, rl, e, m.inv_density) {
                    None => {
                        return None;
                    },
                    Some(t) => t,
                };
                proof {
                    lemma_abs_mul_bound(ray.direction.x as int, t as int, RMAX as int,
                        TMAX as int);
                    lemma_abs_mul_bound(ray.direction.y as int, t as int, RMAX as int,
                        TMAX as int);
                    lemma_abs_mul_bound(ray.direction.z as int, t as int, RMAX as int,
                        TMAX as int);
                    lemma_quot_bound(ray.direction.x * t, SCALE as int, (RMAX as int) * (
                    TMAX as int));
                    lemma_quot_bound(ray.direction.y * t, SCALE as int, (RMAX as int) * (
                    TMAX as int));
                    lemma_quot_bound(ray.direction.z * t, SCALE as int, (RMAX as int) * (
                    TMAX as int));
                    assert(((RMAX as int) * (TMAX as int)) / (SCALE as int) <= 0x3fffffffffffffff)
                        by (nonlinear_arith);
                }
                let point = ray.at(t);
                let vb = VMAX;
                if !(point.x <= vb && -vb <= point.x && point.y <= vb && -vb <= point.y && point.z
                    <= vb && -vb <= point.z) {
                    return None;
                }
                proof {
                    crate::vec3::lemma_axis_unit_len_sq();
                }
                Some(
                    HitRecord {
                        point,
                        normal: Vec3 { x: SCALE, y: 0, z: 0 },
                        material: &m.phase_function,
                        t,
                        u: 0,
                        v: 0,
                        front_face: true,
                    },
                )
            },
            Hittable::Bvh(b) => {
                if !b.bounding_box.hit(ray, ray_interval) {
                    return None;
                }
                let left_res = b.left.hit(ray, ray_interval, rng);
                match left_res {
                    Some(lr) => {
                        let right_interval = Interval { min: ray_interval.min, max: lr.t };
                        match &b.right {
                            Some(rnode) => {
                                match rnode.hit(ray, right_interval, rng) {
                                    Some(rr) => Some(rr),
                                    None => Some(lr),
                                }
                            },
                            None => Some(lr),
                        }
                    },
                    None => {
                        match &b.right {
                            Some(rnode) => rnode.hit(ray, ray_interval, rng),
                            None => None,
                        }
                    },
                }
            },
        }
    }
}

/// Any parameter a plain tree reports lies inside the queried interval.
pub proof fn lemma_det_in_range(h: Hittable, ray: Ray, ri: Interval)
    requires
        plain(h),
    ensures
        det_hit_t(h, ray, ri) matches Some(t) ==> ri.min <= t <= ri.max && -TMAX <= t <= TMAX,
    decreases h, 1int,
{
    match h {
        Hittable::Sphere(_) => {},
        Hittable::Quad(_) => {},
        Hittable::Composite(c) => {
            lemma_scan_in_range(c.objects@, ray, ri);
        },
        Hittable::Translate(t) => {
            let no = spec_sub(ray.origin, t.offset);
            if within(no, RMAX as int) {
                lemma_det_in_range(
                    *t.object,
                    Ray { origin: no, direction: ray.direction, time: ray.time },
                    ri,
                );
            }
        },
        Hittable::Bvh(b) => {
            if spec_aabb_hit(b.bounding_box, ray, ri) {
                lemma_det_in_range(*b.left, ray, ri);
                match b.right {
                    None => {},
                    Some(rn) => {
                        match det_hit_t(*b.left, ray, ri) {
                            Some(t1) => {
                                lemma_det_in_range(
                                    *rn,
                                    ray,
                                    Interval { min: ri.min, max: t1 as i64 },
                                );
                            },
                            None => {
                                lemma_det_in_range(*rn, ray, ri);
                            },
                        }
                    },
                }
            }
        },
        _ => {},
    }
}

/// Any parameter a scan reports lies inside the queried interval.
pub proof fn lemma_scan_in_range(objs: Seq<Hittable>, ray: Ray, ri: Interval)
    requires
        all_plain(objs),
    ensures
        det_scan(objs, ray, ri) matches Some(t) ==> ri.min <= t <= ri.max && -TMAX <= t <= TMAX,
    decreases objs, 0int,
{
    if objs.len() > 0 {
        assert(plain(objs[0]));
        lemma_det_in_range(objs[0], ray, ri);
        assert(all_plain(objs.drop_first())) by {
            assert(forall|i: int|
                0 <= i < objs.drop_first().len() ==> #[trigger] objs.drop_first()[i] == objs[i
                    + 1]);
        };
        match det_hit_t(objs[0], ray, ri) {
            Some(t0) => {
                lemma_scan_in_range(
                    objs.drop_first(),
                    ray,
                    Interval { min: ri.min, max: t0 as i64 },
                );
            },
            None => {
                lemma_scan_in_range(objs.drop_first(), ray, ri);
            },
        }
    }
}

/// A prune-free plain tree: spheres, quads and composites only. Its
/// intersection semantics never discards a candidate by a bounding-box
/// test.
pub open spec fn unpruned(h: Hittable) -> bool
    decreases h,
{
    match h {
        Hittable::Sphere(_) => true,
        Hittable::Quad(_) => true,
        Hittable::Composite(c) => all_unpruned(c.objects@),
        _ => false,
    }
}

/// Every object of a list is prune-free.
pub open spec fn all_unpruned(s: Seq<Hittable>) -> bool
    decreases s,
{
    forall|i: int| 0 <= i < s.len() ==> unpruned(#[trigger] s[i])
}

/// A prune-free tree is plain.
pub proof fn lemma_unpruned_plain(h: Hittable)
    requires
        unpruned(h),
    ensures
        plain(h),
    decreases h, 1int,
{
    match h {
        Hittable::Composite(c) => {
            assert forall|i: int| 0 <= i < c.objects@.len() implies plain(
                #[trigger] c.objects@[i],
            ) by {
                assert(unpruned(c.objects@[i]));
                lemma_unpruned_plain(c.objects@[i]);
            };
            assert(all_plain(c.objects@));
        },
        _ => {},
    }
}

/// The sphere's nearer root never exceeds its farther root.
proof fn lemma_sphere_roots_ordered(s: Sphere, ray: Ray)
    requires
        sph_a(ray) >= 1,
        sph_disc(s, ray) >= 0,
    ensures
        sph_root1(s, ray) <= sph_root2(s, ray),
{
    let hb = sph_half_b(s, ray);
    let d = sph_disc(s, ray);
    let sq = sqrt_floor(d);
    crate::fixed::lemma_sqrt_exists(d);
    assert(crate::fixed::is_sqrt_floor(d, sq));
    assert((-hb - sq) * (SCALE as int) <= (-hb + sq) * (SCALE as int)) by (nonlinear_arith)
        requires
            sq >= 0,
            SCALE == 65536,
    ;
    crate::fixed::lemma_quot_trunc_monotone(
        (-hb - sq) * (SCALE as int),
        (-hb + sq) * (SCALE as int),
        sph_a(ray),
    );
}

/// Widening the far end of the interval keeps any reported hit, with the
/// same parameter, on a prune-free tree.
pub proof fn lemma_det_widen(h: Hittable, ray: Ray, lo: i64, m1: i64, m2: i64)
    requires
        unpruned(h),
        m1 <= m2,
        spec_len_sq(ray.direction) >= 1,
    ensures
        det_hit_t(h, ray, Interval { min: lo, max: m1 }) matches Some(t) ==> det_hit_t(
            h,
            ray,
            Interval { min: lo, max: m2 },
        ) == Some(t),
    decreases h, 1int,
{
    let i1 = Interval { min: lo, max: m1 };
    let i2 = Interval { min: lo, max: m2 };
    match h {
        Hittable::Sphere(s) => {
            if det_hit_t(h, ray, i1) is Some && sph_disc(s, ray) >= 0 {
                lemma_sphere_roots_ordered(s, ray);
            }
        },
        Hittable::Quad(_) => {},
        Hittable::Composite(c) => {
            lemma_scan_widen(c.objects@, ray, lo, m1, m2);
        },
        _ => {},
    }
}

/// The scan version of widening.
pub proof fn lemma_scan_widen(objs: Seq<Hittable>, ray: Ray, lo: i64, m1: i64, m2: i64)
    requires
        all_unpruned(objs),
        m1 <= m2,
        spec_len_sq(ray.direction) >= 1,
    ensures
        det_scan(objs, ray, Interval { min: lo, max: m1 }) matches Some(t) ==> det_scan(
            objs,
            ray,
            Interval { min: lo, max: m2 },
        ) == Some(t),
    decreases objs, 0int,
{
    let i1 = Interval { min: lo, max: m1 };
    let i2 = Interval { min: lo, max: m2 };
    if objs.len() > 0 && det_scan(objs, ray, i1) is Some {
        assert(unpruned(objs[0]));
        assert(all_unpruned(objs.drop_first())) by {
            assert(forall|i: int|
                0 <= i < objs.drop_first().len() ==> #[trigger] objs.drop_first()[i] == objs[i
                    + 1]);
        };
        lemma_det_widen(objs[0], ray, lo, m1, m2);
        match det_hit_t(objs[0], ray, i1) {
            Some(t0) => {
                // the first object reports the same parameter under the wider
                // window, so the remaining scan windows coincide
                assert(det_hit_t(objs[0], ray, i2) == Some(t0));
            },
            None => {
                match det_hit_t(objs[0], ray, i2) {
                    Some(t0p) => {
                        // the wider window can only reveal a farther first
                        // hit; the remaining scan still finds the old result
                        lemma_det_none_lift(objs[0], ray, lo, m1, m2);
                        lemma_unpruned_plain(objs[0]);
                        lemma_det_in_range(objs[0], ray, i2);
                        assert(m1 <= t0p <= m2);
                        let rest = objs.drop_first();
                        let tr = det_scan(rest, ray, i1)->Some_0;
                        lemma_scan_widen(rest, ray, lo, m1, t0p as i64);
                        assert(det_scan(rest, ray, Interval { min: lo, max: t0p as i64 })
                            == Some(tr));
                    },
                    None => {
                        lemma_scan_widen(objs.drop_first(), ray, lo, m1, m2);
                    },
                }
            },
        }
    }
}

/// When the narrow window reports nothing, anything the wider window finds
/// lies at or beyond the narrow window's far end.
pub proof fn lemma_det_none_lift(h: Hittable, ray: Ray, lo: i64, m1: i64, m2: i64)
    requires
        unpruned(h),
        m1 <= m2,
        spec_len_sq(ray.direction) >= 1,
    ensures
        det_hit_t(h, ray, Interval { min: lo, max: m1 }) is None ==> (det_hit_t(
            h,
            ray,
            Interval { min: lo, max: m2 },
        ) matches Some(t) ==> t >= m1),
    decreases h, 1int,
{
    let i1 = Interval { min: lo, max: m1 };
    let i2 = Interval { min: lo, max: m2 };
    match h {
        Hittable::Sphere(s) => {
            if det_hit_t(h, ray, i1) is None && det_hit_t(h, ray, i2) is Some && sph_disc(s, ray)
                >= 0 {
                lemma_sphere_roots_ordered(s, ray);
            }
        },
        Hittable::Quad(_) => {},
        Hittable::Composite(c) => {
            lemma_scan_none_lift(c.objects@, ray, lo, m1, m2);
        },
        _ => {},
    }
}

/// The scan version of the none lift.
pub proof fn lemma_scan_none_lift(objs: Seq<Hittable>, ray: Ray, lo: i64, m1: i64, m2: i64)
    requires
        all_unpruned(objs),
        m1 <= m2,
        spec_len_sq(ray.direction) >= 1,
    ensures
        det_scan(objs, ray, Interval { min: lo, max: m1 }) is None ==> (det_scan(
            objs,
            ray,
            Interval { min: lo, max: m2 },
        ) matches Some(t) ==> t >= m1),
    decreases objs, 0int,
{
    let i1 = Interval { min: lo, max: m1 };
    let i2 = Interval { min: lo, max: m2 };
    if objs.len() > 0 && det_scan(objs, ray, i1) is None && det_scan(objs, ray, i2) is Some {
        assert(unpruned(objs[0]));
        assert(all_unpruned(objs.drop_first())) by {
            assert(forall|i: int|
                0 <= i < objs.drop_first().len() ==> #[trigger] objs.drop_first()[i] == objs[i
                    + 1]);
        };
        let rest = objs.drop_first();
        // the scan under the narrow window reported nothing, so its first
        // probe did too
        assert(det_hit_t(objs[0], ray, i1) is None);
        assert(det_scan(rest, ray, i1) is None);
        lemma_det_none_lift(objs[0], ray, lo, m1, m2);
        match det_hit_t(objs[0], ray, i2) {
            Some(t0p) => {
                lemma_unpruned_plain(objs[0]);
                lemma_det_in_range(objs[0], ray, i2);
                assert(m1 <= t0p <= m2);
                lemma_scan_none_lift(rest, ray, lo, m1, t0p as i64);
            },
            None => {
                lemma_scan_none_lift(rest, ray, lo, m1, m2);
            },
        }
    }
}

/// A composite scan reports the nearest hit: whatever parameter it
/// returns is at most the parameter any single member reports over the
/// same interval, and when it reports nothing, no member has a hit there.
pub proof fn lemma_scan_is_nearest(objs: Seq<Hittable>, ray: Ray, ri: Interval)
    requires
        all_unpruned(objs),
        spec_len_sq(ray.direction) >= 1,
    ensures
        det_scan(objs, ray, ri) matches Some(t) ==> forall|i: int|
            0 <= i < objs.len() ==> (#[trigger] det_hit_t(objs[i], ray, ri) matches Some(ti)
                ==> t <= ti),
        det_scan(objs, ray, ri) is None ==> forall|i: int|
            0 <= i < objs.len() ==> det_hit_t(#[trigger] objs[i], ray, ri) is None,
    decreases objs.len(),
{
    if objs.len() == 0 {
        return ;
    }
    assert(unpruned(objs[0]));
    let rest = objs.drop_first();
    assert(all_unpruned(rest)) by {
        assert(forall|i: int| 0 <= i < rest.len() ==> #[trigger] rest[i] == objs[i + 1]);
    };
    assert(ri == Interval { min: ri.min, max: ri.max });
    lemma_unpruned_plain(objs[0]);
    lemma_det_in_range(objs[0], ray, ri);
    match det_hit_t(objs[0], ray, ri) {
        Some(t0) => {
            let w1 = Interval { min: ri.min, max: t0 as i64 };
            lemma_scan_is_nearest(rest, ray, w1);
            assert forall|j: int| 0 <= j < rest.len() implies plain(#[trigger] rest[j]) by {
                assert(unpruned(rest[j]));
                lemma_unpruned_plain(rest[j]);
            };
            assert(all_plain(rest));
            lemma_scan_in_range(rest, ray, w1);
            match det_scan(rest, ray, w1) {
                Some(t1) => {
                    assert(det_scan(objs, ray, ri) == Some(t1));
                    assert forall|i: int|
                        0 <= i < objs.len() && #[trigger] det_hit_t(objs[i], ray, ri) is Some
                            implies t1 <= det_hit_t(objs[i], ray, ri)->Some_0 by {
                        if i == 0 {
                            assert(t1 <= t0);
                        } else {
                            let child = objs[i];
                            assert(child == rest[i - 1]);
                            assert(unpruned(child));
                            let ti = det_hit_t(child, ray, ri)->Some_0;
                            match det_hit_t(child, ray, w1) {
                                Some(si) => {
                                    lemma_det_widen(child, ray, ri.min, t0 as i64, ri.max);
                                    assert(det_hit_t(child, ray, ri) == Some(si));
                                    assert(t1 <= si);
                                },
                                None => {
                                    lemma_det_none_lift(child, ray, ri.min, t0 as i64, ri.max);
                                    assert(ti >= t0);
                                    assert(t1 <= t0);
                                },
                            }
                        }
                    };
                },
                None => {
                    assert(det_scan(objs, ray, ri) == Some(t0 as int));
                    assert forall|i: int|
                        0 <= i < objs.len() && #[trigger] det_hit_t(objs[i], ray, ri) is Some
                            implies t0 <= det_hit_t(objs[i], ray, ri)->Some_0 by {
                        if i > 0 {
                            let child = objs[i];
                            assert(child == rest[i - 1]);
                            assert(unpruned(child));
                            assert(det_hit_t(child, ray, w1) is None);
                            lemma_det_none_lift(child, ray, ri.min, t0 as i64, ri.max);
                        }
                    };
                },
            }
        },
        None => {
            lemma_scan_is_nearest(rest, ray, ri);
            match det_scan(rest, ray, ri) {
                Some(t1) => {
                    assert forall|i: int|
                        0 <= i < objs.len() && #[trigger] det_hit_t(objs[i], ray, ri) is Some
                            implies t1 <= det_hit_t(objs[i], ray, ri)->Some_0 by {
                        if i > 0 {
                            assert(objs[i] == rest[i - 1]);
                        }
                    };
                },
                None => {
                    assert forall|i: int| 0 <= i < objs.len() implies det_hit_t(
                        #[trigger] objs[i],
                        ray,
                        ri,
                    ) is None by {
                        if i > 0 {
                            assert(objs[i] == rest[i - 1]);
                        }
                    };
                },
            }
        },
    }
}

/// A ray parallel to a quad's plane misses it: when the normal and the
/// direction are orthogonal to within the near-zero threshold, the quad
/// reports nothing, whatever the interval.
pub proof fn lemma_quad_parallel_misses(q: Quad, ray: Ray, ri: Interval)
    requires
        abs_int(spec_dot(q.normal, ray.direction)) < crate::vec3::NEAR_ZERO_THRESHOLD as int,
    ensures
        spec_quad_hit(q, ray, ri) is None,
{
}

/// A ray starting exactly on a sphere's surface and pointing outward finds
/// no nearby hit when the interval starts at or above zero: both quadratic
/// roots are at or behind the origin, so the epsilon floor rejects them.
pub proof fn lemma_sphere_surface_no_acne(s: Sphere, ray: Ray, ri: Interval)
    requires
        sph_c(s, ray) == 0,
        sph_half_b(s, ray) >= 0,
        sph_a(ray) >= 1,
        ri.min >= 0,
    ensures
        spec_sphere_hit(s, ray, ri) is None,
{
    let hb = sph_half_b(s, ray);
    let a = sph_a(ray);
    assert(a * sph_c(s, ray) == 0) by (nonlinear_arith)
        requires
            sph_c(s, ray) == 0,
    ;
    assert(sph_disc(s, ray) == hb * hb);
    assert(hb * hb >= 0) by (nonlinear_arith);
    assert(hb * hb < (hb + 1) * (hb + 1)) by (nonlinear_arith)
        requires
            hb >= 0,
    ;
    crate::fixed::lemma_sqrt_floor_unique(hb * hb, hb);
    assert((-hb - hb) * (SCALE as int) <= 0) by (nonlinear_arith)
        requires
            hb >= 0,
            SCALE == 65536,
    ;
    crate::fixed::lemma_quot_nonpos((-hb - hb) * (SCALE as int), a);
    assert((-hb + hb) * (SCALE as int) == 0) by (nonlinear_arith);
    assert(sph_root1(s, ray) <= 0);
    assert(sph_root2(s, ray) == quot_trunc(0, a));
    assert(quot_trunc(0, a) == 0) by {
        vstd::arithmetic::div_mod::lemma_div_of0(a);
    };
    assert(!t_accept(sph_root1(s, ray), ri));
    assert(!t_accept(sph_root2(s, ray), ri));
}

/// A doubly wrapped translation, out by `v` and back by `-v`, reports
/// exactly the hits of the wrapped object: the same hit-or-miss answer and
/// the same parameter (and so, through the intersection tie, the same hit
/// point), whenever the ray and the offset leave room inside the world.
pub proof fn lemma_translate_hit_round_trip(
    inner: Translate,
    outer: Translate,
    ray: Ray,
    ri: Interval,
)
    requires
        *outer.object == Hittable::Translate(inner),
        outer.offset == spec_neg(inner.offset),
        plain(*inner.object),
        within(ray.origin, (VMAX / 2) as int),
        within(ray.direction, RMAX as int),
        within(inner.offset, (VMAX / 4) as int),
        det_hit_t(*inner.object, ray, ri) matches Some(tv) ==> within(
            spec_at(ray, tv),
            (VMAX / 2) as int,
        ),
    ensures
        det_hit_t(Hittable::Translate(outer), ray, ri) == det_hit_t(*inner.object, ray, ri),
{
    let v = inner.offset;
    let no1 = spec_sub(ray.origin, outer.offset);
    assert(within(no1, RMAX as int));
    let moved1 = Ray { origin: no1, direction: ray.direction, time: ray.time };
    let no2 = spec_sub(moved1.origin, v);
    assert(no2 =~= ray.origin);
    assert(within(no2, RMAX as int));
    let moved2 = Ray { origin: no2, direction: ray.direction, time: ray.time };
    assert(moved2 == ray);
    match det_hit_t(*inner.object, ray, ri) {
        Some(tv) => {
            lemma_det_in_range(*inner.object, ray, ri);
            lemma_abs_mul_bound(ray.direction.x as int, tv, RMAX as int, TMAX as int);
            lemma_abs_mul_bound(ray.direction.y as int, tv, RMAX as int, TMAX as int);
            lemma_abs_mul_bound(ray.direction.z as int, tv, RMAX as int, TMAX as int);
            lemma_quot_bound(ray.direction.x * tv, SCALE as int, (RMAX as int) * (TMAX as int));
            lemma_quot_bound(ray.direction.y * tv, SCALE as int, (RMAX as int) * (TMAX as int));
            lemma_quot_bound(ray.direction.z * tv, SCALE as int, (RMAX as int) * (TMAX as int));
            assert(((RMAX as int) * (TMAX as int)) / (SCALE as int) <= 0x3fffffffffffffff)
                by (nonlinear_arith);
            let p = spec_at(ray, tv);
            assert(within(spec_add(p, v), VMAX as int));
            assert(det_hit_t(Hittable::Translate(inner), moved1, ri) == Some(tv));
            assert(spec_at(moved1, tv) =~= spec_add(p, v));
            assert(spec_add(spec_at(moved1, tv), outer.offset) =~= p);
            assert(within(spec_add(spec_at(moved1, tv), outer.offset), VMAX as int));
        },
        None => {
            assert(det_hit_t(Hittable::Translate(inner), moved1, ri) is None);
        },
    }
}

/// Translating a ray by `v` and then by `-v` restores it exactly, and the
/// same holds for the reported hit point: fixed-point translation is an
/// exact round trip.
pub proof fn lemma_translate_round_trip(o: Vec3, p: Vec3, v: Vec3)
    requires
        within(o, VMAX as int),
        within(p, VMAX as int),
        within(v, VMAX as int),
    ensures
        spec_sub(spec_sub(o, v), spec_neg(v)) == o,
        spec_add(spec_add(p, spec_neg(v)), v) == p,
{
}

impl HittableComposite {
    pub fn new() -> (r: HittableComposite)
        ensures
            r.objects@.len() == 0,
            hittable_wf(Hittable::Composite(r)),
            bvh_tree_ok(Hittable::Composite(r)),
    {
        let objects: Vec<Hittable> = Vec::new();
        proof {
            assert(objects@.len() == 0);
            assert(all_wf(objects@));
            assert(all_tree_ok(objects@));
        }
        HittableComposite { objects, bbox: AABB::new_empty() }
    }

    /// Wrap a list of objects; the stored box is the union of their boxes.
    pub fn new_from_objects(objects: Vec<Hittable>) -> (r: HittableComposite)
        requires
            all_wf(objects@),
            all_tree_ok(objects@),
        ensures
            r.objects == objects,
            r.bbox == union_up_to(objects@, objects@.len() as int),
            hittable_wf(Hittable::Composite(r)),
            bvh_tree_ok(Hittable::Composite(r)),
    {
        let mut bbox = AABB::new_empty();
        let mut i: usize = 0;
        while i < objects.len()
            invariant
                i <= objects@.len(),
                bbox == union_up_to(objects@, i as int),
            decreases objects@.len() - i,
        {
            bbox = bbox.unite(&objects[i].bounding_box());
            i = i + 1;
        }
        HittableComposite { objects, bbox }
    }

    /// Add one object, growing the stored box by its box.
    pub fn add_hittable(&mut self, object: Hittable)
        requires
            hittable_wf(object),
            bvh_tree_ok(object),
            hittable_wf(Hittable::Composite(*old(self))),
            bvh_tree_ok(Hittable::Composite(*old(self))),
        ensures
            final(self).objects@ == old(self).objects@.push(object),
            final(self).bbox == spec_unite_aabb(old(self).bbox, spec_bounding_box(object)),
            hittable_wf(Hittable::Composite(*final(self))),
            bvh_tree_ok(Hittable::Composite(*final(self))),
    {
        self.bbox = self.bbox.unite(&object.bounding_box());
        self.objects.push(object);
        proof {
            assert(self.objects@ == old(self).objects@.push(object));
            assert(all_wf(old(self).objects@));
            assert(all_tree_ok(old(self).objects@));
            assert forall|i: int| 0 <= i < self.objects@.len() implies hittable_wf(
                #[trigger] self.objects@[i],
            ) && bvh_tree_ok(self.objects@[i]) by {
                if i < old(self).objects@.len() {
                    assert(old(self).objects@.push(object)[i] == old(self).objects@[i]);
                    assert(hittable_wf(old(self).objects@[i]));
                    assert(bvh_tree_ok(old(self).objects@[i]));
                } else {
                    assert(old(self).objects@.push(object)[i] == object);
                }
            };
            assert(all_wf(self.objects@));
            assert(all_tree_ok(self.objects@));
        }
    }
}

impl Translate {
    /// Wrap an object so rays are shifted instead of the geometry; the box
    /// is the child's box shifted, saturated into the world.
    pub fn new(object: Hittable, displacement: Vec3) -> (r: Translate)
        requires
            hittable_wf(object),
            bvh_tree_ok(object),
            within(displacement, VMAX as int),
        ensures
            *r.object == object,
            r.offset == displacement,
            hittable_wf(Hittable::Translate(r)),
            bvh_tree_ok(Hittable::Translate(r)),
            r.bounding_box == crate::aabb::spec_clamp_box(
                spec_shift_box(
                    crate::aabb::spec_clamp_box(spec_bounding_box(object)),
                    displacement,
                ),
            ),
    {
        let child_box = object.bounding_box().clamp_into_world();
        let shifted = AABB {
            x: child_box.x.shift(displacement.x),
            y: child_box.y.shift(displacement.y),
            z: child_box.z.shift(displacement.z),
        };
        let bounding_box = shifted.clamp_into_world();
        Translate { object: Box::new(object), offset: displacement, bounding_box }
    }
}

impl RotateY {
    /// Wrap an object so rays are rotated about the Y axis instead of the
    /// geometry; the box covers the eight rotated corners of the child's
    /// box, saturated into the world.
    pub fn new_with_trig(object: Hittable, sin_theta: i64, cos_theta: i64) -> (r: RotateY)
        requires
            hittable_wf(object),
            bvh_tree_ok(object),
            abs_int(sin_theta as int) <= SCALE,
            abs_int(cos_theta as int) <= SCALE,
        ensures
            *r.object == object,
            r.sin_theta == sin_theta,
            r.cos_theta == cos_theta,
            hittable_wf(Hittable::RotateY(r)),
            bvh_tree_ok(Hittable::RotateY(r)),
            ({
                let fold = spec_rotated_corner_fold(
                    crate::aabb::spec_clamp_box(spec_bounding_box(object)),
                    sin_theta as int,
                    cos_theta as int,
                    8,
                );
                r.bounding_box == crate::aabb::spec_clamp_box(
                    crate::aabb::spec_corner_box(fold.0, fold.1),
                )
            }),
    {
        let cb = object.bounding_box().clamp_into_world();
        let mut lo = Vec3 { x: BMAX, y: BMAX, z: BMAX };
        let mut hi = Vec3 { x: -BMAX, y: -BMAX, z: -BMAX };
        let mut corner: usize = 0;
        while corner < 8
            invariant
                within(lo, 0x4000000002),
                within(hi, 0x4000000002),
                abs_int(sin_theta as int) <= SCALE,
                abs_int(cos_theta as int) <= SCALE,
                aabb_within(cb, BMAX as int),
                corner <= 8,
                (lo, hi) == spec_rotated_corner_fold(
                    cb,
                    sin_theta as int,
                    cos_theta as int,
                    corner as int,
                ),
            decreases 8 - corner,
        {
            let cx = if corner % 2 == 0 {
                cb.x.min
            } else {
                cb.x.max
            };
            let cy = if (corner / 2) % 2 == 0 {
                cb.y.min
            } else {
                cb.y.max
            };
            let cz = if (corner / 4) % 2 == 0 {
                cb.z.min
            } else {
                cb.z.max
            };
            let p = Vec3 { x: cx, y: cy, z: cz };
            proof {
                assert(p == spec_box_corner(cb, corner as int));
            }
            let q = p.rotate_y(sin_theta, cos_theta);
            lo = Vec3 {
                x: if q.x < lo.x {
                    q.x
                } else {
                    lo.x
                },
                y: if q.y < lo.y {
                    q.y
                } else {
                    lo.y
                },
                z: if q.z < lo.z {
                    q.z
                } else {
                    lo.z
                },
            };
            hi = Vec3 {
                x: if q.x > hi.x {
                    q.x
                } else {
                    hi.x
                },
                y: if q.y > hi.y {
                    q.y
                } else {
                    hi.y
                },
                z: if q.z > hi.z {
                    q.z
                } else {
                    hi.z
                },
            };
            corner = corner + 1;
        }
        let bounding_box = AABB::new_from_points(lo, hi).clamp_into_world();
        RotateY { object: Box::new(object), sin_theta, cos_theta, bounding_box }
    }
}

impl RotateY {
    /// Wrap an object rotated about the Y axis by an angle in fixed-point
    /// degrees.
    pub fn new(object: Hittable, angle: i64) -> (r: RotateY)
        requires
            hittable_wf(object),
            bvh_tree_ok(object),
            abs_int(angle as int) <= 0x800000000000,
        ensures
            *r.object == object,
            r.sin_theta == crate::trig::spec_sin_deg(angle as int),
            r.cos_theta == crate::trig::spec_cos_deg(angle as int),
            hittable_wf(Hittable::RotateY(r)),
            bvh_tree_ok(Hittable::RotateY(r)),
    {
        let s = crate::trig::fp_sin_deg(angle);
        let c = crate::trig::fp_cos_deg(angle);
        RotateY::new_with_trig(object, s, c)
    }
}

impl ConstantMedium {
    /// A medium of the given density inside a closed boundary, scattering
    /// isotropically with the given colour.
    pub fn new_color(boundry: Hittable, density: i64, color: crate::vec3::Color) -> (r:
        ConstantMedium)
        requires
            hittable_wf(boundry),
            bvh_tree_ok(boundry),
            0 < density <= VMAX,
            crate::texture::color_wf(color),
        ensures
            *r.boundry == boundry,
            r.inv_density == crate::fixed::fdiv(SCALE as int, density as int),
            hittable_wf(Hittable::ConstantMedium(r)),
            bvh_tree_ok(Hittable::ConstantMedium(r)),
    {
        proof {
            crate::fixed::lemma_quot_nonneg((SCALE as int) * (SCALE as int), density as int);
            assert((SCALE as int) * (SCALE as int) == VMAX as int) by (nonlinear_arith);
            vstd::arithmetic::div_mod::lemma_div_is_ordered_by_denominator(
                VMAX as int,
                density as int,
                VMAX as int,
            );
            vstd::arithmetic::div_mod::lemma_div_by_self(VMAX as int);
            vstd::arithmetic::div_mod::lemma_div_nonincreasing(VMAX as int, density as int);
        }
        let inv_density = crate::fixed::fp_div(SCALE, density);
        ConstantMedium {
            boundry: Box::new(boundry),
            inv_density,
            phase_function: Material::Isotropic(crate::material::Isotropic::new_color(color)),
        }
    }

    /// As `new_color`, with an arbitrary texture for the phase function.
    pub fn new_texture(boundry: Hittable, density: i64, texture: crate::texture::Texture) -> (r:
        ConstantMedium)
        requires
            hittable_wf(boundry),
            bvh_tree_ok(boundry),
            0 < density <= VMAX,
            crate::texture::texture_wf(texture),
        ensures
            *r.boundry == boundry,
            r.inv_density == crate::fixed::fdiv(SCALE as int, density as int),
            hittable_wf(Hittable::ConstantMedium(r)),
            bvh_tree_ok(Hittable::ConstantMedium(r)),
    {
        proof {
            crate::fixed::lemma_quot_nonneg((SCALE as int) * (SCALE as int), density as int);
            assert((SCALE as int) * (SCALE as int) == VMAX as int) by (nonlinear_arith);
            vstd::arithmetic::div_mod::lemma_div_is_ordered_by_denominator(
                VMAX as int,
                density as int,
                VMAX as int,
            );
            vstd::arithmetic::div_mod::lemma_div_by_self(VMAX as int);
            vstd::arithmetic::div_mod::lemma_div_nonincreasing(VMAX as int, density as int);
        }
        let inv_density = crate::fixed::fp_div(SCALE, density);
        ConstantMedium {
            boundry: Box::new(boundry),
            inv_density,
            phase_function: Material::Isotropic(crate::material::Isotropic::new_texture(texture)),
        }
    }
}

/// An axis-aligned box as six quads under a small tree; the two points are
/// opposite corners in either order.
#[verifier::rlimit(60)]
pub fn box_new(back_bottom_left: Point3, front_upper_right: Point3, material: Material) -> (r:
    Hittable)
    requires
        within(back_bottom_left, (VMAX / 4) as int),
        within(front_upper_right, (VMAX / 4) as int),
        material_wf(material),
    ensures
        hittable_wf(r),
        bvh_tree_ok(r),
        tree_elems(r).len() == 6,
        forall|x: Hittable| #[trigger] tree_elems(r).count(x) > 0 ==> x is Quad,
{
    let a = back_bottom_left;
    let b = front_upper_right;
    let min = Vec3 {
        x: if a.x <= b.x {
            a.x
        } else {
            b.x
        },
        y: if a.y <= b.y {
            a.y
        } else {
            b.y
        },
        z: if a.z <= b.z {
            a.z
        } else {
            b.z
        },
    };
    let max = Vec3 {
        x: if a.x >= b.x {
            a.x
        } else {
            b.x
        },
        y: if a.y >= b.y {
            a.y
        } else {
            b.y
        },
        z: if a.z >= b.z {
            a.z
        } else {
            b.z
        },
    };
    let width = Vec3 { x: max.x - min.x, y: 0, z: 0 };
    let height = Vec3 { x: 0, y: max.y - min.y, z: 0 };
    let depth = Vec3 { x: 0, y: 0, z: max.z - min.z };
    let mut quads = HittableComposite::new();
    quads.add_hittable(
        Hittable::Quad(
            Quad::new(
                Vec3 { x: min.x, y: min.y, z: max.z },
                height,
                width,
                crate::material::copy_material(&material),
            ),
        ),
    );
    quads.add_hittable(
        Hittable::Quad(
            Quad::new(
                Vec3 { x: max.x, y: min.y, z: max.z },
                height,
                depth.neg(),
                crate::material::copy_material(&material),
            ),
        ),
    );
    quads.add_hittable(
        Hittable::Quad(
            Quad::new(
                Vec3 { x: max.x, y: min.y, z: min.z },
                height,
                width.neg(),
                crate::material::copy_material(&material),
            ),
        ),
    );
    quads.add_hittable(
        Hittable::Quad(
            Quad::new(
                Vec3 { x: min.x, y: min.y, z: min.z },
                height,
                depth,
                crate::material::copy_material(&material),
            ),
        ),
    );
    quads.add_hittable(
        Hittable::Quad(
            Quad::new(
                Vec3 { x: min.x, y: max.y, z: max.z },
                depth.neg(),
                width,
                crate::material::copy_material(&material),
            ),
        ),
    );
    quads.add_hittable(
        Hittable::Quad(
            Quad::new(Vec3 { x: min.x, y: min.y, z: max.z }, depth.neg(), width, material),
        ),
    );
    proof {
        assert(quads.objects@.len() == 6);
        assert forall|i: int| 0 <= i < quads.objects@.len() implies !((
        #[trigger] quads.objects@[i]) is Bvh) by {
            assert(quads.objects@[i] is Quad);
        };
        lemma_seq_elems_flat(quads.objects@);
        assert forall|x: Hittable| #[trigger] seq_elems(quads.objects@).count(x) > 0 implies x
            is Quad by {
            assert(quads.objects@.contains(x));
        };
    }
    BVH::new(quads)
}

/// Reorder objects by ascending box minimum along the chosen axis, by
/// selection; only well-formedness of the contents is promised.
fn sort_by_axis(objects: Vec<Hittable>, axis: usize) -> (r: Vec<Hittable>)
    requires
        axis < 3,
        all_wf(objects@),
        all_tree_ok(objects@),
    ensures
        r@.len() == objects@.len(),
        all_wf(r@),
        all_tree_ok(r@),
        seq_elems(r@) == seq_elems(objects@),
{
    let mut rest = objects;
    let ghost total = rest@.len();
    let ghost whole = seq_elems(rest@);
    let mut out: Vec<Hittable> = Vec::new();
    proof {
        assert(seq_elems(out@) == Multiset::<Hittable>::empty());
        assert(seq_elems(out@).add(seq_elems(rest@)) =~= whole);
    }
    while rest.len() > 0
        invariant
            axis < 3,
            out@.len() + rest@.len() == total,
            all_wf(rest@),
            all_tree_ok(rest@),
            all_wf(out@),
            all_tree_ok(out@),
            seq_elems(out@).add(seq_elems(rest@)) == whole,
            whole == seq_elems(objects@),
        decreases rest@.len(),
    {
        let mut mi: usize = 0;
        let mut mk: i64 = rest[0].bounding_box().axis(axis).min;
        let mut j: usize = 1;
        while j < rest.len()
            invariant
                axis < 3,
                mi < rest@.len(),
                j <= rest@.len(),
                rest@.len() > 0,
            decreases rest@.len() - j,
        {
            let k = rest[j].bounding_box().axis(axis).min;
            if k < mk {
                mi = j;
                mk = k;
            }
            j = j + 1;
        }
        let ghost r0 = rest@;
        let ghost o0 = out@;
        let x = rest.remove(mi);
        out.push(x);
        proof {
            assert(x == r0[mi as int]);
            assert(hittable_wf(r0[mi as int]) && bvh_tree_ok(r0[mi as int]));
            assert(rest@ =~= r0.remove(mi as int));
            lemma_seq_elems_remove(r0, mi as int);
            lemma_seq_elems_push(o0, x);
            assert(seq_elems(out@).add(seq_elems(rest@)) =~= whole);
            assert forall|i2: int| 0 <= i2 < rest@.len() implies hittable_wf(
                #[trigger] rest@[i2],
            ) && bvh_tree_ok(rest@[i2]) by {
                if i2 < mi {
                    assert(rest@[i2] == r0[i2]);
                    assert(hittable_wf(r0[i2]) && bvh_tree_ok(r0[i2]));
                } else {
                    assert(rest@[i2] == r0[i2 + 1]);
                    assert(hittable_wf(r0[i2 + 1]) && bvh_tree_ok(r0[i2 + 1]));
                }
            };
            assert forall|i2: int| 0 <= i2 < out@.len() implies hittable_wf(
                #[trigger] out@[i2],
            ) && bvh_tree_ok(out@[i2]) by {
                if i2 < o0.len() {
                    assert(out@[i2] == o0[i2]);
                    assert(hittable_wf(o0[i2]) && bvh_tree_ok(o0[i2]));
                } else {
                    assert(out@[i2] == x);
                }
            };
            assert(all_wf(rest@));
            assert(all_tree_ok(rest@));
            assert(all_wf(out@));
            assert(all_tree_ok(out@));
        }
    }
    out
}

impl BVH {
    /// Build a tree over the composite's objects.
    pub fn new(composite: HittableComposite) -> (r: Hittable)
        requires
            composite.objects@.len() >= 1,
            hittable_wf(Hittable::Composite(composite)),
            bvh_tree_ok(Hittable::Composite(composite)),
        ensures
            hittable_wf(r),
            bvh_tree_ok(r),
            tree_elems(r) == seq_elems(composite.objects@),
    {
        BVH::new_tree(composite.objects)
    }

    /// Recursive top-down construction: find the longest axis of the
    /// enveloping box, order by it, split at the median. Every node's box
    /// is the saturated union of its children's boxes.
    pub fn new_tree(objects: Vec<Hittable>) -> (r: Hittable)
        requires
            objects@.len() >= 1,
            all_wf(objects@),
            all_tree_ok(objects@),
        ensures
            hittable_wf(r),
            bvh_tree_ok(r),
            tree_elems(r) == seq_elems(objects@),
        decreases objects@.len(),
    {
        let ghost input = objects@;
        let mut objects = objects;
        if objects.len() == 1 {
            let only = match objects.pop() {
                Some(o) => o,
                None => {
                    proof {
                        assert(false);
                    }
                    Hittable::Composite(HittableComposite::new())
                },
            };
            proof {
                assert(only == input[0]);
                assert(input.drop_first() =~= Seq::<Hittable>::empty());
                assert(seq_elems(input.drop_first()) == Multiset::<Hittable>::empty());
                assert(tree_elems(only) =~= seq_elems(input));
            }
            return only;
        }
        let mut aux = AABB::new_empty();
        let mut i: usize = 0;
        while i < objects.len()
            invariant
                i <= objects@.len(),
            decreases objects@.len() - i,
        {
            aux = aux.unite(&objects[i].bounding_box());
            i = i + 1;
        }
        let axis = aux.clamp_into_world().longest_axis();
        if objects.len() == 2 {
            let b = match objects.pop() {
                Some(o) => o,
                None => {
                    proof {
                        assert(false);
                    }
                    Hittable::Composite(HittableComposite::new())
                },
            };
            let a = match objects.pop() {
                Some(o) => o,
                None => {
                    proof {
                        assert(false);
                    }
                    Hittable::Composite(HittableComposite::new())
                },
            };
            let ka = a.bounding_box().axis(axis).min;
            let kb = b.bounding_box().axis(axis).min;
            let (left, right) = if ka <= kb {
                (a, b)
            } else {
                (b, a)
            };
            let bounding_box = left.bounding_box().unite(&right.bounding_box()).clamp_into_world();
            let node = Hittable::Bvh(
                BVH { left: Box::new(left), right: Some(Box::new(right)), bounding_box },
            );
            proof {
                assert(input.len() == 2);
                assert(input.drop_first().drop_first() =~= Seq::<Hittable>::empty());
                assert(input.drop_first()[0] == input[1]);
                assert(seq_elems(input.drop_first().drop_first())
                    == Multiset::<Hittable>::empty());
                assert(seq_elems(input.drop_first()) == tree_elems(input[1]).add(
                    seq_elems(input.drop_first().drop_first()),
                ));
                assert(seq_elems(input) == tree_elems(input[0]).add(
                    seq_elems(input.drop_first()),
                ));
                assert(tree_elems(node) =~= seq_elems(input));
            }
            return node;
        }
        let sorted = sort_by_axis(objects, axis);
        let mut sorted = sorted;
        let ghost presplit = sorted@;
        let mid = sorted.len() / 2;
        let right_vec = sorted.split_off(mid);
        proof {
            assert(presplit =~= sorted@ + right_vec@);
            lemma_seq_elems_concat(sorted@, right_vec@);
        }
        let left = BVH::new_tree(sorted);
        let right = BVH::new_tree(right_vec);
        let bounding_box = left.bounding_box().unite(&right.bounding_box()).clamp_into_world();
        let node = Hittable::Bvh(
            BVH { left: Box::new(left), right: Some(Box::new(right)), bounding_box },
        );
        proof {
            assert(tree_elems(node) =~= seq_elems(input));
        }
        node
    }
}

} // verus!
