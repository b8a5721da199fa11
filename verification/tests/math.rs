//! Fixed-point scalar, vector, interval and box arithmetic.

use tracer::fixed::{fp_mul, fp_div, fp_sqrt, fp_clamp, fp_abs, SCALE};
use tracer::vec3::Vec3;
use tracer::interval::{Interval, FP_INF};
use tracer::aabb::AABB;
use tracer::ray::Ray;
use tracer::trig::{fp_sin_deg, fp_cos_deg};

#[test]
fn fixed_point_products_and_quotients() {
    assert_eq!(fp_mul(2 * SCALE, 3 * SCALE), 6 * SCALE);
    assert_eq!(fp_mul(-2 * SCALE, 3 * SCALE), -6 * SCALE);
    assert_eq!(fp_div(SCALE, 2 * SCALE), SCALE / 2);
    assert_eq!(fp_div(-SCALE, 2 * SCALE), -(SCALE / 2));
    assert_eq!(fp_clamp(5, 0, 3), 3);
    assert_eq!(fp_clamp(-5, 0, 3), 0);
    assert_eq!(fp_abs(-7), 7);
}

#[test]
fn fixed_point_square_roots() {
    assert_eq!(fp_sqrt(4 * SCALE), 2 * SCALE);
    assert_eq!(fp_sqrt(SCALE), SCALE);
    assert_eq!(fp_sqrt(0), 0);
    // sqrt(1/2) = 46340.95 in fixed point, rounded down
    assert_eq!(fp_sqrt(SCALE / 2), 46340);
}

#[test]
fn interval_operations() {
    let i = Interval::new(0, 10);
    assert!(i.contains(0) && i.contains(10) && i.contains(5));
    assert!(!i.fully_contains(0) && !i.fully_contains(10) && i.fully_contains(5));
    assert_eq!(i.clamp(-3), 0);
    assert_eq!(i.clamp(12), 10);
    assert_eq!(i.clamp(7), 7);
    assert_eq!(i.len(), 10);
    assert!(!i.is_empty());
    assert!(Interval::new_empty().is_empty());
    let j = Interval::new(5, 20);
    let k = i.intersect(j);
    assert_eq!((k.min, k.max), (5, 10));
    let u = i.unite(j);
    assert_eq!((u.min, u.max), (0, 20));
    let d: Interval = Default::default();
    assert!(d.is_empty());
}

#[test]
fn vector_operations() {
    let a = Vec3::new(SCALE, 2 * SCALE, 3 * SCALE);
    let b = Vec3::new(2 * SCALE, 0, -SCALE);
    let s = a.add(&b);
    assert_eq!((s.x, s.y, s.z), (3 * SCALE, 2 * SCALE, 2 * SCALE));
    let d = a.sub(&b);
    assert_eq!((d.x, d.y, d.z), (-SCALE, 2 * SCALE, 4 * SCALE));
    // (1,2,3).(2,0,-1) = 2 - 3 = -1
    assert_eq!(a.dot(&b), -SCALE);
    // x cross y = z
    let x = Vec3::new(SCALE, 0, 0);
    let y = Vec3::new(0, SCALE, 0);
    let z = x.cross(&y);
    assert_eq!((z.x, z.y, z.z), (0, 0, SCALE));
    assert_eq!(a.length_squared(), 14 * SCALE);
}

#[test]
fn unit_direction_is_unit_scale() {
    let v = Vec3::new(2 * SCALE, 0, 0);
    let u = v.unit_dir();
    assert_eq!((u.x, u.y, u.z), (SCALE, 0, 0));
    let w = Vec3::new(3 * SCALE, 4 * SCALE, 0).unit_dir();
    // 3-4-5 triangle: components 0.6 and 0.8
    assert!((w.x - 39321).abs() <= 2);
    assert!((w.y - 52428).abs() <= 2);
    assert_eq!(w.z, 0);
}

#[test]
fn rotation_about_y() {
    // rotate x toward -z by a quarter turn: sin = 1, cos = 0
    let v = Vec3::new(SCALE, 0, 0);
    let r = v.rotate_y(SCALE, 0);
    assert_eq!((r.x, r.y, r.z), (0, 0, -SCALE));
}

#[test]
fn rotations_about_each_axis() {
    let v = Vec3::new(0, SCALE, 0);
    // a quarter turn about x sends y to z
    let r = v.rotate_x(SCALE, 0);
    assert_eq!((r.x, r.y, r.z), (0, 0, SCALE));
    // a quarter turn about z sends x to y
    let w = Vec3::new(SCALE, 0, 0).rotate_z(SCALE, 0);
    assert_eq!((w.x, w.y, w.z), (0, SCALE, 0));
    // Rodrigues about the y axis matches the dedicated rotation
    let a = Vec3::new(SCALE, 0, 0);
    let rod = a.rotate_rodrigues(SCALE, 0, &Vec3::new(0, SCALE, 0));
    let dir = a.rotate_y(SCALE, 0);
    assert_eq!((rod.x, rod.y, rod.z), (dir.x, dir.y, dir.z));
}

#[test]
fn trig_exact_points() {
    assert_eq!(fp_sin_deg(0), 0);
    assert_eq!(fp_sin_deg(30 * SCALE), SCALE / 2);
    assert_eq!(fp_sin_deg(90 * SCALE), SCALE);
    assert_eq!(fp_sin_deg(150 * SCALE), SCALE / 2);
    assert_eq!(fp_sin_deg(-90 * SCALE), -SCALE);
    assert_eq!(fp_cos_deg(0), SCALE);
    assert_eq!(fp_cos_deg(60 * SCALE), SCALE / 2);
    assert_eq!(fp_cos_deg(90 * SCALE), 0);
}

#[test]
fn aabb_from_points_is_sorted() {
    let b = AABB::new_from_points(
        Vec3::new(SCALE, 5 * SCALE, -2 * SCALE),
        Vec3::new(-SCALE, 3 * SCALE, 4 * SCALE),
    );
    assert_eq!((b.x.min, b.x.max), (-SCALE, SCALE));
    assert_eq!((b.y.min, b.y.max), (3 * SCALE, 5 * SCALE));
    assert_eq!((b.z.min, b.z.max), (-2 * SCALE, 4 * SCALE));
}

#[test]
fn aabb_pad_gives_minimal_width() {
    let b = AABB::new_from_points(Vec3::new(0, 0, 0), Vec3::new(SCALE, 0, SCALE)).pad();
    assert!(b.x.max - b.x.min >= 8);
    assert!(b.y.max - b.y.min >= 8);
    assert!(b.z.max - b.z.min >= 8);
}

#[test]
fn slab_test_hits_and_misses() {
    let b = AABB::new_from_points(
        Vec3::new(-SCALE, -SCALE, -SCALE),
        Vec3::new(SCALE, SCALE, SCALE),
    );
    let toward = Ray::new(Vec3::new(-3 * SCALE, 0, 0), Vec3::new(SCALE, 0, 0), 0);
    assert!(b.hit(&toward, Interval::new(1, FP_INF)));
    let away = Ray::new(Vec3::new(-3 * SCALE, 0, 0), Vec3::new(-SCALE, 0, 0), 0);
    assert!(!b.hit(&away, Interval::new(1, FP_INF)));
    // parallel to the box along z, offset outside in y: trivially misses
    let parallel = Ray::new(Vec3::new(0, 5 * SCALE, -3 * SCALE), Vec3::new(0, 0, SCALE), 0);
    assert!(!b.hit(&parallel, Interval::new(1, FP_INF)));
}
