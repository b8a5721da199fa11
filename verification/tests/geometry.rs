//! Intersection behaviour of the hittables and the materials.

use tracer::fixed::SCALE;
use tracer::vec3::Vec3;
use tracer::interval::{Interval, FP_INF};
use tracer::ray::Ray;
use tracer::material::{Material, Lambertian, Metal, Dielectric, dielectric_direction};
use tracer::optics::reflect;
use tracer::hittable::{
    Hittable, HittableComposite, Sphere, Quad, Translate, RotateY, ConstantMedium, BVH, box_new,
    medium_scatter_t,
};
use tracer::sphereflake::new_sphereflake_upright;
use tracer::rng::RngState;

fn grey() -> Material {
    Material::Lambertian(Lambertian::new(Vec3::new(SCALE / 2, SCALE / 2, SCALE / 2)))
}

fn unit_sphere_at(x: i64, y: i64, z: i64) -> Sphere {
    Sphere::new(Vec3::new(x, y, z), SCALE, grey())
}

#[test]
fn sphere_front_hit_is_exact() {
    let s = unit_sphere_at(0, 0, 0);
    let ray = Ray::new(Vec3::new(0, 0, 3 * SCALE), Vec3::new(0, 0, -SCALE), 0);
    let rec = s.hit(&ray, Interval::new(66, FP_INF)).expect("must hit");
    assert_eq!(rec.t, 2 * SCALE);
    assert_eq!((rec.point.x, rec.point.y, rec.point.z), (0, 0, SCALE));
    assert_eq!((rec.normal.x, rec.normal.y, rec.normal.z), (0, 0, SCALE));
    assert!(rec.front_face);
    // longitude of +z is a quarter, latitude of the equator is a half
    assert_eq!(rec.u, SCALE / 4);
    assert_eq!(rec.v, SCALE / 2);
}

#[test]
fn sphere_miss_returns_none() {
    let s = unit_sphere_at(0, 0, 0);
    let ray = Ray::new(Vec3::new(0, 0, 3 * SCALE), Vec3::new(0, 0, SCALE), 0);
    assert!(s.hit(&ray, Interval::new(66, FP_INF)).is_none());
}

#[test]
fn sphere_inside_hits_back_face() {
    let s = unit_sphere_at(0, 0, 0);
    let ray = Ray::new(Vec3::new(0, 0, 0), Vec3::new(0, 0, -SCALE), 0);
    let rec = s.hit(&ray, Interval::new(66, FP_INF)).expect("must hit from inside");
    assert_eq!(rec.t, SCALE);
    assert!(!rec.front_face);
    // the stored normal faces against the ray: toward positive z
    assert!(rec.normal.z > 0);
}

#[test]
fn sphere_surface_outward_ray_finds_no_acne() {
    let s = unit_sphere_at(0, 0, 0);
    // origin exactly on the surface, direction outward
    let ray = Ray::new(Vec3::new(0, 0, SCALE), Vec3::new(0, 0, SCALE), 0);
    assert!(s.hit(&ray, Interval::new(66, FP_INF)).is_none());
}

fn standing_quad() -> Quad {
    Quad::new(
        Vec3::new(-SCALE, -SCALE, 0),
        Vec3::new(2 * SCALE, 0, 0),
        Vec3::new(0, 2 * SCALE, 0),
        grey(),
    )
}

#[test]
fn quad_centre_hit_is_exact() {
    let q = standing_quad();
    let ray = Ray::new(Vec3::new(0, 0, 3 * SCALE), Vec3::new(0, 0, -SCALE), 0);
    let rec = q.hit(&ray, Interval::new(66, FP_INF)).expect("must hit");
    assert_eq!(rec.t, 3 * SCALE);
    assert_eq!((rec.point.x, rec.point.y, rec.point.z), (0, 0, 0));
    assert_eq!(rec.u, SCALE / 2);
    assert_eq!(rec.v, SCALE / 2);
    assert!(rec.front_face);
}

#[test]
fn quad_parallel_ray_misses() {
    let q = standing_quad();
    // the ray runs inside the quad's plane: parallel, no hit
    let ray = Ray::new(Vec3::new(-3 * SCALE, 0, 0), Vec3::new(SCALE, 0, 0), 0);
    assert!(q.hit(&ray, Interval::new(66, FP_INF)).is_none());
}

#[test]
fn quad_outside_planar_bounds_misses() {
    let q = standing_quad();
    let ray = Ray::new(Vec3::new(5 * SCALE, 0, 3 * SCALE), Vec3::new(0, 0, -SCALE), 0);
    assert!(q.hit(&ray, Interval::new(66, FP_INF)).is_none());
}

#[test]
fn composite_returns_nearest_hit_in_any_order() {
    let near = Hittable::Sphere(unit_sphere_at(0, 0, 0));
    let far = Hittable::Sphere(unit_sphere_at(0, 0, -4 * SCALE));
    let ray = Ray::new(Vec3::new(0, 0, 3 * SCALE), Vec3::new(0, 0, -SCALE), 0);
    let mut rng = RngState::from_seed(7);

    let mut a = HittableComposite::new();
    a.add_hittable(Hittable::Sphere(unit_sphere_at(0, 0, 0)));
    a.add_hittable(Hittable::Sphere(unit_sphere_at(0, 0, -4 * SCALE)));
    let comp_a = Hittable::Composite(a);
    let ra = comp_a.hit(&ray, Interval::new(66, FP_INF), &mut rng).expect("must hit");

    let mut b = HittableComposite::new();
    b.add_hittable(far);
    b.add_hittable(near);
    let comp_b = Hittable::Composite(b);
    let rb = comp_b.hit(&ray, Interval::new(66, FP_INF), &mut rng).expect("must hit");

    assert_eq!(ra.t, 2 * SCALE);
    assert_eq!(rb.t, 2 * SCALE);
}

#[test]
fn translate_round_trip_matches_direct_hit() {
    let ray = Ray::new(Vec3::new(0, 0, 3 * SCALE), Vec3::new(0, 0, -SCALE), 0);
    let mut rng = RngState::from_seed(7);
    let direct = Hittable::Sphere(unit_sphere_at(0, 0, 0));
    let d = direct.hit(&ray, Interval::new(66, FP_INF), &mut rng).expect("direct");

    let v = Vec3::new(3 * SCALE, -2 * SCALE, SCALE);
    let once = Translate::new(Hittable::Sphere(unit_sphere_at(0, 0, 0)), v);
    let back = Translate::new(Hittable::Translate(once), v.neg());
    let composed = Hittable::Translate(back);
    let c = composed.hit(&ray, Interval::new(66, FP_INF), &mut rng).expect("composed");

    assert_eq!(c.t, d.t);
    assert_eq!((c.point.x, c.point.y, c.point.z), (d.point.x, d.point.y, d.point.z));
    assert_eq!((c.normal.x, c.normal.y, c.normal.z), (d.normal.x, d.normal.y, d.normal.z));
    assert_eq!(c.front_face, d.front_face);
}

#[test]
fn rotate_round_trip_is_close() {
    let ray = Ray::new(Vec3::new(0, 0, 3 * SCALE), Vec3::new(0, 0, -SCALE), 0);
    let mut rng = RngState::from_seed(7);
    let direct = Hittable::Sphere(unit_sphere_at(0, 0, 0));
    let d = direct.hit(&ray, Interval::new(66, FP_INF), &mut rng).expect("direct");

    let theta = 30 * SCALE;
    let once = RotateY::new(Hittable::Sphere(unit_sphere_at(0, 0, 0)), theta);
    let back = RotateY::new(Hittable::RotateY(once), -theta);
    let composed = Hittable::RotateY(back);
    let c = composed.hit(&ray, Interval::new(66, FP_INF), &mut rng).expect("composed");

    assert!((c.t - d.t).abs() < 1000, "t drifted: {} vs {}", c.t, d.t);
    assert!((c.point.z - d.point.z).abs() < 1000);
}

#[test]
fn bvh_preserves_nearest_hit() {
    let ray = Ray::new(Vec3::new(0, 0, 6 * SCALE), Vec3::new(0, 0, -SCALE), 0);
    let mut rng = RngState::from_seed(7);
    let mut world = HittableComposite::new();
    world.add_hittable(Hittable::Sphere(unit_sphere_at(0, 0, 0)));
    world.add_hittable(Hittable::Sphere(unit_sphere_at(0, 0, -4 * SCALE)));
    world.add_hittable(Hittable::Sphere(unit_sphere_at(4 * SCALE, 0, 0)));
    world.add_hittable(Hittable::Sphere(unit_sphere_at(-4 * SCALE, 0, 0)));
    world.add_hittable(Hittable::Sphere(unit_sphere_at(0, 4 * SCALE, 0)));
    let tree = BVH::new(world);
    let rec = tree.hit(&ray, Interval::new(66, FP_INF), &mut rng).expect("must hit");
    assert_eq!(rec.t, 5 * SCALE);
}

#[test]
fn box_is_hit_on_each_side() {
    let b = box_new(
        Vec3::new(-SCALE, -SCALE, -SCALE),
        Vec3::new(SCALE, SCALE, SCALE),
        grey(),
    );
    let mut rng = RngState::from_seed(7);
    let from_z = Ray::new(Vec3::new(0, 0, 4 * SCALE), Vec3::new(0, 0, -SCALE), 0);
    let rec = b.hit(&from_z, Interval::new(66, FP_INF), &mut rng).expect("front");
    assert_eq!(rec.t, 3 * SCALE);
    let from_x = Ray::new(Vec3::new(4 * SCALE, 0, 0), Vec3::new(-SCALE, 0, 0), 0);
    let rec = b.hit(&from_x, Interval::new(66, FP_INF), &mut rng).expect("side");
    assert_eq!(rec.t, 3 * SCALE);
}

#[test]
fn sphereflake_grows_and_intersects() {
    let flake = new_sphereflake_upright(Vec3::new(0, SCALE, 0), SCALE, grey(), 2);
    let mut rng = RngState::from_seed(7);
    // a ray aimed at the base sphere's centre
    let ray = Ray::new(Vec3::new(0, SCALE, 5 * SCALE), Vec3::new(0, 0, -SCALE), 0);
    let rec = flake
        .hit(&ray, Interval::new(66, tracer::interval::FP_INF), &mut rng)
        .expect("the base sphere must be hit");
    // the nearest surface on this ray is a child sphere hanging toward the
    // camera, one third the radius, sitting on the base sphere
    assert!(rec.t < 5 * SCALE);
    assert!(rec.front_face);
}

#[test]
fn medium_with_heavy_density_scatters_inside() {
    // with a very low inverse density the sampled distance is tiny, so the
    // medium always reports a scattering event inside its boundary
    let boundary = Hittable::Sphere(unit_sphere_at(0, 0, 0));
    let medium = Hittable::ConstantMedium(ConstantMedium::new_color(
        boundary,
        tracer::vec3::VMAX,
        Vec3::new(SCALE, SCALE, SCALE),
    ));
    let ray = Ray::new(Vec3::new(0, 0, 3 * SCALE), Vec3::new(0, 0, -SCALE), 0);
    for seed in 0..8u64 {
        let mut rng = RngState::from_seed(seed);
        let rec = medium
            .hit(&ray, Interval::new(66, FP_INF), &mut rng)
            .expect("dense medium must scatter");
        assert!(rec.t >= 66);
        assert!(rec.front_face);
    }
}

#[test]
fn medium_scatter_decision_is_exact() {
    // density one over a two-unit crossing of a unit-speed ray: a drawn
    // distance of one scatters at parameter one, of three passes through
    assert_eq!(medium_scatter_t(0, 2 * SCALE, SCALE, SCALE, SCALE), Some(SCALE));
    assert_eq!(medium_scatter_t(0, 2 * SCALE, SCALE, 3 * SCALE, SCALE), None);
    // entry offset shifts the scattering parameter
    assert_eq!(
        medium_scatter_t(SCALE, 3 * SCALE, SCALE, SCALE, SCALE),
        Some(2 * SCALE)
    );
}

#[test]
fn total_internal_reflection_always_reflects() {
    // grazing incidence from inside glass: eta sin(theta) > 1, so every
    // drawn fraction reflects
    let ud = Vec3::new(63000, -18000, 0).unit_dir();
    let n = Vec3::new(0, SCALE, 0);
    let eta = 98304; // 1.5
    let expected = reflect(&ud, &n);
    for u in [0i64, 20000, 40000, 65535] {
        let dir = dielectric_direction(&ud, &n, eta, u);
        assert_eq!((dir.x, dir.y, dir.z), (expected.x, expected.y, expected.z));
    }
}

#[test]
fn metal_scatter_stays_above_surface() {
    let m = Material::Metal(Metal::new(Vec3::new(SCALE, SCALE, SCALE), SCALE / 2));
    let s = unit_sphere_at(0, 0, 0);
    let ray = Ray::new(Vec3::new(0, 0, 3 * SCALE), Vec3::new(0, 0, -SCALE), 0);
    let rec = s.hit(&ray, Interval::new(66, FP_INF)).expect("must hit");
    for seed in 0..16u64 {
        let mut rng = RngState::from_seed(seed);
        if let Some((_att, scattered)) = m.scatter(&ray, &rec, &mut rng) {
            assert!(scattered.direction.dot(&rec.normal) > 0);
        }
    }
}

#[test]
fn lambertian_scatter_never_degenerates() {
    let m = grey();
    let s = unit_sphere_at(0, 0, 0);
    let ray = Ray::new(Vec3::new(0, 0, 3 * SCALE), Vec3::new(0, 0, -SCALE), 0);
    let rec = s.hit(&ray, Interval::new(66, FP_INF)).expect("must hit");
    for seed in 0..16u64 {
        let mut rng = RngState::from_seed(seed);
        let (att, scattered) = m.scatter(&ray, &rec, &mut rng).expect("lambertian scatters");
        assert_eq!((att.x, att.y, att.z), (SCALE / 2, SCALE / 2, SCALE / 2));
        // direction magnitude stays above the degenerate threshold
        assert!(scattered.direction.length_squared() >= SCALE / 4);
    }
}

#[test]
fn dielectric_always_scatters_white() {
    let m = Material::Dielectric(Dielectric { ir: 98304 });
    let s = unit_sphere_at(0, 0, 0);
    let ray = Ray::new(Vec3::new(0, 0, 3 * SCALE), Vec3::new(0, 0, -SCALE), 0);
    let rec = s.hit(&ray, Interval::new(66, FP_INF)).expect("must hit");
    for seed in 0..8u64 {
        let mut rng = RngState::from_seed(seed);
        let (att, _scattered) = m.scatter(&ray, &rec, &mut rng).expect("dielectric scatters");
        assert_eq!((att.x, att.y, att.z), (SCALE, SCALE, SCALE));
    }
}
