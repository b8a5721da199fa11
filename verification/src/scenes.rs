//! Scene construction helpers: a ready-made demonstration scene.

use vstd::prelude::*;
use crate::fixed::SCALE;
use crate::vec3::{Vec3, Point3, Color, VMAX, within};
use crate::texture::color_wf;
use crate::material::{Material, Lambertian, Metal, Dielectric, material_wf};
use crate::hittable::{
    Hittable, HittableComposite, Sphere, Quad, hittable_wf, bvh_tree_ok,
};
use crate::camera::{Camera, camera_wf};

verus! {

/// A large ground quad centred under the origin, with a diffuse colour.
pub fn generate_default_plane(plane_size: i64, color: Color) -> (r: Quad)
    requires
        0 < plane_size <= VMAX / 4,
        color_wf(color),
    ensures
        hittable_wf(Hittable::Quad(r)),
        bvh_tree_ok(Hittable::Quad(r)),
        r.bottom_left == (Vec3 {
            x: (-(plane_size / 2)) as i64,
            y: 0i64,
            z: (-(plane_size / 2)) as i64,
        }),
        r.u == (Vec3 { x: plane_size, y: 0i64, z: 0i64 }),
        r.v == (Vec3 { x: 0i64, y: 0i64, z: plane_size }),
        r.material is Lambertian,
{
    let half = plane_size / 2;
    let plane_material = Material::Lambertian(Lambertian::new(color));
    Quad::new(
        Vec3 { x: -half, y: 0, z: -half },
        Vec3 { x: plane_size, y: 0, z: 0 },
        Vec3 { x: 0, y: 0, z: plane_size },
        plane_material,
    )
}

/// The demonstration scene: a grey ground plane, three spheres of glass,
/// diffuse and metal, two small coloured quads and a long fuzzy mirror,
/// seen by a camera slightly above the origin. Returns the configured
/// camera, ready to render, and the scene root.
pub fn test_scene() -> (r: (Camera, Hittable))
    ensures
        camera_wf(r.0),
        hittable_wf(r.1),
        bvh_tree_ok(r.1),
        r.1 matches Hittable::Composite(c) && c.objects@.len() == 7,
        r.0.background == (Vec3 { x: 45875i64, y: 52429i64, z: 72090i64 }),
        r.0.look_from == (Vec3 { x: 52429i64, y: 65536i64, z: 131072i64 }),
        r.0.look_at == (Vec3 { x: 52429i64, y: 0i64, z: (-65536) as i64 }),
        ({
            let objs = (r.1)->Composite_0.objects@;
            // the ground plane
            (objs[0] matches Hittable::Quad(q) && q.bottom_left == (Vec3 {
                x: (-983040) as i64,
                y: 0i64,
                z: (-983040) as i64,
            }) && q.u == (Vec3 { x: 1966080i64, y: 0i64, z: 0i64 }) && q.v == (Vec3 {
                x: 0i64,
                y: 0i64,
                z: 1966080i64,
            }) && q.material is Lambertian)
            // glass, diffuse and metal spheres on the plane
            && (objs[1] matches Hittable::Sphere(s) && s.center == (Vec3 {
                x: 0i64,
                y: 19661i64,
                z: 0i64,
            }) && s.radius == 19661 && s.material == Material::Dielectric(
                crate::material::Dielectric { ir: 98304 },
            )) && (objs[2] matches Hittable::Sphere(s) && s.center == (Vec3 {
                x: (-45876) as i64,
                y: 19661i64,
                z: 0i64,
            }) && s.radius == 19661 && s.material is Lambertian) && (objs[3]
                matches Hittable::Sphere(s) && s.center == (Vec3 {
                x: 45876i64,
                y: 19661i64,
                z: 0i64,
            }) && s.radius == 19661 && s.material == Material::Metal(
                crate::material::Metal {
                    albedo: Vec3 { x: 45875i64, y: 39322i64, z: 32768i64 },
                    fuzz: 0i64,
                },
            ))
            // the red quad, the long fuzzy mirror and the blue mirror quad
            && (objs[4] matches Hittable::Quad(q) && q.bottom_left == (Vec3 {
                x: 72090i64,
                y: 0i64,
                z: 0i64,
            }) && q.material is Lambertian) && (objs[5] matches Hittable::Quad(q)
                && q.bottom_left == (Vec3 { x: (-196608) as i64, y: 0i64, z: (-52429) as i64 })
                && q.material == Material::Metal(
                crate::material::Metal {
                    albedo: Vec3 { x: 52429i64, y: 45875i64, z: 39322i64 },
                    fuzz: 3277i64,
                },
            )) && (objs[6] matches Hittable::Quad(q) && q.bottom_left == (Vec3 {
                x: 98304i64,
                y: 0i64,
                z: 0i64,
            }) && q.material == Material::Metal(
                crate::material::Metal {
                    albedo: Vec3 { x: 6554i64, y: 6554i64, z: 58982i64 },
                    fuzz: 0i64,
                },
            ))
        }),
{
    let mut cam = Camera::new_default();
    cam.look_from = Vec3 { x: 52429, y: 65536, z: 131072 };
    cam.look_at = Vec3 { x: 52429, y: 0, z: -65536 };
    cam.background = Vec3 { x: 45875, y: 52429, z: 72090 };
    let mut world = HittableComposite::new();

    // ground plane, thirty units across
    let plane = generate_default_plane(1966080, Vec3 { x: 32768, y: 32768, z: 32768 });
    world.add_hittable(Hittable::Quad(plane));

    // three spheres: glass, diffuse, metal
    let sphere_radius: i64 = 19661;
    world.add_hittable(
        Hittable::Sphere(
            Sphere::new(
                Vec3 { x: 0, y: sphere_radius, z: 0 },
                sphere_radius,
                Material::Dielectric(Dielectric { ir: 98304 }),
            ),
        ),
    );
    world.add_hittable(
        Hittable::Sphere(
            Sphere::new(
                Vec3 { x: -sphere_radius * 2 - 6554, y: sphere_radius, z: 0 },
                sphere_radius,
                Material::Lambertian(Lambertian::new(Vec3 { x: 26214, y: 13107, z: 6554 })),
            ),
        ),
    );
    world.add_hittable(
        Hittable::Sphere(
            Sphere::new(
                Vec3 { x: sphere_radius * 2 + 6554, y: sphere_radius, z: 0 },
                sphere_radius,
                Material::Metal(Metal { albedo: Vec3 { x: 45875, y: 39322, z: 32768 }, fuzz: 0 }),
            ),
        ),
    );

    // a small red quad
    world.add_hittable(
        Hittable::Quad(
            Quad::new(
                Vec3 { x: 72090, y: 0, z: 0 },
                Vec3 { x: 19661, y: 0, z: 0 },
                Vec3 { x: 0, y: 39322, z: 0 },
                Material::Lambertian(Lambertian::new(Vec3 { x: 58982, y: 6554, z: 6554 })),
            ),
        ),
    );

    // a long fuzzy mirror behind the spheres
    world.add_hittable(
        Hittable::Quad(
            Quad::new(
                Vec3 { x: -196608, y: 0, z: -52429 },
                Vec3 { x: 524288, y: 0, z: 0 },
                Vec3 { x: 0, y: 78643, z: 0 },
                Material::Metal(
                    Metal { albedo: Vec3 { x: 52429, y: 45875, z: 39322 }, fuzz: 3277 },
                ),
            ),
        ),
    );

    // a small blue mirror quad
    world.add_hittable(
        Hittable::Quad(
            Quad::new(
                Vec3 { x: 98304, y: 0, z: 0 },
                Vec3 { x: 19661, y: 0, z: 0 },
                Vec3 { x: 0, y: 39322, z: 0 },
                Material::Metal(Metal { albedo: Vec3 { x: 6554, y: 6554, z: 58982 }, fuzz: 0 }),
            ),
        ),
    );

    cam.initialize();
    (cam, Hittable::Composite(world))
}

} // verus!
