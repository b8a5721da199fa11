//! The frame pipeline: tone mapping, buffers, the scheduler and whole
//! renders of small scenes.

use tracer::fixed::SCALE;
use tracer::vec3::Vec3;
use tracer::material::{Material, Lambertian, DiffuseLight};
use tracer::hittable::{Hittable, HittableComposite, Sphere, Quad, ConstantMedium, BVH};
use tracer::camera::{Camera, shade};
use tracer::ray::Ray;
use tracer::buffer::{SliceBuffer, Canvas, Pixel};
use tracer::color::rasterize_color;
use tracer::render::{core_to_slices, render_scene, tile_extent};
use tracer::scenes::test_scene;

#[test]
fn slice_grid_table() {
    assert_eq!(core_to_slices(1), (1, 1));
    assert_eq!(core_to_slices(2), (2, 1));
    assert_eq!(core_to_slices(4), (2, 2));
    assert_eq!(core_to_slices(8), (4, 2));
    assert_eq!(core_to_slices(12), (4, 3));
    assert_eq!(core_to_slices(16), (4, 4));
    assert_eq!(core_to_slices(32), (8, 4));
    assert_eq!(core_to_slices(64), (8, 8));
    assert_eq!(core_to_slices(3), (1, 1));
    assert_eq!(core_to_slices(100), (1, 1));
}

#[test]
fn rasterize_known_bytes() {
    // half intensity maps through the gamma root to byte 181
    let half = Vec3::new(SCALE / 2, SCALE / 2, SCALE / 2);
    let p = rasterize_color(half, 1);
    assert_eq!((p.r, p.g, p.b), (181, 181, 181));
    // black stays black
    let z = rasterize_color(Vec3::new(0, 0, 0), 1);
    assert_eq!((z.r, z.g, z.b), (0, 0, 0));
    // values above one clamp to the brightest byte
    let hot = rasterize_color(Vec3::new(4 * SCALE, 4 * SCALE, 4 * SCALE), 1);
    assert_eq!((hot.r, hot.g, hot.b), (255, 255, 255));
    // averaging four samples of two recovers one half
    let sum = Vec3::new(2 * SCALE, 2 * SCALE, 2 * SCALE);
    let avg = rasterize_color(sum, 4);
    assert_eq!((avg.r, avg.g, avg.b), (181, 181, 181));
}

#[test]
fn canvas_starts_black() {
    let c = Canvas::new(4, 3);
    assert_eq!(c.width, 4);
    assert_eq!(c.height, 3);
    for row in &c.pixels {
        for px in row {
            assert_eq!((px.r, px.g, px.b), (0, 0, 0));
        }
    }
}

fn filled_slice(width: usize, height: usize, p_row: usize, p_col: usize, v: u8) -> SliceBuffer {
    let mut s = SliceBuffer::new_slice(width, height, p_row, p_col);
    let mut grid = Vec::new();
    for _ in 0..height {
        let mut row = Vec::new();
        for _ in 0..width {
            row.push(Pixel { r: v, g: v, b: v });
        }
        grid.push(row);
    }
    s.pixels = grid;
    s
}

#[test]
fn write_slice_copies_at_offset() {
    let mut canvas = Canvas::new(6, 5);
    let slice = filled_slice(2, 3, 1, 2, 9);
    assert!(canvas.write_slice(&slice));
    for i in 0..5 {
        for j in 0..6 {
            let expected = if (1..4).contains(&i) && (2..4).contains(&j) { 9 } else { 0 };
            assert_eq!(canvas.pixels[i][j].r, expected, "at ({i},{j})");
        }
    }
}

#[test]
fn write_slice_rejects_bad_fits() {
    let mut canvas = Canvas::new(4, 4);
    // too large
    assert!(!canvas.write_slice(&filled_slice(5, 2, 0, 0, 9)));
    // position overflows the canvas
    assert!(!canvas.write_slice(&filled_slice(2, 2, 3, 0, 9)));
    // untouched
    for row in &canvas.pixels {
        for px in row {
            assert_eq!(px.r, 0);
        }
    }
}

fn small_camera(width: usize, height: usize, background: Vec3) -> Camera {
    let mut cam = Camera::new_default();
    cam.image_width = width;
    cam.image_height = height;
    cam.background = background;
    cam.look_from = Vec3::new(0, 0, 3 * SCALE);
    cam.look_at = Vec3::new(0, 0, 0);
    cam.initialize();
    cam
}

#[test]
fn tile_grid_covers_odd_dimensions() {
    assert_eq!(tile_extent(0, 2, 7), (0, 3));
    assert_eq!(tile_extent(1, 2, 7), (3, 4));
    assert_eq!(tile_extent(0, 4, 5), (0, 1));
    assert_eq!(tile_extent(3, 4, 5), (3, 2));
    // a frame the grid does not divide: every pixel is still rendered
    let bg = Vec3::new(45875, 52429, SCALE);
    let cam = small_camera(7, 5, bg);
    let world = Hittable::Composite(HittableComposite::new());
    let canvas = render_scene(4, &world, &cam, 1, 3, 17);
    let expected = rasterize_color(bg, 1);
    for (i, row) in canvas.pixels.iter().enumerate() {
        for (j, px) in row.iter().enumerate() {
            assert_eq!(
                (px.r, px.g, px.b),
                (expected.r, expected.g, expected.b),
                "uncovered pixel at ({i},{j})"
            );
        }
    }
}

#[test]
fn empty_scene_black_background_renders_all_zero() {
    let cam = small_camera(6, 4, Vec3::new(0, 0, 0));
    let world = Hittable::Composite(HittableComposite::new());
    let canvas = render_scene(1, &world, &cam, 1, 5, 42);
    assert_eq!(canvas.width, 6);
    assert_eq!(canvas.height, 4);
    for row in &canvas.pixels {
        for px in row {
            assert_eq!((px.r, px.g, px.b), (0, 0, 0));
        }
    }
}

#[test]
fn empty_scene_matches_background_everywhere() {
    let bg = Vec3::new(45875, 52429, SCALE);
    let cam = small_camera(5, 4, bg);
    let world = Hittable::Composite(HittableComposite::new());
    let samples = 3usize;
    let canvas = render_scene(1, &world, &cam, samples, 5, 42);
    let expected = rasterize_color(
        Vec3::new(bg.x * samples as i64, bg.y * samples as i64, bg.z * samples as i64),
        samples,
    );
    for row in &canvas.pixels {
        for px in row {
            assert_eq!((px.r, px.g, px.b), (expected.r, expected.g, expected.b));
        }
    }
}

#[test]
fn shade_combines_emission_and_scatter() {
    let emitted = Vec3::new(SCALE / 4, 0, 0);
    let rc = Vec3::new(SCALE, SCALE / 2, 0);
    // no scatter: the emitted light alone
    let alone = shade(emitted, &None, rc);
    assert_eq!((alone.x, alone.y, alone.z), (SCALE / 4, 0, 0));
    // scatter: emitted plus attenuation times the recursive colour
    let att = Vec3::new(SCALE / 2, SCALE / 2, SCALE / 2);
    let sc = Some((att, Ray::new(Vec3::new(0, 0, 0), Vec3::new(0, 0, -SCALE), 0)));
    let lit = shade(emitted, &sc, rc);
    assert_eq!((lit.x, lit.y, lit.z), (SCALE / 4 + SCALE / 2, SCALE / 4, 0));
}

#[test]
fn pixel_rays_are_deterministic_in_their_draws() {
    let cam = small_camera(4, 4, Vec3::new(0, 0, 0));
    let lens = Vec3::new(0, 0, 0);
    let a = cam.pixel_ray(SCALE, 2 * SCALE, 100, -200, &lens, 7);
    let b = cam.pixel_ray(SCALE, 2 * SCALE, 100, -200, &lens, 7);
    assert_eq!((a.origin.x, a.origin.y, a.origin.z), (b.origin.x, b.origin.y, b.origin.z));
    assert_eq!(
        (a.direction.x, a.direction.y, a.direction.z),
        (b.direction.x, b.direction.y, b.direction.z)
    );
    // with no defocus the ray starts at the camera centre
    assert_eq!((a.origin.x, a.origin.y, a.origin.z), (cam.center.x, cam.center.y, cam.center.z));
}

#[test]
fn centre_pixel_of_grey_sphere_is_exact() {
    // a half-grey unit sphere against a white background: one bounce
    // attenuates white by one half, and the gamma byte is exactly 181
    let cam = small_camera(3, 3, Vec3::new(SCALE, SCALE, SCALE));
    let mut world = HittableComposite::new();
    world.add_hittable(Hittable::Sphere(Sphere::new(
        Vec3::new(0, 0, 0),
        SCALE,
        Material::Lambertian(Lambertian::new(Vec3::new(SCALE / 2, SCALE / 2, SCALE / 2))),
    )));
    let world = Hittable::Composite(world);
    let canvas = render_scene(1, &world, &cam, 1, 2, 11);
    let centre = canvas.pixels[1][1];
    assert_eq!((centre.r, centre.g, centre.b), (181, 181, 181));
}

#[test]
fn bvh_and_composite_render_identically() {
    let mut objects = Vec::new();
    let mut k: i64 = 1;
    for i in -2..3i64 {
        for j in -2..3i64 {
            // a deterministic pseudo-random jitter for centres and shades
            k = k.wrapping_mul(6364136223846793005).wrapping_add(1442695040888963407);
            let jitter = (k >> 33) % (SCALE / 2);
            let shade = SCALE / 4 + ((k >> 17) & 0x3FFF);
            objects.push((
                Vec3::new(i * 2 * SCALE + jitter, j * 2 * SCALE - jitter, -4 * SCALE),
                Vec3::new(shade, shade, shade),
            ));
        }
    }
    let build = |entries: &Vec<(Vec3, Vec3)>| {
        let mut world = HittableComposite::new();
        for (centre, shade) in entries {
            world.add_hittable(Hittable::Sphere(Sphere::new(
                *centre,
                SCALE / 2,
                Material::Lambertian(Lambertian::new(*shade)),
            )));
        }
        world
    };
    let cam = small_camera(8, 6, Vec3::new(SCALE, 52429, 45875));
    let flat = Hittable::Composite(build(&objects));
    let tree = BVH::new(build(&objects));
    let a = render_scene(1, &flat, &cam, 2, 4, 99);
    let b = render_scene(1, &tree, &cam, 2, 4, 99);
    for i in 0..a.height {
        for j in 0..a.width {
            let pa = a.pixels[i][j];
            let pb = b.pixels[i][j];
            assert_eq!((pa.r, pa.g, pa.b), (pb.r, pb.g, pb.b), "pixel ({i},{j})");
        }
    }
}

#[test]
fn light_over_floor_brightens_pixels_below_it() {
    // a small closed room: white floor, dim walls, a bright ceiling light
    let mut world = HittableComposite::new();
    let white = || Material::Lambertian(Lambertian::new(Vec3::new(47841, 47841, 47841)));
    // floor
    world.add_hittable(Hittable::Quad(Quad::new(
        Vec3::new(-4 * SCALE, -SCALE, -4 * SCALE),
        Vec3::new(8 * SCALE, 0, 0),
        Vec3::new(0, 0, 8 * SCALE),
        white(),
    )));
    // bright square light above the middle of the floor
    world.add_hittable(Hittable::Quad(Quad::new(
        Vec3::new(-SCALE, 3 * SCALE, -2 * SCALE),
        Vec3::new(2 * SCALE, 0, 0),
        Vec3::new(0, 0, 2 * SCALE),
        Material::DiffuseLight(DiffuseLight::new_color(Vec3::new(
            15 * SCALE,
            15 * SCALE,
            15 * SCALE,
        ))),
    )));
    let mut cam = Camera::new_default();
    cam.image_width = 12;
    cam.image_height = 8;
    cam.background = Vec3::new(0, 0, 0);
    cam.look_from = Vec3::new(0, 2 * SCALE, 6 * SCALE);
    cam.look_at = Vec3::new(0, 0, -SCALE);
    cam.initialize();
    let world = Hittable::Composite(world);
    let canvas = render_scene(1, &world, &cam, 64, 8, 5);
    // pixels near the middle of the floor (under the light) against a far corner
    let centre = canvas.pixels[5][6];
    let corner = canvas.pixels[7][0];
    let c_sum = centre.r as u32 + centre.g as u32 + centre.b as u32;
    let k_sum = corner.r as u32 + corner.g as u32 + corner.b as u32;
    assert!(
        c_sum > k_sum,
        "under-light pixel {c_sum} should out-shine the corner {k_sum}"
    );
}

#[test]
fn medium_darkens_white_background() {
    let cam = small_camera(6, 6, Vec3::new(SCALE, SCALE, SCALE));
    let empty = Hittable::Composite(HittableComposite::new());
    let base = render_scene(1, &empty, &cam, 4, 6, 21);

    let boundary = Hittable::Sphere(Sphere::new(
        Vec3::new(0, 0, 0),
        2 * SCALE,
        Material::Lambertian(Lambertian::new(Vec3::new(SCALE / 2, SCALE / 2, SCALE / 2))),
    ));
    let mut world = HittableComposite::new();
    world.add_hittable(Hittable::ConstantMedium(ConstantMedium::new_color(
        boundary,
        SCALE / 2,
        Vec3::new(0, 0, 0),
    )));
    let world = Hittable::Composite(world);
    let hazy = render_scene(1, &world, &cam, 4, 6, 21);

    let total = |c: &Canvas| -> u64 {
        let mut t: u64 = 0;
        for row in &c.pixels {
            for px in row {
                t += px.r as u64 + px.g as u64 + px.b as u64;
            }
        }
        t
    };
    assert!(
        total(&hazy) < total(&base),
        "a dark medium must darken the frame: {} vs {}",
        total(&hazy),
        total(&base)
    );
}

#[test]
fn demonstration_scene_renders() {
    let (cam, world) = test_scene();
    let mut cam = cam;
    cam.image_width = 8;
    cam.image_height = 6;
    cam.initialize();
    let canvas = render_scene(1, &world, &cam, 2, 4, 3);
    assert_eq!(canvas.width, 8);
    assert_eq!(canvas.height, 6);
    // the sky background lights the frame: not everything is black
    let mut any_lit = false;
    for row in &canvas.pixels {
        for px in row {
            if px.r > 0 || px.g > 0 || px.b > 0 {
                any_lit = true;
            }
        }
    }
    assert!(any_lit);
}
