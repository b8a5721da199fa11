//! Texture lookups, the sky gradient and the noise tables.

use tracer::fixed::SCALE;
use tracer::vec3::Vec3;
use tracer::ray::Ray;
use tracer::texture::{Texture, SolidColorTexture, CheckerTexture, ImageTexture, NoiseTexture};
use tracer::color::sky_color;
use tracer::perlin::{Perlin, generate_perlin_permutation, NOISE_BOUND};
use tracer::rng::RngState;

#[test]
fn solid_texture_is_constant() {
    let t = Texture::Solid(SolidColorTexture::new(Vec3::new(SCALE, SCALE / 2, 0)));
    for p in [Vec3::new(0, 0, 0), Vec3::new(7 * SCALE, -3 * SCALE, SCALE)] {
        let c = t.value(0, 0, &p);
        assert_eq!((c.x, c.y, c.z), (SCALE, SCALE / 2, 0));
    }
}

#[test]
fn checker_alternates_by_cell() {
    let even = Vec3::new(SCALE, SCALE, SCALE);
    let odd = Vec3::new(0, 0, 0);
    let t = Texture::Checker(CheckerTexture::new_color(SCALE, even, odd));
    // the cell of (0.5, 0.5, 0.5) has even floor sum, its x-neighbour odd
    let a = t.value(0, 0, &Vec3::new(SCALE / 2, SCALE / 2, SCALE / 2));
    assert_eq!(a.x, SCALE);
    let b = t.value(0, 0, &Vec3::new(3 * SCALE / 2, SCALE / 2, SCALE / 2));
    assert_eq!(b.x, 0);
    // stepping one cell in two axes restores the even colour
    let c = t.value(0, 0, &Vec3::new(3 * SCALE / 2, 3 * SCALE / 2, SCALE / 2));
    assert_eq!(c.x, SCALE);
}

#[test]
fn image_texture_maps_corners() {
    // a 2 by 2 image: row 0 holds red and green, row 1 holds blue and white
    let red = Vec3::new(SCALE, 0, 0);
    let green = Vec3::new(0, SCALE, 0);
    let blue = Vec3::new(0, 0, SCALE);
    let white = Vec3::new(SCALE, SCALE, SCALE);
    let img = ImageTexture::new_from_pixels(2, 2, vec![red, green, blue, white]);
    let t = Texture::Image(img);
    let p = Vec3::new(0, 0, 0);
    // u = 0, v = 1 is the top-left pixel of the image (row 0)
    let c = t.value(0, SCALE, &p);
    assert_eq!((c.x, c.y, c.z), (SCALE, 0, 0));
    // u = 1, v = 1 is top-right
    let c = t.value(SCALE, SCALE, &p);
    assert_eq!((c.x, c.y, c.z), (0, SCALE, 0));
    // u = 0, v = 0 is bottom-left (row 1)
    let c = t.value(0, 0, &p);
    assert_eq!((c.x, c.y, c.z), (0, 0, SCALE));
    // out-of-range coordinates clamp
    let c = t.value(-SCALE, 2 * SCALE, &p);
    assert_eq!((c.x, c.y, c.z), (SCALE, 0, 0));
}

#[test]
fn sky_gradient_blends_white_to_blue() {
    let up = Ray::new(Vec3::new(0, 0, 0), Vec3::new(0, SCALE, 0), 0);
    let c = sky_color(&up);
    assert_eq!((c.x, c.y, c.z), (45875, 52429, SCALE));
    let down = Ray::new(Vec3::new(0, 0, 0), Vec3::new(0, -SCALE, 0), 0);
    let c = sky_color(&down);
    assert_eq!((c.x, c.y, c.z), (SCALE, SCALE, SCALE));
}

#[test]
fn marble_texture_is_grey_and_varies() {
    let mut rng = RngState::from_seed(31);
    let t = Texture::Noise(NoiseTexture::new(4 * SCALE, &mut rng));
    let mut values = Vec::new();
    for k in 0..8i64 {
        let p = Vec3::new(k * SCALE / 3, k * SCALE / 5, k * SCALE / 2);
        let c = t.value(0, 0, &p);
        // the marble is a grey ramp within unit range
        assert_eq!(c.x, c.y);
        assert_eq!(c.y, c.z);
        assert!(0 <= c.x && c.x <= SCALE);
        values.push(c.x);
    }
    // the pattern is not constant
    assert!(values.iter().any(|v| *v != values[0]));
}

#[test]
fn permutation_holds_every_byte() {
    let mut rng = RngState::from_seed(123);
    let perm = generate_perlin_permutation(&mut rng);
    assert_eq!(perm.len(), 256);
    let mut sorted = perm.clone();
    sorted.sort();
    for (i, v) in sorted.iter().enumerate() {
        assert_eq!(*v as usize, i);
    }
}

#[test]
fn noise_is_deterministic_and_bounded() {
    let mut rng_a = RngState::from_seed(5);
    let pa = Perlin::new(&mut rng_a);
    let mut rng_b = RngState::from_seed(5);
    let pb = Perlin::new(&mut rng_b);
    for k in 0..20i64 {
        let p = Vec3::new(k * 37 * SCALE / 10, -k * 13 * SCALE / 10, k * SCALE / 3);
        let na = pa.noise(&p);
        let nb = pb.noise(&p);
        assert_eq!(na, nb);
        assert!(na.abs() <= NOISE_BOUND);
    }
}

#[test]
fn turbulence_is_nonnegative_and_bounded() {
    let mut rng = RngState::from_seed(9);
    let perlin = Perlin::new(&mut rng);
    for k in 0..10i64 {
        let p = Vec3::new(k * SCALE / 2, k * SCALE / 5, -k * SCALE / 7);
        let t = perlin.turbulence(p, 7);
        assert!(0 <= t && t <= 16 * NOISE_BOUND);
    }
}
