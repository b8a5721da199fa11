//! Colour constants and the tone-mapping step from accumulated linear
//! radiance to gamma-corrected bytes.

use vstd::prelude::*;
use crate::fixed::{SCALE, abs_int, quot_trunc, fdiv, sqrt_floor, fp_div, fp_mul, fp_sqrt, fp_clamp};
use crate::vec3::{Vec3, Color};
use crate::buffer::Pixel;

verus! {

/// Upper clamp of a tone-mapped channel, just below one.
pub const INTENSITY_MAX: i64 = 65470;  // 0.999 in fixed point

/// One channel tone-mapped: normalise by the sample count, take the gamma-2
/// square root, clamp just below one and widen to a byte.
pub open spec fn spec_rasterize_channel(c: int, samples: int) -> int {
    let scaled = fdiv(c, samples * (SCALE as int));
    let gamma = sqrt_floor((if scaled >= 0 {
        scaled
    } else {
        0
    }) * (SCALE as int));
    let clamped = if gamma > INTENSITY_MAX as int {
        INTENSITY_MAX as int
    } else {
        gamma
    };
    clamped / 256
}

/// Tone mapping round trip: squaring the byte a channel maps to (rescaled
/// to a unit fraction) recovers the normalised linear value to within the
/// quantisation of a byte. `g` is the gamma root of the normalised value
/// `scaled`, `b` the byte; away from the upper clamp, the square of
/// `b * 256` underestimates `scaled` by less than `600` fixed-point units,
/// about one percent.
pub proof fn lemma_rasterize_round_trip(scaled: int, g: int, b: int)
    requires
        0 <= scaled,
        crate::fixed::is_sqrt_floor(scaled * (SCALE as int), g),
        g <= INTENSITY_MAX,
        b == g / 256,
    ensures
        crate::fixed::fmul(b * 256, b * 256) <= scaled,
        scaled < crate::fixed::fmul(b * 256, b * 256) + 600,
{
    let rb = b * 256;
    vstd::arithmetic::div_mod::lemma_fundamental_div_mod(g, 256);
    vstd::arithmetic::div_mod::lemma_mod_bound(g, 256);
    assert(rb <= g < rb + 256);
    assert(0 <= rb);
    assert(rb * rb <= g * g) by (nonlinear_arith)
        requires
            0 <= rb <= g,
    ;
    assert(rb * rb >= 0) by (nonlinear_arith);
    // lower bound: the square of the byte fraction is below the value
    crate::fixed::lemma_quot_nonneg(rb * rb, SCALE as int);
    vstd::arithmetic::div_mod::lemma_div_is_ordered(rb * rb, scaled * (SCALE as int),
        SCALE as int);
    vstd::arithmetic::div_mod::lemma_div_multiples_vanish(scaled, SCALE as int);
    assert(scaled * (SCALE as int) == (SCALE as int) * scaled) by (nonlinear_arith);
    // upper bound: the value is below the square of the next byte fraction
    assert(scaled * (SCALE as int) < (g + 1) * (g + 1));
    assert((g + 1) * (g + 1) <= rb * rb + 512 * rb + 66049) by (nonlinear_arith)
        requires
            0 <= rb,
            rb <= g < rb + 256,
    ;
    assert(512 * rb + 66049 <= 512 * 65470 + 66049) by {
        assert(rb <= g <= 65470);
    };
    assert(scaled * (SCALE as int) < rb * rb + 33586689);
    vstd::arithmetic::div_mod::lemma_div_is_ordered(
        (SCALE as int) * scaled,
        rb * rb + 33586689,
        SCALE as int,
    );
    assert((rb * rb + 33586689) / (SCALE as int) <= (rb * rb) / (SCALE as int) + 33586689int / (
    SCALE as int) + 1) by {
        vstd::arithmetic::div_mod::lemma_fundamental_div_mod(rb * rb, SCALE as int);
        vstd::arithmetic::div_mod::lemma_fundamental_div_mod(rb * rb + 33586689, SCALE as int);
        vstd::arithmetic::div_mod::lemma_mod_bound(rb * rb, SCALE as int);
        vstd::arithmetic::div_mod::lemma_mod_bound(rb * rb + 33586689, SCALE as int);
        let q1 = (rb * rb) / (SCALE as int);
        let q2 = (rb * rb + 33586689) / (SCALE as int);
        assert(q2 * (SCALE as int) <= rb * rb + 33586689);
        assert(rb * rb >= q1 * (SCALE as int));
        assert(q2 * (SCALE as int) <= q1 * (SCALE as int) + (SCALE as int) - 1 + 33586689);
        assert(q2 <= q1 + (33586689 + SCALE as int - 1) / (SCALE as int)) by (nonlinear_arith)
            requires
                q2 * (SCALE as int) <= q1 * (SCALE as int) + (SCALE as int) - 1 + 33586689,
                SCALE == 65536,
        ;
    };
}

fn rasterize_channel(c: i64, samples: i64) -> (r: u8)
    requires
        1 <= samples <= 0x10000,
        0 <= c,
    ensures
        r == spec_rasterize_channel(c as int, samples as int),
{
    proof {
        crate::fixed::lemma_fdiv_bound(c as int, samples * (SCALE as int), 0x7fffffffffffffff);
        crate::fixed::lemma_quot_nonneg(c * (SCALE as int), samples * (SCALE as int));
        crate::fixed::lemma_abs_mul_bound(c as int, SCALE as int, 0x7fffffffffffffff,
            SCALE as int);
        assert(c * (SCALE as int) >= 0) by (nonlinear_arith)
            requires
                c >= 0,
        ;
        assert(samples * (SCALE as int) >= SCALE) by (nonlinear_arith)
            requires
                samples >= 1,
                SCALE == 65536,
        ;
    }
    let scaled = fp_div(c, samples * SCALE);
    let s2 = if scaled >= 0 {
        scaled
    } else {
        0
    };
    let gamma = fp_sqrt(s2);
    let clamped = if gamma > INTENSITY_MAX {
        INTENSITY_MAX
    } else {
        gamma
    };
    (clamped / 256) as u8
}

/// Convert an accumulated radiance sample sum to a gamma-corrected byte
/// pixel: divide by the sample count, take the square root per channel,
/// clamp just below one and scale to 256.
pub fn rasterize_color(pixel_color: Color, samples_per_pixel: usize) -> (r: Pixel)
    requires
        1 <= samples_per_pixel <= 0x10000,
        0 <= pixel_color.x,
        0 <= pixel_color.y,
        0 <= pixel_color.z,
    ensures
        r.r == spec_rasterize_channel(pixel_color.x as int, samples_per_pixel as int),
        r.g == spec_rasterize_channel(pixel_color.y as int, samples_per_pixel as int),
        r.b == spec_rasterize_channel(pixel_color.z as int, samples_per_pixel as int),
{
    let s = samples_per_pixel as i64;
    Pixel {
        r: rasterize_channel(pixel_color.x, s),
        g: rasterize_channel(pixel_color.y, s),
        b: rasterize_channel(pixel_color.z, s),
    }
}

/// The sky gradient: blend from white at the horizon to light blue
/// overhead, by the height of the unit ray direction.
pub open spec fn spec_sky_color(dir: crate::vec3::Vec3) -> Color {
    let uy = crate::vec3::spec_unit_dir(dir).y as int;
    let h = crate::fixed::fmul((SCALE / 2) as int, uy + SCALE as int);
    let w = SCALE as int - h;
    Vec3 {
        x: clamp_channel(crate::fixed::fmul(w, SCALE as int) + crate::fixed::fmul(h, 45875)),
        y: clamp_channel(crate::fixed::fmul(w, SCALE as int) + crate::fixed::fmul(h, 52429)),
        z: clamp_channel(crate::fixed::fmul(w, SCALE as int) + crate::fixed::fmul(h, SCALE as int)),
    }
}

/// A channel clamped into colour range.
pub open spec fn clamp_channel(c: int) -> i64 {
    if c < 0 {
        0
    } else if c > crate::vec3::VMAX as int {
        crate::vec3::VMAX
    } else {
        c as i64
    }
}

/// Colour of the sky a ray escapes into, blending white into light blue
/// with the ray's height.
pub fn sky_color(ray: &crate::ray::Ray) -> (r: Color)
    requires
        crate::vec3::within(ray.direction, 0x200000000 as int),
        crate::vec3::spec_len_sq(ray.direction) >= 1,
    ensures
        r == spec_sky_color(ray.direction),
        crate::texture::color_wf(r),
{
    let u = ray.direction.unit_dir();
    proof {
        crate::fixed::lemma_fmul_bound((SCALE / 2) as int, u.y + SCALE as int, SCALE as int, 3 * (
        SCALE as int));
        assert(((SCALE as int) * (3 * (SCALE as int))) / (SCALE as int) == 3 * (SCALE as int))
            by (nonlinear_arith);
    }
    let h = fp_mul(SCALE / 2, u.y + SCALE);
    let w = SCALE - h;
    proof {
        crate::fixed::lemma_fmul_bound(w as int, SCALE as int, 4 * (SCALE as int), SCALE as int);
        crate::fixed::lemma_fmul_bound(h as int, 45875, 3 * (SCALE as int), SCALE as int);
        crate::fixed::lemma_fmul_bound(h as int, 52429, 3 * (SCALE as int), SCALE as int);
        crate::fixed::lemma_fmul_bound(h as int, SCALE as int, 3 * (SCALE as int), SCALE as int);
        assert(((4 * (SCALE as int)) * (SCALE as int)) / (SCALE as int) == 4 * (SCALE as int))
            by (nonlinear_arith);
        assert(((3 * (SCALE as int)) * (SCALE as int)) / (SCALE as int) == 3 * (SCALE as int))
            by (nonlinear_arith);
    }
    let cx = fp_mul(w, SCALE) + fp_mul(h, 45875);
    let cy = fp_mul(w, SCALE) + fp_mul(h, 52429);
    let cz = fp_mul(w, SCALE) + fp_mul(h, SCALE);
    Vec3 {
        x: fp_clamp(cx, 0, crate::vec3::VMAX),
        y: fp_clamp(cy, 0, crate::vec3::VMAX),
        z: fp_clamp(cz, 0, crate::vec3::VMAX),
    }
}

/// Pure white at unit intensity.
pub fn color_white() -> (r: Color)
    ensures
        r == (Vec3 { x: SCALE, y: SCALE, z: SCALE }),
{
    Vec3 { x: SCALE, y: SCALE, z: SCALE }
}

/// Black: no radiance.
pub fn color_black() -> (r: Color)
    ensures
        r == (Vec3 { x: 0i64, y: 0i64, z: 0i64 }),
{
    Vec3 { x: 0, y: 0, z: 0 }
}

/// The sky tint used by the example scenes.
pub fn color_sky_blue() -> (r: Color)
    ensures
        r == (Vec3 { x: 45875i64, y: 52429i64, z: SCALE }),
{
    Vec3 { x: 45875, y: 52429, z: SCALE }
}

} // verus!
