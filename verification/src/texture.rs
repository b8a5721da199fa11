//! Colour lookup by surface coordinates `(u, v)` and spatial point `p`:
//! solid colours, a procedural spatial checker and image-backed textures.

use vstd::prelude::*;
use crate::fixed::{SCALE, abs_int, quot_trunc, floor_div_wide, lemma_quot_bound};
use crate::vec3::{Vec3, Point3, Color, VMAX, within};

verus! {

/// A colour is linear RGB with nonnegative components; values above one
/// scale unit model HDR emission.
pub open spec fn color_wf(c: Color) -> bool {
    0 <= c.x <= VMAX && 0 <= c.y <= VMAX && 0 <= c.z <= VMAX
}

#[derive(Debug)]
pub struct SolidColorTexture {
    pub value: Color,
}

#[derive(Debug)]
pub struct CheckerTexture {
    pub inv_scale: i64,
    pub even: Box<Texture>,
    pub odd: Box<Texture>,
}

#[derive(Debug)]
pub struct ImageTexture {
    pub width: usize,
    pub height: usize,
    pub pixels: Vec<Color>,
}

#[derive(Debug)]
pub struct NoiseTexture {
    pub scale: i64,
    pub noise: crate::perlin::Perlin,
}

#[derive(Debug)]
pub enum Texture {
    Solid(SolidColorTexture),
    Checker(CheckerTexture),
    Image(ImageTexture),
    Noise(NoiseTexture),
}

/// Well-formedness of a texture: colours are colours, checker scales are
/// positive, image dimensions match the pixel array.
pub open spec fn texture_wf(t: Texture) -> bool
    decreases t,
{
    match t {
        Texture::Solid(s) => color_wf(s.value),
        Texture::Checker(c) => 0 < c.inv_scale <= VMAX && texture_wf(*c.even) && texture_wf(
            *c.odd,
        ),
        Texture::Image(img) => 1 <= img.width <= 0x10000 && 1 <= img.height <= 0x10000
            && img.pixels.len() == img.width * img.height && (forall|k: int|
            0 <= k < img.pixels@.len() ==> color_wf(#[trigger] img.pixels@[k]) && within(
                img.pixels@[k],
                SCALE as int,
            )),
        Texture::Noise(n) => crate::perlin::perlin_wf(n.noise) && 0 < n.scale <= VMAX,
    }
}

/// Degrees per radian in fixed point, for feeding radian phases to the
/// degree-based sine.
pub const DEG_PER_RAD: i64 = 3754936;

/// Bound on the marble phase before conversion to degrees.
pub const PHASE_BOUND: i64 = 0x20000000000;

/// The marble pattern of a noise texture: a sine of the scaled depth
/// perturbed by turbulence, lifted into grey of unit range.
pub open spec fn spec_marble(n: NoiseTexture, p: Point3) -> Color {
    let turb = crate::perlin::spec_turbulence(n.noise, p, 7, SCALE as int);
    let raw_phase = crate::fixed::fmul(n.scale as int, p.z as int) + 10 * turb;
    let phase = if raw_phase < -PHASE_BOUND {
        -PHASE_BOUND as int
    } else if raw_phase > PHASE_BOUND as int {
        PHASE_BOUND as int
    } else {
        raw_phase
    };
    let s = crate::trig::spec_sin_deg(crate::fixed::fmul(phase, DEG_PER_RAD as int));
    let v = crate::fixed::fmul((SCALE / 2) as int, SCALE as int + s) as i64;
    Vec3 { x: v, y: v, z: v }
}

/// Floor of the product of two fixed-point scalars, as an integer count of
/// whole units: `floor((a/2^16) * (b/2^16))`.
pub open spec fn spec_floor_cell(a: int, b: int) -> int {
    (a * b) / 0x100000000
}

/// Which checker cell a point falls in, by the parity of the sum of the
/// per-axis floors.
pub open spec fn spec_checker_even(inv_scale: int, p: Point3) -> bool {
    (spec_floor_cell(inv_scale, p.x as int) + spec_floor_cell(inv_scale, p.y as int)
        + spec_floor_cell(inv_scale, p.z as int)) % 2 == 0
}

/// The colour a texture yields at `(u, v, p)`.
pub open spec fn spec_texture_value(t: Texture, u: int, v: int, p: Point3) -> Color
    decreases t,
{
    match t {
        Texture::Solid(s) => s.value,
        Texture::Checker(c) => if spec_checker_even(c.inv_scale as int, p) {
            spec_texture_value(*c.even, u, v, p)
        } else {
            spec_texture_value(*c.odd, u, v, p)
        },
        Texture::Noise(n) => spec_marble(n, p),
        Texture::Image(img) => {
            let uc = if u < 0 {
                0
            } else if u > SCALE as int {
                SCALE as int
            } else {
                u
            };
            let vc = SCALE as int - (if v < 0 {
                0
            } else if v > SCALE as int {
                SCALE as int
            } else {
                v
            });
            let i = quot_trunc(uc * (img.width - 1), SCALE as int);
            let j = quot_trunc(vc * (img.height - 1), SCALE as int);
            img.pixels@[j * img.width + i]
        },
    }
}

/// Signs do not change parity: negating a value keeps whether it is even.
proof fn lemma_neg_mod2(s: int)
    ensures
        (s % 2 == 0) == ((-s) % 2 == 0),
{
    vstd::arithmetic::div_mod::lemma_fundamental_div_mod(s, 2);
    let q = s / 2;
    let r = s % 2;
    if r == 0 {
        vstd::arithmetic::div_mod::lemma_fundamental_div_mod_converse_mod(-s, 2, -q, 0);
    } else {
        vstd::arithmetic::div_mod::lemma_fundamental_div_mod_converse_mod(-s, 2, -q - 1, 1);
    }
}

/// One checker cell index along one axis.
fn floor_cell(inv_scale: i64, c: i64) -> (r: i64)
    requires
        0 < inv_scale <= VMAX,
        abs_int(c as int) <= VMAX,
    ensures
        r == spec_floor_cell(inv_scale as int, c as int),
        abs_int(r as int) <= VMAX,
{
    proof {
        crate::fixed::lemma_abs_mul_bound(inv_scale as int, c as int, VMAX as int, VMAX as int);
        assert((VMAX as int) * (VMAX as int) == 0x100000000 * 0x100000000) by (nonlinear_arith);
        vstd::arithmetic::div_mod::lemma_div_is_ordered(
            inv_scale as int * (c as int),
            0x100000000int * 0x100000000,
            0x100000000,
        );
        vstd::arithmetic::div_mod::lemma_div_is_ordered(
            -(0x100000000int * 0x100000000),
            inv_scale as int * (c as int),
            0x100000000,
        );
        assert((0x100000000int * 0x100000000) / 0x100000000 == 0x100000000) by (nonlinear_arith);
        assert((-(0x100000000int * 0x100000000)) / 0x100000000 == -0x100000000)
            by (nonlinear_arith);
    }
    let prod: i128 = (inv_scale as i128) * (c as i128);
    let q = floor_div_wide(prod, 0x100000000);
    q as i64
}

impl SolidColorTexture {
    pub fn new(color: Color) -> (r: SolidColorTexture)
        ensures
            r.value == color,
    {
        SolidColorTexture { value: color }
    }

    pub fn new_rgb(red: i64, blue: i64, green: i64) -> (r: SolidColorTexture)
        ensures
            r.value == (Vec3 { x: red, y: blue, z: green }),
    {
        SolidColorTexture { value: Vec3 { x: red, y: blue, z: green } }
    }
}

impl CheckerTexture {
    /// A checker of two solid colours; `inv_scale` is the reciprocal of the
    /// cell size.
    pub fn new_color(scale: i64, even: Color, odd: Color) -> (r: CheckerTexture)
        requires
            0 < scale <= VMAX,
            color_wf(even),
            color_wf(odd),
        ensures
            r.inv_scale == crate::fixed::fdiv(SCALE as int, scale as int),
            *r.even == Texture::Solid(SolidColorTexture { value: even }),
            *r.odd == Texture::Solid(SolidColorTexture { value: odd }),
            texture_wf(Texture::Checker(r)),
    {
        proof {
            crate::fixed::lemma_quot_nonneg((SCALE as int) * (SCALE as int), scale as int);
            assert((SCALE as int) * (SCALE as int) == VMAX as int) by (nonlinear_arith);
            vstd::arithmetic::div_mod::lemma_div_is_ordered_by_denominator(
                VMAX as int,
                scale as int,
                VMAX as int,
            );
            vstd::arithmetic::div_mod::lemma_div_by_self(VMAX as int);
            vstd::arithmetic::div_mod::lemma_div_nonincreasing(VMAX as int, scale as int);
            vstd::arithmetic::div_mod::lemma_div_is_ordered_by_denominator(
                VMAX as int,
                1,
                scale as int,
            );
        }
        let inv_scale = crate::fixed::fp_div(SCALE, scale);
        assert(1 <= inv_scale);
        assert(inv_scale <= VMAX);
        let t_even = Box::new(Texture::Solid(SolidColorTexture { value: even }));
        let t_odd = Box::new(Texture::Solid(SolidColorTexture { value: odd }));
        assert(texture_wf(*t_even));
        assert(texture_wf(*t_odd));
        CheckerTexture { inv_scale, even: t_even, odd: t_odd }
    }
}

impl ImageTexture {
    /// Build from decoded pixel rows; the loading of the file itself is the
    /// host's business.
    pub fn new_from_pixels(width: usize, height: usize, pixels: Vec<Color>) -> (r: ImageTexture)
        requires
            1 <= width <= 0x10000,
            1 <= height <= 0x10000,
            pixels.len() == width * height,
            forall|k: int|
                0 <= k < pixels.len() ==> color_wf(#[trigger] pixels[k]) && within(
                    pixels[k],
                    SCALE as int,
                ),
        ensures
            r.width == width,
            r.height == height,
            r.pixels == pixels,
            texture_wf(Texture::Image(r)),
    {
        ImageTexture { width, height, pixels }
    }
}

impl NoiseTexture {
    /// A marble texture of the given spatial frequency, with fresh noise
    /// tables drawn from the generator.
    pub fn new(scale: i64, rng: &mut crate::rng::RngState) -> (r: NoiseTexture)
        requires
            0 < scale <= VMAX,
        ensures
            r.scale == scale,
            texture_wf(Texture::Noise(r)),
    {
        NoiseTexture { scale, noise: crate::perlin::Perlin::new(rng) }
    }
}

impl Texture {
    /// Colour of the texture at surface coordinates `(u, v)` and point `p`.
    pub fn value(&self, u: i64, v: i64, p: &Point3) -> (r: Color)
        requires
            texture_wf(*self),
            within(*p, VMAX as int),
            abs_int(u as int) <= VMAX,
            abs_int(v as int) <= VMAX,
        ensures
            r == spec_texture_value(*self, u as int, v as int, *p),
            color_wf(r),
        decreases *self,
    {
        match self {
            Texture::Solid(s) => s.value,
            Texture::Checker(c) => {
                let xi = floor_cell(c.inv_scale, p.x);
                let yi = floor_cell(c.inv_scale, p.y);
                let zi = floor_cell(c.inv_scale, p.z);
                let s = xi + yi + zi;
                let even = if s >= 0 {
                    s % 2 == 0
                } else {
                    (-s) % 2 == 0
                };
                proof {
                    lemma_neg_mod2(s as int);
                }
                if even {
                    c.even.value(u, v, p)
                } else {
                    c.odd.value(u, v, p)
                }
            },
            Texture::Noise(n) => {
                let turb = n.noise.turbulence(*p, 7);
                proof {
                    crate::fixed::lemma_fmul_bound(n.scale as int, p.z as int, VMAX as int,
                        VMAX as int);
                    assert(((VMAX as int) * (VMAX as int)) / (SCALE as int) == 0x1000000000000)
                        by (nonlinear_arith);
                }
                let raw_phase = crate::fixed::fp_mul(n.scale, p.z) + 10 * turb;
                let phase = crate::fixed::fp_clamp(raw_phase, -PHASE_BOUND, PHASE_BOUND);
                proof {
                    crate::fixed::lemma_fmul_bound(phase as int, DEG_PER_RAD as int,
                        PHASE_BOUND as int, DEG_PER_RAD as int);
                    assert(((PHASE_BOUND as int) * (DEG_PER_RAD as int)) / (SCALE as int)
                        <= 0x800000000000) by (nonlinear_arith);
                }
                let s = crate::trig::fp_sin_deg(crate::fixed::fp_mul(phase, DEG_PER_RAD));
                proof {
                    crate::fixed::lemma_fmul_bound((SCALE / 2) as int, SCALE as int + s,
                        SCALE as int, 2 * SCALE as int);
                    assert(((SCALE as int) * (2 * SCALE as int)) / (SCALE as int) == 2 * (
                    SCALE as int)) by (nonlinear_arith);
                    assert((SCALE / 2) * (SCALE as int + s) >= 0) by (nonlinear_arith)
                        requires
                            -SCALE <= s <= SCALE,
                            SCALE == 65536,
                    ;
                    crate::fixed::lemma_quot_nonneg((SCALE / 2) * (SCALE as int + s), SCALE as int);
                }
                let v = crate::fixed::fp_mul(SCALE / 2, SCALE + s);
                Vec3 { x: v, y: v, z: v }
            },
            Texture::Image(img) => {
                let uc = if u < 0 {
                    0
                } else if u > SCALE {
                    SCALE
                } else {
                    u
                };
                let vc = SCALE - (if v < 0 {
                    0
                } else if v > SCALE {
                    SCALE
                } else {
                    v
                });
                proof {
                    crate::fixed::lemma_abs_mul_bound(uc as int, img.width - 1, SCALE as int,
                        img.width - 1);
                    crate::fixed::lemma_abs_mul_bound(vc as int, img.height - 1, SCALE as int,
                        img.height - 1);
                    lemma_quot_bound(uc * (img.width - 1), SCALE as int, (SCALE as int) * (
                    img.width - 1));
                    lemma_quot_bound(vc * (img.height - 1), SCALE as int, (SCALE as int) * (
                    img.height - 1));
                    vstd::arithmetic::div_mod::lemma_div_multiples_vanish(
                        img.width - 1,
                        SCALE as int,
                    );
                    vstd::arithmetic::div_mod::lemma_div_multiples_vanish(
                        img.height - 1,
                        SCALE as int,
                    );
                    crate::fixed::lemma_quot_nonneg(uc * (img.width - 1), SCALE as int);
                    crate::fixed::lemma_quot_nonneg(vc * (img.height - 1), SCALE as int);
                    assert(uc * (img.width - 1) >= 0) by (nonlinear_arith)
                        requires
                            uc >= 0,
                            img.width >= 1,
                    ;
                    assert(vc * (img.height - 1) >= 0) by (nonlinear_arith)
                        requires
                            vc >= 0,
                            img.height >= 1,
                    ;
                }
                let iw: i128 = (uc as i128) * ((img.width - 1) as i128);
                let jw: i128 = (vc as i128) * ((img.height - 1) as i128);
                let i: usize = ((iw as u128) / (SCALE as u128)) as usize;
                let j: usize = ((jw as u128) / (SCALE as u128)) as usize;
                proof {
                    assert(j * img.width + i < img.width * img.height) by (nonlinear_arith)
                        requires
                            0 <= i <= img.width - 1,
                            0 <= j <= img.height - 1,
                            img.width >= 1,
                            img.height >= 1,
                    ;
                }
                let idx: usize = j * img.width + i;
                img.pixels[idx]
            },
        }
    }
}

} // verus!
