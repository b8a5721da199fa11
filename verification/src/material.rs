//! The scattering model: diffuse, metallic, dielectric, emissive and
//! isotropic materials. Scattering may draw randomness, so the contracts
//! state what holds of every outcome.

use vstd::prelude::*;
use crate::fixed::{SCALE, abs_int, quot_trunc, fmul, fdiv, sqrt_floor, is_sqrt_floor};
use crate::vec3::{
    Vec3, Point3, Color, VMAX, within, unit_wf, spec_len_sq, spec_add, spec_scale, spec_dot,
    spec_unit_dir, lemma_dot_bound, lemma_len_sq_nonneg,
};
use crate::texture::{Texture, SolidColorTexture, texture_wf, spec_texture_value, color_wf};
use crate::ray::Ray;
use crate::rng::RngState;
use crate::optics::{
    reflect, refract, reflectance, spec_reflect, spec_refract, spec_reflectance,
};
use crate::hittable::HitRecord;

verus! {

pub struct Lambertian {
    pub albedo: Texture,
}

pub struct Metal {
    pub albedo: Color,
    pub fuzz: i64,
}

pub struct Dielectric {
    pub ir: i64,
}

pub struct DiffuseLight {
    pub emit: Texture,
}

pub struct Isotropic {
    pub albedo: Texture,
}

pub enum Material {
    Lambertian(Lambertian),
    Metal(Metal),
    Dielectric(Dielectric),
    DiffuseLight(DiffuseLight),
    Isotropic(Isotropic),
}

/// Well-formedness: textures are well formed, fuzz lies in `[0, 1]`, the
/// refraction index is positive and moderate.
pub open spec fn material_wf(m: Material) -> bool {
    match m {
        Material::Lambertian(l) => texture_wf(l.albedo),
        Material::Metal(mt) => color_wf(mt.albedo) && 0 <= mt.fuzz <= SCALE,
        Material::Dielectric(d) => SCALE / 16 <= d.ir <= 16 * SCALE,
        Material::DiffuseLight(dl) => texture_wf(dl.emit),
        Material::Isotropic(i) => texture_wf(i.albedo),
    }
}

/// The emitted colour: the emissive texture for a diffuse light, black for
/// every other material.
pub open spec fn spec_emitted(m: Material, u: int, v: int, p: Point3) -> Color {
    match m {
        Material::DiffuseLight(dl) => spec_texture_value(dl.emit, u, v, p),
        _ => Vec3 { x: 0i64, y: 0i64, z: 0i64 },
    }
}

/// Cosine of the angle between a unit-scale incident direction and the
/// normal, as the dielectric computes it.
pub open spec fn spec_dielectric_cos(ud: Vec3, n: Vec3) -> int {
    -(if spec_dot(ud, n) <= SCALE as int {
        spec_dot(ud, n)
    } else {
        SCALE as int
    })
}

/// The matching sine, `sqrt(1 - cos^2)` clamped below at zero.
pub open spec fn spec_dielectric_sin(cos: int) -> int {
    sqrt_floor((if SCALE as int - fmul(cos, cos) >= 0 {
        SCALE as int - fmul(cos, cos)
    } else {
        0
    }) * (SCALE as int))
}

/// Snell's condition: no real refraction angle exists.
pub open spec fn spec_cannot_refract(ud: Vec3, n: Vec3, eta: int) -> bool {
    fmul(eta, spec_dielectric_sin(spec_dielectric_cos(ud, n))) > SCALE as int
}

/// The dielectric reflects: total internal reflection, or Schlick's
/// reflectance exceeds the drawn fraction `u`.
pub open spec fn spec_dielectric_reflects(ud: Vec3, n: Vec3, eta: int, u: int) -> bool {
    spec_cannot_refract(ud, n, eta) || spec_reflectance(spec_dielectric_cos(ud, n), eta) > u
}

/// The dielectric refracts: a refraction angle exists and Schlick's
/// reflectance does not exceed the drawn fraction `u`.
pub open spec fn spec_dielectric_refracts(ud: Vec3, n: Vec3, eta: int, u: int) -> bool {
    !spec_cannot_refract(ud, n, eta) && spec_reflectance(spec_dielectric_cos(ud, n), eta) <= u
}

/// For every drawn fraction the dielectric takes exactly one of the two
/// branches: the reflect and refract cases partition the whole probability.
pub proof fn lemma_dielectric_scatter_total(ud: Vec3, n: Vec3, eta: int, u: int)
    ensures
        spec_dielectric_reflects(ud, n, eta, u) <==> !spec_dielectric_refracts(ud, n, eta, u),
{
}

/// The direction the dielectric scatters into for a drawn fraction `u`.
pub open spec fn spec_dielectric_direction(ud: Vec3, n: Vec3, eta: int, u: int) -> Vec3 {
    if spec_dielectric_reflects(ud, n, eta, u) {
        spec_reflect(ud, n)
    } else {
        spec_refract(ud, n, eta)
    }
}

/// Decide and compute the dielectric's scattered direction from the drawn
/// fraction `u`; deterministic, so the contract is exact.
pub fn dielectric_direction(ud: &Vec3, n: &Vec3, eta: i64, u: i64) -> (r: Vec3)
    requires
        within(*ud, 2 * SCALE as int),
        within(*n, 2 * SCALE as int),
        0 < eta <= 16 * SCALE,
        0 <= u < SCALE,
    ensures
        r == spec_dielectric_direction(*ud, *n, eta as int, u as int),
{
    proof {
        lemma_dot_bound(*ud, *n, 2 * (SCALE as int));
        assert((3 * (2 * (SCALE as int)) * (2 * (SCALE as int))) / (SCALE as int) == 12 * (
        SCALE as int)) by (nonlinear_arith);
    }
    let d = ud.dot(n);
    let cos = -(if d <= SCALE { d } else { SCALE });
    proof {
        crate::fixed::lemma_fmul_bound(cos as int, cos as int, 12 * (SCALE as int), 12 * (SCALE as int));
        assert((12 * (SCALE as int) * (12 * (SCALE as int))) / (SCALE as int) == 144 * (
        SCALE as int)) by (nonlinear_arith);
    }
    proof {
        assert(cos * cos >= 0) by (nonlinear_arith);
        crate::fixed::lemma_quot_nonneg(cos * cos, SCALE as int);
    }
    let c2 = crate::fixed::fp_mul(cos, cos);
    let s2 = if SCALE - c2 >= 0 {
        SCALE - c2
    } else {
        0
    };
    let sin = crate::fixed::fp_sqrt(s2);
    proof {
        assert(sin * sin <= s2 * (SCALE as int));
        assert(sin <= SCALE) by (nonlinear_arith)
            requires
                (sin as int) * (sin as int) <= s2 * (SCALE as int),
                0 <= s2 <= SCALE,
                sin >= 0,
                SCALE == 65536,
        ;
        crate::fixed::lemma_fmul_bound(eta as int, sin as int, 16 * (SCALE as int), SCALE as int);
        assert((16 * (SCALE as int) * (SCALE as int)) / (SCALE as int) == 16 * (SCALE as int))
            by (nonlinear_arith);
    }
    let cannot_refract = crate::fixed::fp_mul(eta, sin) > SCALE;
    let must_reflect = if cannot_refract {
        true
    } else {
        reflectance(cos, eta) > u
    };
    if must_reflect {
        reflect(ud, n)
    } else {
        refract(ud, n, eta)
    }
}

/// A copy of a texture: well-formedness carries over and it yields the
/// same colour everywhere.
pub fn copy_texture(t: &Texture) -> (r: Texture)
    ensures
        texture_wf(*t) ==> texture_wf(r),
        forall|u: int, v: int, p: Point3|
            spec_texture_value(r, u, v, p) == #[trigger] spec_texture_value(*t, u, v, p),
    decreases *t,
{
    match t {
        Texture::Solid(s) => {
            let res = Texture::Solid(SolidColorTexture { value: s.value });
            proof {
                assert forall|u: int, v: int, p: Point3|
                    spec_texture_value(res, u, v, p) == #[trigger] spec_texture_value(
                        *t,
                        u,
                        v,
                        p,
                    ) by {
                    assert(spec_texture_value(res, u, v, p) == s.value);
                    assert(spec_texture_value(*t, u, v, p) == s.value);
                };
            }
            res
        },
        Texture::Checker(c) => {
            let even = copy_texture(&c.even);
            let odd = copy_texture(&c.odd);
            let res = Texture::Checker(
                crate::texture::CheckerTexture {
                    inv_scale: c.inv_scale,
                    even: Box::new(even),
                    odd: Box::new(odd),
                },
            );
            proof {
                assert forall|u: int, v: int, p: Point3|
                    spec_texture_value(res, u, v, p) == #[trigger] spec_texture_value(
                        *t,
                        u,
                        v,
                        p,
                    ) by {
                    if crate::texture::spec_checker_even(c.inv_scale as int, p) {
                        assert(spec_texture_value(res, u, v, p) == spec_texture_value(
                            even,
                            u,
                            v,
                            p,
                        ));
                        assert(spec_texture_value(*t, u, v, p) == spec_texture_value(
                            *c.even,
                            u,
                            v,
                            p,
                        ));
                    } else {
                        assert(spec_texture_value(res, u, v, p) == spec_texture_value(
                            odd,
                            u,
                            v,
                            p,
                        ));
                        assert(spec_texture_value(*t, u, v, p) == spec_texture_value(
                            *c.odd,
                            u,
                            v,
                            p,
                        ));
                    }
                };
            }
            res
        },
        Texture::Image(img) => {
            let mut pixels: Vec<Color> = Vec::new();
            let mut k: usize = 0;
            while k < img.pixels.len()
                invariant
                    k <= img.pixels@.len(),
                    pixels@.len() == k,
                    forall|i: int| 0 <= i < k ==> pixels@[i] == img.pixels@[i],
                decreases img.pixels@.len() - k,
            {
                pixels.push(img.pixels[k]);
                k = k + 1;
            }
            proof {
                assert(pixels@ =~= img.pixels@);
            }
            let res = Texture::Image(
                crate::texture::ImageTexture { width: img.width, height: img.height, pixels },
            );
            proof {
                assert forall|u: int, v: int, p: Point3|
                    spec_texture_value(res, u, v, p) == #[trigger] spec_texture_value(
                        *t,
                        u,
                        v,
                        p,
                    ) by {
                };
            }
            res
        },
        Texture::Noise(n) => {
            let gradients = copy_gradients(&n.noise.random_vec);
            let px = copy_bytes(&n.noise.perm_x);
            let py = copy_bytes(&n.noise.perm_y);
            let pz = copy_bytes(&n.noise.perm_z);
            let res = Texture::Noise(
                crate::texture::NoiseTexture {
                    scale: n.scale,
                    noise: crate::perlin::Perlin {
                        random_vec: gradients,
                        perm_x: px,
                        perm_y: py,
                        perm_z: pz,
                    },
                },
            );
            proof {
                let n2 = res->Noise_0;
                assert forall|u: int, v: int, p: Point3|
                    spec_texture_value(res, u, v, p) == #[trigger] spec_texture_value(
                        *t,
                        u,
                        v,
                        p,
                    ) by {
                    crate::perlin::lemma_turbulence_congruent(n2.noise, n.noise, p, 7,
                        crate::fixed::SCALE as int);
                };
            }
            res
        },
    }
}

/// An exact copy of a gradient table.
fn copy_gradients(v: &Vec<Color>) -> (r: Vec<Color>)
    ensures
        r@ == v@,
{
    let mut out: Vec<Color> = Vec::new();
    let mut k: usize = 0;
    while k < v.len()
        invariant
            k <= v@.len(),
            out@.len() == k,
            forall|i: int| 0 <= i < k ==> out@[i] == v@[i],
        decreases v@.len() - k,
    {
        out.push(v[k]);
        k = k + 1;
    }
    proof {
        assert(out@ =~= v@);
    }
    out
}

/// An exact copy of a permutation table.
fn copy_bytes(v: &Vec<u8>) -> (r: Vec<u8>)
    ensures
        r@ == v@,
{
    let mut out: Vec<u8> = Vec::new();
    let mut k: usize = 0;
    while k < v.len()
        invariant
            k <= v@.len(),
            out@.len() == k,
            forall|i: int| 0 <= i < k ==> out@[i] == v@[i],
        decreases v@.len() - k,
    {
        out.push(v[k]);
        k = k + 1;
    }
    proof {
        assert(out@ =~= v@);
    }
    out
}

/// A copy of a material, so several objects can share one look:
/// well-formedness carries over, the variant is kept, and it emits the same
/// light everywhere.
pub fn copy_material(m: &Material) -> (r: Material)
    ensures
        material_wf(*m) ==> material_wf(r),
        forall|u: int, v: int, p: Point3|
            spec_emitted(r, u, v, p) == #[trigger] spec_emitted(*m, u, v, p),
        (r is Lambertian) == (*m is Lambertian),
        (r is Metal) == (*m is Metal),
        (r is Dielectric) == (*m is Dielectric),
        (r is DiffuseLight) == (*m is DiffuseLight),
        (r is Isotropic) == (*m is Isotropic),
{
    match m {
        Material::Lambertian(l) => Material::Lambertian(
            Lambertian { albedo: copy_texture(&l.albedo) },
        ),
        Material::Metal(mt) => Material::Metal(Metal { albedo: mt.albedo, fuzz: mt.fuzz }),
        Material::Dielectric(d) => Material::Dielectric(Dielectric { ir: d.ir }),
        Material::DiffuseLight(dl) => Material::DiffuseLight(
            DiffuseLight { emit: copy_texture(&dl.emit) },
        ),
        Material::Isotropic(i) => Material::Isotropic(
            Isotropic { albedo: copy_texture(&i.albedo) },
        ),
    }
}

impl Lambertian {
    pub fn new(color: Color) -> (r: Lambertian)
        ensures
            r.albedo == Texture::Solid(SolidColorTexture { value: color }),
    {
        Lambertian { albedo: Texture::Solid(SolidColorTexture { value: color }) }
    }

    pub fn new_texture(t: Texture) -> (r: Lambertian)
        ensures
            r.albedo == t,
    {
        Lambertian { albedo: t }
    }
}

impl Metal {
    pub fn new(albedo: Color, fuzz: i64) -> (r: Metal)
        ensures
            r.albedo == albedo,
            r.fuzz == fuzz,
    {
        Metal { albedo, fuzz }
    }

    pub fn new_mirror(albedo: Color) -> (r: Metal)
        ensures
            r.albedo == albedo,
            r.fuzz == 0,
    {
        Metal { albedo, fuzz: 0 }
    }

    pub fn new_fuzzy(albedo: Color) -> (r: Metal)
        ensures
            r.albedo == albedo,
            r.fuzz == SCALE,
    {
        Metal { albedo, fuzz: SCALE }
    }
}

impl DiffuseLight {
    pub fn new(texture: Texture) -> (r: DiffuseLight)
        ensures
            r.emit == texture,
    {
        DiffuseLight { emit: texture }
    }

    pub fn new_color(color: Color) -> (r: DiffuseLight)
        ensures
            r.emit == Texture::Solid(SolidColorTexture { value: color }),
    {
        DiffuseLight { emit: Texture::Solid(SolidColorTexture { value: color }) }
    }
}

impl Isotropic {
    pub fn new_color(color: Color) -> (r: Isotropic)
        ensures
            r.albedo == Texture::Solid(SolidColorTexture { value: color }),
    {
        Isotropic { albedo: Texture::Solid(SolidColorTexture { value: color }) }
    }

    pub fn new_texture(t: Texture) -> (r: Isotropic)
        ensures
            r.albedo == t,
    {
        Isotropic { albedo: t }
    }
}

impl Material {
    /// The emitted colour at `(u, v, p)`: nonzero only for diffuse lights.
    pub fn emitted(&self, u: i64, v: i64, point: &Point3) -> (r: Color)
        requires
            material_wf(*self),
            within(*point, VMAX as int),
            abs_int(u as int) <= VMAX,
            abs_int(v as int) <= VMAX,
        ensures
            r == spec_emitted(*self, u as int, v as int, *point),
            color_wf(r),
    {
        match self {
            Material::DiffuseLight(dl) => dl.emit.value(u, v, point),
            _ => Vec3 { x: 0, y: 0, z: 0 },
        }
    }

    /// Scatter an incident ray at a hit. The result may draw randomness, so
    /// the contract pins the deterministic parts: whether scattering happens,
    /// the attenuation, the scattered origin and time, and the shape of the
    /// scattered direction.
    pub fn scatter(&self, incident: &Ray, rec: &HitRecord<'_>, rng: &mut RngState) -> (r: Option<
        (Color, Ray),
    >)
        requires
            material_wf(*self),
            within(rec.point, VMAX as int),
            unit_wf(rec.normal),
            within(rec.normal, 2 * SCALE as int),
            abs_int(rec.u as int) <= VMAX,
            abs_int(rec.v as int) <= VMAX,
            within(incident.direction, 0x200000000 as int),
            spec_len_sq(incident.direction) >= 1,
        ensures
            r matches Some((att, sc)) ==> color_wf(att) && sc.origin == rec.point && sc.time
                == incident.time && within(sc.direction, 0x200000000 as int) && spec_len_sq(
                sc.direction,
            ) >= 1,
            match *self {
                Material::Lambertian(l) => r matches Some((att, sc)) && att == spec_texture_value(
                    l.albedo,
                    rec.u as int,
                    rec.v as int,
                    rec.point,
                ) && color_wf(att) && sc.origin == rec.point && sc.time == incident.time
                    && spec_len_sq(sc.direction) >= SCALE / 4 && within(
                    sc.direction,
                    4 * SCALE as int,
                ),
                Material::Metal(mt) => r matches Some((att, sc)) ==> att == mt.albedo && sc.origin
                    == rec.point && sc.time == incident.time && spec_dot(sc.direction, rec.normal)
                    > 0 && spec_len_sq(sc.direction) >= 1 && within(sc.direction, 500 * SCALE as int)
                    && (mt.fuzz == 0 ==> sc.direction == spec_reflect(
                    spec_unit_dir(incident.direction),
                    rec.normal,
                )),
                Material::Dielectric(d) => r matches Some((att, sc)) && att == (Vec3 {
                    x: SCALE,
                    y: SCALE,
                    z: SCALE,
                }) && sc.origin == rec.point && sc.time == incident.time && (sc.direction
                    == spec_reflect(
                    spec_unit_dir(incident.direction),
                    rec.normal,
                ) || sc.direction == spec_refract(
                    spec_unit_dir(incident.direction),
                    rec.normal,
                    if rec.front_face {
                        fdiv(SCALE as int, d.ir as int)
                    } else {
                        d.ir as int
                    },
                ) || sc.direction == rec.normal),
                Material::DiffuseLight(_) => r is None,
                Material::Isotropic(i) => r matches Some((att, sc)) && att == spec_texture_value(
                    i.albedo,
                    rec.u as int,
                    rec.v as int,
                    rec.point,
                ) && color_wf(att) && sc.origin == rec.point && sc.time == incident.time && unit_wf(
                    sc.direction,
                ) && within(sc.direction, 2 * SCALE as int),
            },
    {
        match self {
            Material::Lambertian(l) => {
                let s = rng.random_on_unit_sphere();
                let candidate = rec.normal.add(&s);
                proof {
                    lemma_dot_bound(candidate, candidate, 4 * (SCALE as int));
                    lemma_len_sq_nonneg(candidate);
                }
                let ls = candidate.length_squared();
                let direction = if ls >= SCALE / 4 {
                    candidate
                } else {
                    rec.normal
                };
                let att = l.albedo.value(rec.u, rec.v, &rec.point);
                Some((att, Ray { origin: rec.point, direction, time: incident.time }))
            },
            Material::Metal(mt) => {
                let ud = incident.direction.unit_dir();
                let reflected = reflect(&ud, &rec.normal);
                let s = rng.random_in_unit_sphere();
                proof {
                    crate::fixed::lemma_fmul_bound(s.x as int, mt.fuzz as int, SCALE as int, SCALE as int);
                    crate::fixed::lemma_fmul_bound(s.y as int, mt.fuzz as int, SCALE as int, SCALE as int);
                    crate::fixed::lemma_fmul_bound(s.z as int, mt.fuzz as int, SCALE as int, SCALE as int);
                }
                let fuzzed = s.scale(mt.fuzz);
                proof {
                    if mt.fuzz == 0 {
                        assert(s.x * 0 == 0 && s.y * 0 == 0 && s.z * 0 == 0) by (nonlinear_arith);
                        assert(fuzzed == (Vec3 { x: 0i64, y: 0i64, z: 0i64 }));
                    }
                }
                let direction = reflected.add(&fuzzed);
                proof {
                    if mt.fuzz == 0 {
                        assert(direction == reflected);
                    }
                }
                proof {
                    lemma_dot_bound(direction, rec.normal, 500 * (SCALE as int));
                    lemma_dot_bound(direction, direction, 500 * (SCALE as int));
                    lemma_len_sq_nonneg(direction);
                }
                let d = direction.dot(&rec.normal);
                let ls = direction.length_squared();
                if d > 0 && ls >= 1 {
                    Some((
                        mt.albedo,
                        Ray { origin: rec.point, direction, time: incident.time },
                    ))
                } else {
                    None
                }
            },
            Material::Dielectric(d) => {
                let ratio = if rec.front_face {
                    proof {
                        crate::fixed::lemma_quot_nonneg((SCALE as int) * (SCALE as int), d.ir as int);
                        vstd::arithmetic::div_mod::lemma_div_is_ordered_by_denominator(
                            (SCALE as int) * (SCALE as int),
                            SCALE as int / 16,
                            d.ir as int,
                        );
                        vstd::arithmetic::div_mod::lemma_div_is_ordered_by_denominator(
                            (SCALE as int) * (SCALE as int),
                            1,
                            d.ir as int,
                        );
                        assert(((SCALE as int) * (SCALE as int)) / (SCALE as int / 16) == 16 * (
                        SCALE as int)) by (nonlinear_arith);
                        assert(((SCALE as int) * (SCALE as int)) / 1 >= 1) by (nonlinear_arith);
                        assert(((SCALE as int) * (SCALE as int)) / (d.ir as int) >= 1) by (nonlinear_arith)
                            requires
                                SCALE as int / 16 <= d.ir <= 16 * (SCALE as int),
                                SCALE == 65536,
                        ;
                    }
                    crate::fixed::fp_div(SCALE, d.ir)
                } else {
                    d.ir
                };
                let ud = incident.direction.unit_dir();
                let u = rng.random_unit();
                let raw_direction = dielectric_direction(&ud, &rec.normal, ratio, u);
                let db = 1024 * SCALE;
                let in_bounds = raw_direction.x <= db && -db <= raw_direction.x
                    && raw_direction.y <= db && -db <= raw_direction.y && raw_direction.z <= db
                    && -db <= raw_direction.z;
                let direction = if in_bounds {
                    proof {
                        lemma_dot_bound(raw_direction, raw_direction, 1024 * SCALE as int);
                        lemma_len_sq_nonneg(raw_direction);
                    }
                    let ls = raw_direction.length_squared();
                    if ls >= 1 {
                        raw_direction
                    } else {
                        rec.normal
                    }
                } else {
                    rec.normal
                };
                Some((
                    Vec3 { x: SCALE, y: SCALE, z: SCALE },
                    Ray { origin: rec.point, direction, time: incident.time },
                ))
            },
            Material::DiffuseLight(_) => None,
            Material::Isotropic(i) => {
                let direction = rng.random_on_unit_sphere();
                let att = i.albedo.value(rec.u, rec.v, &rec.point);
                Some((att, Ray { origin: rec.point, direction, time: incident.time }))
            },
        }
    }
}

} // verus!
