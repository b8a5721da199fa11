//! The camera: viewport setup from the look parameters, randomly jittered
//! ray generation, and the recursive radiance integrator.

use vstd::prelude::*;
use crate::fixed::{SCALE, abs_int, quot_trunc, fdiv, fmul, fp_mul, fp_div, fp_clamp};
use crate::vec3::{
    Vec3, Point3, Color, VMAX, within, spec_dot, spec_sub, spec_add, spec_neg, spec_cross,
    spec_scale, spec_scale_sat, spec_add_sat, spec_sub_sat, spec_sat, spec_len_sq,
    spec_normalize_wide, unit_wf, lemma_dot_bound, lemma_len_sq_nonneg, lemma_cross_bound,
};
use crate::ray::Ray;
use crate::interval::{Interval, FP_INF};
use crate::hittable::{Hittable, hittable_wf, plain, det_hit_t, HitRecord, RMAX, TMAX};
use crate::material::{Material, material_wf, spec_emitted};
use crate::texture::color_wf;
use crate::rng::RngState;
use crate::trig::{spec_sin_deg, spec_cos_deg, fp_sin_deg, fp_cos_deg};

verus! {

/// Lower end of the ray interval used by the integrator, about 1e-3: keeps
/// scattered rays from re-hitting their own surface.
pub const T_MIN_TOLERANCE: i64 = 66;

pub struct Camera {
    pub center: Point3,
    pub pixel00_loc: Point3,
    pub pixel_delta_horizontal: Vec3,
    pub pixel_delta_vertical: Vec3,
    pub basis_right: Vec3,
    pub basis_up: Vec3,
    pub basis_view: Vec3,
    pub defocus_disk_horizontal: Vec3,
    pub defocus_disk_vertical: Vec3,
    pub vfov: i64,
    pub defocus_angle: i64,
    pub focus_dist: i64,
    pub look_from: Point3,
    pub look_at: Point3,
    pub vup: Vec3,
    pub image_width: usize,
    pub image_height: usize,
    pub background: Color,
    pub is_initialized: bool,
}

/// The tangent of half the angle, guarded: when the cosine vanishes the
/// slope saturates at eight.
pub open spec fn spec_half_tan(angle: int) -> int {
    let half = angle / 2;
    let sn = spec_sin_deg(half);
    let cs = spec_cos_deg(half);
    let raw = if cs >= 1 {
        fdiv(sn, cs)
    } else {
        8 * SCALE as int
    };
    if raw < 0 {
        0
    } else if raw > 8 * SCALE as int {
        8 * SCALE as int
    } else {
        raw
    }
}

/// The derived state `initialize` computes from the public configuration:
/// the orthonormal basis, the viewport deltas, the defocus disk and the
/// top-left pixel centre, every vector saturated into ray range.
pub open spec fn spec_initialize(c: Camera) -> Camera {
    let h = spec_half_tan(c.vfov as int);
    let viewport_height = spec_sat(quot_trunc(2 * h * (c.focus_dist as int), SCALE as int), VMAX as int) as int;
    let wfp = c.image_width * (SCALE as int);
    let hfp = c.image_height * (SCALE as int);
    let ratio = fdiv(wfp, hfp);
    let viewport_width = spec_sat(quot_trunc(viewport_height * ratio, SCALE as int), VMAX as int) as int;
    let view = spec_normalize_wide(spec_sub_sat(c.look_from, c.look_at, 0x7fffffffffffffff));
    let right = spec_normalize_wide(spec_cross(c.vup, view));
    let up = spec_cross(view, right);
    let viewport_horizontal = spec_scale_sat(right, viewport_width, RMAX as int);
    let viewport_vertical = spec_scale_sat(spec_neg(up), viewport_height, RMAX as int);
    let pdh = crate::vec3::spec_div_vec(viewport_horizontal, wfp);
    let pdv = crate::vec3::spec_div_vec(viewport_vertical, hfp);
    let dr = spec_sat(
        quot_trunc(c.focus_dist * spec_half_tan(c.defocus_angle as int), SCALE as int),
        VMAX as int,
    ) as int;
    let ddh = spec_scale_sat(right, dr, RMAX as int);
    let ddv = spec_scale_sat(up, dr, RMAX as int);
    let ul = spec_sub_sat(
        spec_sub_sat(
            spec_sub_sat(
                c.look_from,
                spec_scale_sat(view, c.focus_dist as int, RMAX as int),
                RMAX as int,
            ),
            spec_scale_sat(viewport_horizontal, (SCALE / 2) as int, RMAX as int),
            RMAX as int,
        ),
        spec_scale_sat(viewport_vertical, (SCALE / 2) as int, RMAX as int),
        RMAX as int,
    );
    let pixel00 = spec_add_sat(
        ul,
        spec_scale_sat(spec_add_sat(pdh, pdv, RMAX as int), (SCALE / 2) as int, RMAX as int),
        RMAX as int,
    );
    Camera {
        center: c.look_from,
        pixel00_loc: pixel00,
        pixel_delta_horizontal: pdh,
        pixel_delta_vertical: pdv,
        basis_right: right,
        basis_up: up,
        basis_view: view,
        defocus_disk_horizontal: ddh,
        defocus_disk_vertical: ddv,
        is_initialized: true,
        ..c
    }
}

/// The ray for pixel `(row, col)` under an explicit sub-pixel jitter, lens
/// point and time: the deterministic shape of every generated ray.
pub open spec fn spec_pixel_ray(
    c: Camera,
    row: int,
    col: int,
    jr: int,
    jc: int,
    lens: Vec3,
    time: i64,
) -> Ray {
    let pixel_center = spec_add_sat(
        spec_add_sat(
            c.pixel00_loc,
            spec_scale_sat(c.pixel_delta_vertical, row, RMAX as int),
            RMAX as int,
        ),
        spec_scale_sat(c.pixel_delta_horizontal, col, RMAX as int),
        RMAX as int,
    );
    let pixel_sample = spec_add_sat(
        spec_add_sat(
            pixel_center,
            spec_scale_sat(c.pixel_delta_horizontal, jc, RMAX as int),
            RMAX as int,
        ),
        spec_scale_sat(c.pixel_delta_vertical, jr, RMAX as int),
        RMAX as int,
    );
    let origin = if c.defocus_angle <= 0 {
        c.center
    } else {
        spec_add_sat(
            spec_add_sat(
                c.center,
                spec_scale_sat(c.defocus_disk_horizontal, lens.x as int, RMAX as int),
                RMAX as int,
            ),
            spec_scale_sat(c.defocus_disk_vertical, lens.y as int, RMAX as int),
            RMAX as int,
        )
    };
    let dir0 = spec_sub_sat(pixel_sample, origin, RMAX as int);
    let direction = if spec_len_sq(dir0) >= 1 {
        dir0
    } else {
        Vec3 { x: 0i64, y: 0i64, z: (-SCALE) as i64 }
    };
    Ray { origin, direction, time }
}

/// One bounce of the integrator combined: the emitted light alone when the
/// material does not scatter, else the emitted light plus the attenuated
/// recursive radiance, clamped into colour range channel by channel.
pub open spec fn spec_shade(emitted: Color, scattered: Option<(Color, Ray)>, recursive: Color) -> Color {
    match scattered {
        None => emitted,
        Some((att, _)) => Vec3 {
            x: crate::color::clamp_channel(
                emitted.x + crate::fixed::fmul(att.x as int, recursive.x as int),
            ),
            y: crate::color::clamp_channel(
                emitted.y + crate::fixed::fmul(att.y as int, recursive.y as int),
            ),
            z: crate::color::clamp_channel(
                emitted.z + crate::fixed::fmul(att.z as int, recursive.z as int),
            ),
        },
    }
}

/// Combine one bounce of radiance, exactly as `spec_shade` states.
pub fn shade(emitted: Color, scattered: &Option<(Color, Ray)>, recursive: Color) -> (r: Color)
    requires
        color_wf(emitted),
        color_wf(recursive),
        *scattered matches Some(p) ==> color_wf(p.0),
    ensures
        r == spec_shade(emitted, *scattered, recursive),
        color_wf(r),
{
    match scattered {
        None => emitted,
        Some((attenuation, _)) => {
            proof {
                crate::fixed::lemma_fmul_bound(attenuation.x as int, recursive.x as int,
                    VMAX as int, VMAX as int);
                crate::fixed::lemma_fmul_bound(attenuation.y as int, recursive.y as int,
                    VMAX as int, VMAX as int);
                crate::fixed::lemma_fmul_bound(attenuation.z as int, recursive.z as int,
                    VMAX as int, VMAX as int);
            }
            let sx = fp_mul(attenuation.x, recursive.x);
            let sy = fp_mul(attenuation.y, recursive.y);
            let sz = fp_mul(attenuation.z, recursive.z);
            Vec3 {
                x: fp_clamp(emitted.x + sx, 0, VMAX),
                y: fp_clamp(emitted.y + sy, 0, VMAX),
                z: fp_clamp(emitted.z + sz, 0, VMAX),
            }
        },
    }
}

/// No admissible ray hits the world: over every ray in range, the
/// deterministic intersection over the integrator's interval is a miss.
pub open spec fn world_all_miss(w: Hittable) -> bool {
    forall|rr: Ray|
        within(rr.origin, RMAX as int) && within(rr.direction, RMAX as int) && spec_len_sq(
            rr.direction,
        ) >= 1 ==> #[trigger] det_hit_t(
            w,
            rr,
            Interval { min: T_MIN_TOLERANCE, max: FP_INF },
        ) is None
}

/// A camera fit to generate rays: initialised, its vectors saturated into
/// ray range, its dimensions positive and its background a colour.
pub open spec fn camera_wf(c: Camera) -> bool {
    c.is_initialized && within(c.center, RMAX as int) && within(c.pixel00_loc, RMAX as int)
        && within(c.pixel_delta_horizontal, RMAX as int) && within(
        c.pixel_delta_vertical,
        RMAX as int,
    ) && within(c.defocus_disk_horizontal, RMAX as int) && within(
        c.defocus_disk_vertical,
        RMAX as int,
    ) && 1 <= c.image_width <= 0x10000 && 1 <= c.image_height <= 0x10000 && color_wf(c.background)
}

fn half_tan(angle: i64) -> (r: i64)
    requires
        0 <= angle <= 0x800000000000,
    ensures
        r == spec_half_tan(angle as int),
        0 <= r <= 8 * SCALE,
{
    let half = angle / 2;
    let sn = fp_sin_deg(half);
    let cs = fp_cos_deg(half);
    let raw = if cs >= 1 {
        proof {
            crate::fixed::lemma_fdiv_bound(sn as int, 65536, SCALE as int);
            crate::fixed::lemma_abs_mul_bound(sn as int, SCALE as int, SCALE as int, SCALE as int);
            crate::fixed::lemma_quot_bound(sn * (SCALE as int), cs as int, (SCALE as int) * (
            SCALE as int));
        }
        fp_div(sn, cs)
    } else {
        8 * SCALE
    };
    fp_clamp(raw, 0, 8 * SCALE)
}

impl Camera {
    /// The starting configuration: a small view toward negative z with a
    /// moderate field of view and no defocus.
    pub fn new_default() -> (r: Camera)
        ensures
            r.vfov == 60 * SCALE,
            r.defocus_angle == 0,
            r.focus_dist == 10 * SCALE,
            r.look_from == (Vec3 { x: 0i64, y: 0i64, z: (-SCALE) as i64 }),
            r.look_at == (Vec3 { x: 0i64, y: 0i64, z: 0i64 }),
            r.vup == (Vec3 { x: 0i64, y: SCALE, z: 0i64 }),
            r.image_width == 640,
            r.image_height == 360,
            r.background == (Vec3 { x: 0i64, y: 0i64, z: 0i64 }),
            !r.is_initialized,
    {
        Camera {
            center: Vec3::zero(),
            pixel00_loc: Vec3::zero(),
            pixel_delta_horizontal: Vec3::zero(),
            pixel_delta_vertical: Vec3::zero(),
            basis_right: Vec3::zero(),
            basis_up: Vec3::zero(),
            basis_view: Vec3::zero(),
            defocus_disk_horizontal: Vec3::zero(),
            defocus_disk_vertical: Vec3::zero(),
            vfov: 60 * SCALE,
            defocus_angle: 0,
            focus_dist: 10 * SCALE,
            look_from: Vec3 { x: 0, y: 0, z: -SCALE },
            look_at: Vec3 { x: 0, y: 0, z: 0 },
            vup: Vec3 { x: 0, y: SCALE, z: 0 },
            image_width: 640,
            image_height: 360,
            background: Vec3 { x: 0, y: 0, z: 0 },
            is_initialized: false,
        }
    }

    /// Compute the derived viewport state; must be called after configuring
    /// and before rendering.
    pub fn initialize(&mut self)
        requires
            0 <= old(self).vfov <= 0x800000000000,
            0 <= old(self).defocus_angle <= 0x800000000000,
            0 < old(self).focus_dist <= 0x10000000,
            1 <= old(self).image_width <= 0x10000,
            1 <= old(self).image_height <= 0x10000,
            within(old(self).look_from, (VMAX / 2) as int),
            within(old(self).look_at, (VMAX / 2) as int),
            within(old(self).vup, 2 * SCALE as int),
            color_wf(old(self).background),
        ensures
            *final(self) == spec_initialize(*old(self)),
            camera_wf(*final(self)),
    {
        let h = half_tan(self.vfov);
        proof {
            crate::fixed::lemma_abs_mul_bound(2 * h, self.focus_dist as int, 16 * SCALE as int,
                0x10000000);
        }
        let vh_w: i128 = crate::fixed::quot_wide(
            ((2 * h) as i128) * (self.focus_dist as i128),
            SCALE as i128,
        );
        let viewport_height = sat64(vh_w, VMAX);
        let wfp: i64 = (self.image_width as i64) * SCALE;
        let hfp: i64 = (self.image_height as i64) * SCALE;
        proof {
            crate::fixed::lemma_fdiv_bound(wfp as int, hfp as int, 0x100000000);
        }
        let ratio = fp_div(wfp, hfp);
        proof {
            crate::fixed::lemma_abs_mul_bound(viewport_height as int, ratio as int, VMAX as int,
                0x100000000);
        }
        let vw_w: i128 = crate::fixed::quot_wide(
            (viewport_height as i128) * (ratio as i128),
            SCALE as i128,
        );
        let viewport_width = sat64(vw_w, VMAX);
        let view = self.look_from.sub_sat(&self.look_at, i64::MAX).normalize_wide();
        proof {
            lemma_cross_vec_fits(self.vup, view);
        }
        let right = self.vup.cross(&view).normalize_wide();
        proof {
            lemma_cross_vec_fits(view, right);
        }
        let up = view.cross(&right);
        let viewport_horizontal = right.scale_sat(viewport_width, RMAX);
        let viewport_vertical = up.neg().scale_sat(viewport_height, RMAX);
        proof {
            crate::fixed::lemma_fdiv_bound(viewport_horizontal.x as int, wfp as int, RMAX as int);
            crate::fixed::lemma_fdiv_bound(viewport_horizontal.y as int, wfp as int, RMAX as int);
            crate::fixed::lemma_fdiv_bound(viewport_horizontal.z as int, wfp as int, RMAX as int);
            crate::fixed::lemma_fdiv_bound(viewport_vertical.x as int, hfp as int, RMAX as int);
            crate::fixed::lemma_fdiv_bound(viewport_vertical.y as int, hfp as int, RMAX as int);
            crate::fixed::lemma_fdiv_bound(viewport_vertical.z as int, hfp as int, RMAX as int);
        }
        let pdh = viewport_horizontal.div_scalar(wfp);
        let pdv = viewport_vertical.div_scalar(hfp);
        let dt = half_tan(self.defocus_angle);
        proof {
            crate::fixed::lemma_abs_mul_bound(self.focus_dist as int, dt as int, 0x10000000, 8
                * SCALE as int);
        }
        let dr_w: i128 = crate::fixed::quot_wide(
            (self.focus_dist as i128) * (dt as i128),
            SCALE as i128,
        );
        let dr = sat64(dr_w, VMAX);
        let ddh = right.scale_sat(dr, RMAX);
        let ddv = up.scale_sat(dr, RMAX);
        let ul = self.look_from.sub_sat(&view.scale_sat(self.focus_dist, RMAX), RMAX).sub_sat(
            &viewport_horizontal.scale_sat(SCALE / 2, RMAX),
            RMAX,
        ).sub_sat(&viewport_vertical.scale_sat(SCALE / 2, RMAX), RMAX);
        let pixel00 = ul.add_sat(&pdh.add_sat(&pdv, RMAX).scale_sat(SCALE / 2, RMAX), RMAX);
        self.center = self.look_from;
        self.pixel00_loc = pixel00;
        self.pixel_delta_horizontal = pdh;
        self.pixel_delta_vertical = pdv;
        self.basis_right = right;
        self.basis_up = up;
        self.basis_view = view;
        self.defocus_disk_horizontal = ddh;
        self.defocus_disk_vertical = ddv;
        self.is_initialized = true;
    }

    /// A randomly jittered ray through pixel `(row, col)` (fixed-point
    /// indices), originating on the defocus disk when one is configured.
    /// The deterministic core of ray generation: the ray for pixel
    /// `(row, col)` given an explicit sub-pixel jitter `(jr, jc)`, a lens
    /// point and a time. Mirrored exactly, so whatever `generate_ray`
    /// draws, the resulting ray is this function of the draws.
    pub fn pixel_ray(&self, row: i64, col: i64, jr: i64, jc: i64, lens: &Vec3, time: i64) -> (r:
        Ray)
        requires
            camera_wf(*self),
            0 <= row <= 0x100000000,
            0 <= col <= 0x100000000,
            abs_int(jr as int) <= SCALE,
            abs_int(jc as int) <= SCALE,
            within(*lens, SCALE as int),
            0 <= time < SCALE,
        ensures
            r == spec_pixel_ray(*self, row as int, col as int, jr as int, jc as int, *lens, time),
            within(r.origin, RMAX as int),
            within(r.direction, RMAX as int),
            spec_len_sq(r.direction) >= 1,
            r.time == time,
            self.defocus_angle <= 0 ==> r.origin == self.center,
    {
        let pixel_center = self.pixel00_loc.add_sat(
            &self.pixel_delta_vertical.scale_sat(row, RMAX),
            RMAX,
        ).add_sat(&self.pixel_delta_horizontal.scale_sat(col, RMAX), RMAX);
        let pixel_sample = pixel_center.add_sat(
            &self.pixel_delta_horizontal.scale_sat(jc, RMAX),
            RMAX,
        ).add_sat(&self.pixel_delta_vertical.scale_sat(jr, RMAX), RMAX);
        let origin = if self.defocus_angle <= 0 {
            self.center
        } else {
            self.center.add_sat(
                &self.defocus_disk_horizontal.scale_sat(lens.x, RMAX),
                RMAX,
            ).add_sat(&self.defocus_disk_vertical.scale_sat(lens.y, RMAX), RMAX)
        };
        let direction = pixel_sample.sub_sat(&origin, RMAX);
        proof {
            lemma_dot_bound(direction, direction, RMAX as int);
            lemma_len_sq_nonneg(direction);
        }
        let direction = if direction.length_squared() >= 1 {
            direction
        } else {
            let fallback = Vec3 { x: 0, y: 0, z: -SCALE };
            proof {
                lemma_fallback_dir_len();
            }
            fallback
        };
        Ray { origin, direction, time }
    }

    /// A randomly jittered ray through pixel `(row, col)`: `pixel_ray` of a
    /// uniform jitter in the unit pixel square, a point on the defocus disk
    /// when one is configured, and a uniform time in `[0, 1)`.
    pub fn generate_ray(&self, row: i64, col: i64, rng: &mut RngState) -> (r: Ray)
        requires
            camera_wf(*self),
            0 <= row <= 0x100000000,
            0 <= col <= 0x100000000,
        ensures
            within(r.origin, RMAX as int),
            within(r.direction, RMAX as int),
            spec_len_sq(r.direction) >= 1,
            0 <= r.time < SCALE,
            self.defocus_angle <= 0 ==> r.origin == self.center,
    {
        let jr = rng.random_unit() - SCALE / 2;
        let jc = rng.random_unit() - SCALE / 2;
        let lens = if self.defocus_angle <= 0 {
            Vec3 { x: 0, y: 0, z: 0 }
        } else {
            rng.random_in_unit_disk()
        };
        let time = rng.random_unit();
        self.pixel_ray(row, col, jr, jc, &lens, time)
    }

    /// The radiance carried by one ray: nothing at the depth limit, the
    /// background on a miss, the emitted light at a non-scattering hit, and
    /// emitted light plus attenuated scattered radiance otherwise. Every
    /// returned channel is a colour value.
    pub fn ray_color(&self, ray: &Ray, world: &Hittable, depth: usize, rng: &mut RngState) -> (r:
        Color)
        requires
            camera_wf(*self),
            hittable_wf(*world),
            within(ray.origin, RMAX as int),
            within(ray.direction, RMAX as int),
            spec_len_sq(ray.direction) >= 1,
        ensures
            color_wf(r),
            depth == 0 ==> r == (Vec3 { x: 0i64, y: 0i64, z: 0i64 }),
            depth > 0 && plain(*world) && det_hit_t(
                *world,
                *ray,
                Interval { min: T_MIN_TOLERANCE, max: FP_INF },
            ) is None ==> r == self.background,
        decreases depth,
    {
        if depth == 0 {
            return Vec3 { x: 0, y: 0, z: 0 };
        }
        let interval = Interval { min: T_MIN_TOLERANCE, max: FP_INF };
        let hit = world.hit(ray, interval, rng);
        match hit {
            None => self.background,
            Some(rec) => {
                let emitted = rec.material.emitted(rec.u, rec.v, &rec.point);
                let scatter = rec.material.scatter(ray, &rec, rng);
                match scatter {
                    None => emitted,
                    Some((attenuation, scattered)) => {
                        let rc = self.ray_color(&scattered, world, depth - 1, rng);
                        let combined = Some((attenuation, scattered));
                        shade(emitted, &combined, rc)
                    },
                }
            },
        }
    }

    /// Radiance of a sampled camera ray for pixel `(row, col)`; rendering an
    /// uninitialised camera is a programmer error and is excluded.
    pub fn render_ray(
        &self,
        row: i64,
        col: i64,
        world: &Hittable,
        depth: usize,
        rng: &mut RngState,
    ) -> (r: Color)
        requires
            camera_wf(*self),
            hittable_wf(*world),
            0 <= row <= 0x100000000,
            0 <= col <= 0x100000000,
        ensures
            color_wf(r),
            depth > 0 && plain(*world) && world_all_miss(*world) ==> r == self.background,
    {
        let ray = self.generate_ray(row, col, rng);
        self.ray_color(&ray, world, depth, rng)
    }
}

impl Default for Camera {
    /// The starting configuration of `new_default`.
    fn default() -> (r: Camera)
        ensures
            r.vfov == 60 * SCALE,
            r.defocus_angle == 0,
            r.focus_dist == 10 * SCALE,
            r.image_width == 640,
            r.image_height == 360,
            !r.is_initialized,
    {
        Camera::new_default()
    }
}

/// The fallback camera direction has squared length exactly one.
proof fn lemma_fallback_dir_len()
    ensures
        spec_len_sq(Vec3 { x: 0i64, y: 0i64, z: (-SCALE) as i64 }) == SCALE,
{
    let v = Vec3 { x: 0i64, y: 0i64, z: (-SCALE) as i64 };
    assert((-(SCALE as int)) * (-(SCALE as int)) == 0x100000000) by (nonlinear_arith);
    assert(crate::vec3::dot_raw(v, v) == 0x100000000);
    assert(quot_trunc(0x100000000, 65536) == 65536) by {
        assert(0x100000000int / 65536 == 65536) by (nonlinear_arith);
    };
}

/// Cross products of unit-scale vectors satisfy the componentwise
/// preconditions of the exact cross product.
proof fn lemma_cross_vec_fits(a: Vec3, b: Vec3)
    requires
        within(a, 2 * SCALE as int),
        within(b, 2 * SCALE as int),
    ensures
        within(a, 0x40000000000000),
        within(b, 0x40000000000000),
        i64::MIN <= quot_trunc(a.y * b.z - a.z * b.y, SCALE as int) <= i64::MAX,
        i64::MIN <= quot_trunc(a.z * b.x - a.x * b.z, SCALE as int) <= i64::MAX,
        i64::MIN <= quot_trunc(a.x * b.y - a.y * b.x, SCALE as int) <= i64::MAX,
        within(spec_cross(a, b), 8 * SCALE as int),
{
    let m = 2 * SCALE as int;
    assert(2 * m * m == m * m + m * m) by (nonlinear_arith);
    crate::fixed::lemma_abs_mul_bound(a.x as int, b.y as int, m, m);
    crate::fixed::lemma_abs_mul_bound(a.x as int, b.z as int, m, m);
    crate::fixed::lemma_abs_mul_bound(a.y as int, b.x as int, m, m);
    crate::fixed::lemma_abs_mul_bound(a.y as int, b.z as int, m, m);
    crate::fixed::lemma_abs_mul_bound(a.z as int, b.x as int, m, m);
    crate::fixed::lemma_abs_mul_bound(a.z as int, b.y as int, m, m);
    crate::fixed::lemma_quot_bound(a.y * b.z - a.z * b.y, SCALE as int, 2 * m * m);
    crate::fixed::lemma_quot_bound(a.z * b.x - a.x * b.z, SCALE as int, 2 * m * m);
    crate::fixed::lemma_quot_bound(a.x * b.y - a.y * b.x, SCALE as int, 2 * m * m);
    assert((2 * ((2 * SCALE as int)) * ((2 * SCALE as int))) / (SCALE as int) == 8 * (
    SCALE as int)) by (nonlinear_arith);
    assert(2 * m * m == 2 * ((2 * SCALE as int)) * ((2 * SCALE as int))) by (nonlinear_arith)
        requires
            m == 2 * SCALE as int,
    ;
}

fn sat64(x: i128, b: i64) -> (r: i64)
    requires
        0 <= b,
    ensures
        r == spec_sat(x as int, b as int),
        abs_int(r as int) <= b,
{
    if x < -(b as i128) {
        -b
    } else if x > b as i128 {
        b
    } else {
        x as i64
    }
}

} // verus!
