//! Specular optics: mirror reflection, Snell refraction and Schlick's
//! reflectance approximation, on fixed-point vectors.

use vstd::prelude::*;
use crate::fixed::{
    SCALE, abs_int, fdiv, fmul, sqrt_floor, fp_div, fp_mul, fp_sqrt, lemma_fmul_bound,
    lemma_fdiv_bound,
};
use crate::vec3::{
    Vec3, within, spec_dot, spec_scale, spec_add, spec_sub, spec_len_sq, lemma_dot_bound,
    lemma_len_sq_nonneg,
};

verus! {

/// Mirror reflection of `incident` about `normal`:
/// `incident - 2 (incident . normal) normal`.
pub open spec fn spec_reflect(incident: Vec3, normal: Vec3) -> Vec3 {
    spec_sub(incident, spec_scale(normal, 2 * spec_dot(incident, normal)))
}

/// Snell refraction of a unit-scale `incident` about `normal` with relative
/// index `eta`: the perpendicular part `eta (incident + cos * normal)` plus
/// the parallel part `-sqrt(|1 - |perp|^2|) normal`.
pub open spec fn spec_refract(incident: Vec3, normal: Vec3, eta: int) -> Vec3 {
    let d = spec_dot(incident, normal);
    let cos = -(if d <= SCALE as int {
        d
    } else {
        SCALE as int
    });
    let perp = spec_scale(spec_add(incident, spec_scale(normal, cos)), eta);
    let par_len = sqrt_floor(abs_int(SCALE - spec_len_sq(perp)) * (SCALE as int));
    spec_add(perp, spec_scale(normal, -par_len))
}

/// Schlick's reflectance: `r0 + (1 - r0)(1 - cos)^5` with
/// `r0 = ((1 - eta) / (1 + eta))^2`.
pub open spec fn spec_reflectance(cosine: int, ref_idx: int) -> int {
    let r0a = fdiv(SCALE - ref_idx, SCALE + ref_idx);
    let r0 = fmul(r0a, r0a);
    let c = SCALE - cosine;
    let c2 = fmul(c, c);
    let c4 = fmul(c2, c2);
    let c5 = fmul(c4, c);
    r0 + fmul(SCALE - r0, c5)
}

pub fn reflect(incident: &Vec3, normal: &Vec3) -> (r: Vec3)
    requires
        within(*incident, 4 * SCALE as int),
        within(*normal, 4 * SCALE as int),
    ensures
        r == spec_reflect(*incident, *normal),
        within(r, 400 * SCALE as int),
{
    proof {
        lemma_dot_bound(*incident, *normal, 4 * (SCALE as int));
        assert((3 * (4 * (SCALE as int)) * (4 * (SCALE as int))) / (SCALE as int) == 48 * (
        SCALE as int)) by (nonlinear_arith);
    }
    let d = incident.dot(normal);
    proof {
        let ms: int = 96 * (SCALE as int);
        lemma_fmul_bound(normal.x as int, 2 * d, 4 * (SCALE as int), ms);
        lemma_fmul_bound(normal.y as int, 2 * d, 4 * (SCALE as int), ms);
        lemma_fmul_bound(normal.z as int, 2 * d, 4 * (SCALE as int), ms);
        assert((4 * (SCALE as int) * (96 * (SCALE as int))) / (SCALE as int) == 384 * (
        SCALE as int)) by (nonlinear_arith);
    }
    let scaled = normal.scale(2 * d);
    incident.sub(&scaled)
}

pub fn refract(incident: &Vec3, normal: &Vec3, eta: i64) -> (r: Vec3)
    requires
        within(*incident, 4 * SCALE as int),
        within(*normal, 4 * SCALE as int),
        0 < eta <= 16 * SCALE,
    ensures
        r == spec_refract(*incident, *normal, eta as int),
{
    proof {
        lemma_dot_bound(*incident, *normal, 4 * (SCALE as int));
        assert((3 * (4 * (SCALE as int)) * (4 * (SCALE as int))) / (SCALE as int) == 48 * (
        SCALE as int)) by (nonlinear_arith);
    }
    let d = incident.dot(normal);
    let cos = -(if d <= SCALE { d } else { SCALE });
    proof {
        lemma_fmul_bound(normal.x as int, cos as int, 4 * (SCALE as int), 48 * (SCALE as int));
        lemma_fmul_bound(normal.y as int, cos as int, 4 * (SCALE as int), 48 * (SCALE as int));
        lemma_fmul_bound(normal.z as int, cos as int, 4 * (SCALE as int), 48 * (SCALE as int));
        assert((4 * (SCALE as int) * (48 * (SCALE as int))) / (SCALE as int) == 192 * (
        SCALE as int)) by (nonlinear_arith);
    }
    let cn = normal.scale(cos);
    let summed = incident.add(&cn);
    proof {
        lemma_fmul_bound(summed.x as int, eta as int, 196 * (SCALE as int), 16 * (SCALE as int));
        lemma_fmul_bound(summed.y as int, eta as int, 196 * (SCALE as int), 16 * (SCALE as int));
        lemma_fmul_bound(summed.z as int, eta as int, 196 * (SCALE as int), 16 * (SCALE as int));
        assert((196 * (SCALE as int) * (16 * (SCALE as int))) / (SCALE as int) == 3136 * (
        SCALE as int)) by (nonlinear_arith);
    }
    let perp = summed.scale(eta);
    proof {
        lemma_dot_bound(perp, perp, 3136 * (SCALE as int));
        lemma_len_sq_nonneg(perp);
        assert((3 * (3136 * (SCALE as int)) * (3136 * (SCALE as int))) / (SCALE as int) < 0x7fffffffffffffff)
            by (nonlinear_arith);
    }
    let pls = perp.length_squared();
    let diff = if SCALE >= pls {
        SCALE - pls
    } else {
        -(SCALE - pls)
    };
    assert(diff == abs_int(SCALE - spec_len_sq(perp)));
    let par_len = fp_sqrt(diff);
    proof {
        lemma_fmul_bound(normal.x as int, -(par_len as int), 4 * (SCALE as int), 0x200000000000);
        lemma_fmul_bound(normal.y as int, -(par_len as int), 4 * (SCALE as int), 0x200000000000);
        lemma_fmul_bound(normal.z as int, -(par_len as int), 4 * (SCALE as int), 0x200000000000);
    }
    let par = normal.scale(-par_len);
    perp.add(&par)
}

/// Schlick's reflectance approximation.
pub fn reflectance(cosine: i64, ref_idx: i64) -> (r: i64)
    requires
        0 < ref_idx <= 16 * SCALE,
        abs_int(cosine as int) <= 16 * SCALE,
    ensures
        r == spec_reflectance(cosine as int, ref_idx as int),
{
    proof {
        lemma_fdiv_bound(
            SCALE as int - ref_idx as int,
            SCALE as int + ref_idx as int,
            15 * (SCALE as int),
        );
    }
    let r0a = fp_div(SCALE - ref_idx, SCALE + ref_idx);
    proof {
        lemma_fmul_bound(r0a as int, r0a as int, 15 * (SCALE as int), 15 * (SCALE as int));
        assert((15 * (SCALE as int) * (15 * (SCALE as int))) / (SCALE as int) == 225 * (
        SCALE as int)) by (nonlinear_arith);
    }
    let r0 = fp_mul(r0a, r0a);
    let c = SCALE - cosine;
    proof {
        lemma_fmul_bound(c as int, c as int, 17 * (SCALE as int), 17 * (SCALE as int));
        assert((17 * (SCALE as int) * (17 * (SCALE as int))) / (SCALE as int) == 289 * (
        SCALE as int)) by (nonlinear_arith);
    }
    let c2 = fp_mul(c, c);
    proof {
        lemma_fmul_bound(c2 as int, c2 as int, 289 * (SCALE as int), 289 * (SCALE as int));
        assert((289 * (SCALE as int) * (289 * (SCALE as int))) / (SCALE as int) == 83521 * (
        SCALE as int)) by (nonlinear_arith);
    }
    let c4 = fp_mul(c2, c2);
    proof {
        lemma_fmul_bound(c4 as int, c as int, 83521 * (SCALE as int), 17 * (SCALE as int));
        assert((83521 * (SCALE as int) * (17 * (SCALE as int))) / (SCALE as int) == 1419857 * (
        SCALE as int)) by (nonlinear_arith);
    }
    let c5 = fp_mul(c4, c);
    proof {
        lemma_fmul_bound(
            SCALE as int - r0 as int,
            c5 as int,
            226 * (SCALE as int),
            1419857 * (SCALE as int),
        );
        assert((226 * (SCALE as int) * (1419857 * (SCALE as int))) / (SCALE as int) == 320887682 * (
        SCALE as int)) by (nonlinear_arith);
    }
    r0 + fp_mul(SCALE - r0, c5)
}

} // verus!
