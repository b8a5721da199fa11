//! Perlin gradient noise: a table of random unit-cube gradients indexed by
//! three shuffled byte permutations, interpolated with a Hermite fade, and
//! summed at doubling frequencies for turbulence.

use vstd::prelude::*;
use crate::fixed::{
    SCALE, abs_int, quot_trunc, fmul, floor_div_wide, fp_mul, lemma_fmul_bound, lemma_quot_bound,
    lemma_abs_mul_bound,
};
use crate::vec3::{Vec3, Point3, VMAX, within, spec_dot, lemma_dot_bound};
use crate::rng::RngState;

verus! {

/// Number of gradients and permutation entries.
pub const POINT_COUNT: usize = 256;

#[derive(Debug)]
pub struct Perlin {
    pub random_vec: Vec<Vec3>,
    pub perm_x: Vec<u8>,
    pub perm_y: Vec<u8>,
    pub perm_z: Vec<u8>,
}

/// Well-formedness: full tables and unit-range gradients.
pub open spec fn perlin_wf(p: Perlin) -> bool {
    p.random_vec@.len() == 256 && p.perm_x@.len() == 256 && p.perm_y@.len() == 256
        && p.perm_z@.len() == 256 && forall|i: int|
        0 <= i < 256 ==> within(#[trigger] p.random_vec@[i], SCALE as int)
}

/// The integer cell of a coordinate: its floor in whole units.
pub open spec fn spec_cell(c: int) -> int {
    c / (SCALE as int)
}

/// The fractional part of a coordinate within its cell.
pub open spec fn spec_frac(c: int) -> int {
    c % (SCALE as int)
}

/// The Hermite fade `f^2 (3 - 2 f)` of a fractional coordinate.
pub open spec fn spec_fade(f: int) -> int {
    fmul(fmul(f, f), 3 * (SCALE as int) - 2 * f)
}

/// The gradient picked for a lattice corner: the three permutations are
/// combined by exclusive or, exactly as the table lookup does.
pub open spec fn spec_corner_gradient(p: Perlin, ci: int, cj: int, ck: int) -> Vec3 {
    p.random_vec@[(p.perm_x@[ci % 256] ^ p.perm_y@[cj % 256] ^ p.perm_z@[ck % 256]) as int]
}

/// One corner's contribution: the faded weights of the corner times the
/// dot product of its gradient with the offset from the corner.
#[verifier::opaque]
pub open spec fn spec_corner_term(
    p: Perlin,
    ci: int,
    cj: int,
    ck: int,
    di: int,
    dj: int,
    dk: int,
    u: int,
    v: int,
    w: int,
    uu: int,
    vv: int,
    ww: int,
) -> int {
    let g = spec_corner_gradient(p, ci + di, cj + dj, ck + dk);
    let weight = Vec3 {
        x: (u - di * (SCALE as int)) as i64,
        y: (v - dj * (SCALE as int)) as i64,
        z: (w - dk * (SCALE as int)) as i64,
    };
    let fx = if di == 1 {
        uu
    } else {
        SCALE as int - uu
    };
    let fy = if dj == 1 {
        vv
    } else {
        SCALE as int - vv
    };
    let fz = if dk == 1 {
        ww
    } else {
        SCALE as int - ww
    };
    fmul(fmul(fmul(fx, fy), fz), spec_dot(g, weight))
}

/// Perlin noise at a point: trilinear Hermite interpolation of the eight
/// surrounding corner contributions; the output is signed.
pub open spec fn spec_noise(p: Perlin, pt: Point3) -> int {
    let ci = spec_cell(pt.x as int);
    let cj = spec_cell(pt.y as int);
    let ck = spec_cell(pt.z as int);
    let u = spec_frac(pt.x as int);
    let v = spec_frac(pt.y as int);
    let w = spec_frac(pt.z as int);
    let uu = spec_fade(u);
    let vv = spec_fade(v);
    let ww = spec_fade(w);
    spec_corner_term(p, ci, cj, ck, 0, 0, 0, u, v, w, uu, vv, ww) + spec_corner_term(
        p,
        ci,
        cj,
        ck,
        0,
        0,
        1,
        u,
        v,
        w,
        uu,
        vv,
        ww,
    ) + spec_corner_term(p, ci, cj, ck, 0, 1, 0, u, v, w, uu, vv, ww) + spec_corner_term(
        p,
        ci,
        cj,
        ck,
        0,
        1,
        1,
        u,
        v,
        w,
        uu,
        vv,
        ww,
    ) + spec_corner_term(p, ci, cj, ck, 1, 0, 0, u, v, w, uu, vv, ww) + spec_corner_term(
        p,
        ci,
        cj,
        ck,
        1,
        0,
        1,
        u,
        v,
        w,
        uu,
        vv,
        ww,
    ) + spec_corner_term(p, ci, cj, ck, 1, 1, 0, u, v, w, uu, vv, ww) + spec_corner_term(
        p,
        ci,
        cj,
        ck,
        1,
        1,
        1,
        u,
        v,
        w,
        uu,
        vv,
        ww,
    )
}

/// The bound every noise value respects.
pub const NOISE_BOUND: i64 = 42467328;  // 648 in fixed point

/// Turbulence: the weighted sum of absolute noise over `depth` octaves,
/// with the point doubling (saturated) and the weight halving each octave.
pub open spec fn spec_turbulence(p: Perlin, pt: Point3, depth: int, weight: int) -> int
    decreases depth,
{
    if depth <= 0 {
        0
    } else {
        crate::fixed::fmul(weight, abs_int(spec_noise(p, pt))) + spec_turbulence(
            p,
            crate::vec3::spec_scale_sat(pt, 2 * (SCALE as int), VMAX as int),
            depth - 1,
            weight / 2,
        )
    }
}

/// The integer cell and fraction of a fixed-point coordinate.
fn split_coord(c: i64) -> (r: (i64, i64))
    requires
        abs_int(c as int) <= VMAX,
    ensures
        r.0 == spec_cell(c as int),
        r.1 == spec_frac(c as int),
        0 <= r.1 < SCALE,
        abs_int(r.0 as int) <= VMAX,
{
    let cell: i128 = floor_div_wide(c as i128, SCALE as i128);
    proof {
        vstd::arithmetic::div_mod::lemma_fundamental_div_mod(c as int, SCALE as int);
        vstd::arithmetic::div_mod::lemma_mod_bound(c as int, SCALE as int);
        vstd::arithmetic::div_mod::lemma_div_is_ordered(c as int, VMAX as int, SCALE as int);
        vstd::arithmetic::div_mod::lemma_div_is_ordered(-(VMAX as int), c as int, SCALE as int);
        assert((VMAX as int) / (SCALE as int) == SCALE) by (nonlinear_arith);
        assert((-(VMAX as int)) / (SCALE as int) == -(SCALE as int)) by (nonlinear_arith);
    }
    let frac: i64 = c - (cell as i64) * SCALE;
    ((cell as i64), frac)
}

/// The Hermite fade, with its magnitude bound.
fn fade(f: i64) -> (r: i64)
    requires
        0 <= f < SCALE,
    ensures
        r == spec_fade(f as int),
        0 <= r <= 3 * SCALE,
{
    proof {
        lemma_fmul_bound(f as int, f as int, SCALE as int, SCALE as int);
        assert(((SCALE as int) * (SCALE as int)) / (SCALE as int) == SCALE as int)
            by (nonlinear_arith);
        crate::fixed::lemma_quot_nonneg(f * f, SCALE as int);
        assert(f * f >= 0) by (nonlinear_arith);
        lemma_fmul_bound(fmul(f as int, f as int), 3 * (SCALE as int) - 2 * f, SCALE as int, 3 * (
        SCALE as int));
        assert(((SCALE as int) * (3 * (SCALE as int))) / (SCALE as int) == 3 * (SCALE as int))
            by (nonlinear_arith);
        assert(fmul(f as int, f as int) * (3 * (SCALE as int) - 2 * f) >= 0) by (nonlinear_arith)
            requires
                0 <= fmul(f as int, f as int),
                0 <= f < SCALE,
        ;
        crate::fixed::lemma_quot_nonneg(
            fmul(f as int, f as int) * (3 * (SCALE as int) - 2 * f),
            SCALE as int,
        );
    }
    let ff = fp_mul(f, f);
    fp_mul(ff, 3 * SCALE - 2 * f)
}

impl Perlin {
    /// Build the gradient and permutation tables from the given generator.
    pub fn new(rng: &mut RngState) -> (r: Perlin)
        ensures
            perlin_wf(r),
    {
        let mut rv: Vec<Vec3> = Vec::new();
        let mut i: usize = 0;
        while i < POINT_COUNT
            invariant
                i <= 256,
                rv@.len() == i,
                forall|k: int| 0 <= k < i ==> within(#[trigger] rv@[k], SCALE as int),
            decreases 256 - i,
        {
            let x = rng.random_range(-SCALE, SCALE);
            let y = rng.random_range(-SCALE, SCALE);
            let z = rng.random_range(-SCALE, SCALE);
            rv.push(Vec3 { x, y, z });
            i = i + 1;
        }
        Perlin {
            random_vec: rv,
            perm_x: generate_perlin_permutation(rng),
            perm_y: generate_perlin_permutation(rng),
            perm_z: generate_perlin_permutation(rng),
        }
    }

    /// Noise at a point; the contract mirrors the computation exactly.
    #[verifier::rlimit(100)]
    pub fn noise(&self, point: &Point3) -> (r: i64)
        requires
            perlin_wf(*self),
            within(*point, VMAX as int),
        ensures
            r == spec_noise(*self, *point),
            abs_int(r as int) <= NOISE_BOUND,
    {
        let (ci, u) = split_coord(point.x);
        let (cj, v) = split_coord(point.y);
        let (ck, w) = split_coord(point.z);
        let uu = fade(u);
        let vv = fade(v);
        let ww = fade(w);
        let mut acc: i64 = 0;
        acc = acc + self.corner_term(ci, cj, ck, 0, 0, 0, u, v, w, uu, vv, ww);
        acc = acc + self.corner_term(ci, cj, ck, 0, 0, 1, u, v, w, uu, vv, ww);
        acc = acc + self.corner_term(ci, cj, ck, 0, 1, 0, u, v, w, uu, vv, ww);
        acc = acc + self.corner_term(ci, cj, ck, 0, 1, 1, u, v, w, uu, vv, ww);
        acc = acc + self.corner_term(ci, cj, ck, 1, 0, 0, u, v, w, uu, vv, ww);
        acc = acc + self.corner_term(ci, cj, ck, 1, 0, 1, u, v, w, uu, vv, ww);
        acc = acc + self.corner_term(ci, cj, ck, 1, 1, 0, u, v, w, uu, vv, ww);
        acc = acc + self.corner_term(ci, cj, ck, 1, 1, 1, u, v, w, uu, vv, ww);
        acc
    }

    /// One corner's contribution to the trilinear interpolation.
    fn corner_term(
        &self,
        ci: i64,
        cj: i64,
        ck: i64,
        di: i64,
        dj: i64,
        dk: i64,
        u: i64,
        v: i64,
        w: i64,
        uu: i64,
        vv: i64,
        ww: i64,
    ) -> (r: i64)
        requires
            perlin_wf(*self),
            abs_int(ci as int) <= VMAX,
            abs_int(cj as int) <= VMAX,
            abs_int(ck as int) <= VMAX,
            0 <= di <= 1,
            0 <= dj <= 1,
            0 <= dk <= 1,
            0 <= u < SCALE,
            0 <= v < SCALE,
            0 <= w < SCALE,
            0 <= uu <= 3 * SCALE,
            0 <= vv <= 3 * SCALE,
            0 <= ww <= 3 * SCALE,
        ensures
            r == spec_corner_term(
                *self,
                ci as int,
                cj as int,
                ck as int,
                di as int,
                dj as int,
                dk as int,
                u as int,
                v as int,
                w as int,
                uu as int,
                vv as int,
                ww as int,
            ),
            abs_int(r as int) <= 81 * SCALE,
    {
        proof {
            reveal(spec_corner_term);
        }
        let ix = index_mod(ci + di);
        let iy = index_mod(cj + dj);
        let iz = index_mod(ck + dk);
        let g = self.random_vec[(self.perm_x[ix] ^ self.perm_y[iy] ^ self.perm_z[iz]) as usize];
        let weight = Vec3 { x: u - di * SCALE, y: v - dj * SCALE, z: w - dk * SCALE };
        proof {
            lemma_dot_bound(g, weight, SCALE as int);
            assert((3 * (SCALE as int) * (SCALE as int)) / (SCALE as int) == 3 * (SCALE as int))
                by (nonlinear_arith);
        }
        let d = g.dot(&weight);
        let fx = if di == 1 {
            uu
        } else {
            SCALE - uu
        };
        let fy = if dj == 1 {
            vv
        } else {
            SCALE - vv
        };
        let fz = if dk == 1 {
            ww
        } else {
            SCALE - ww
        };
        proof {
            lemma_fmul_bound(fx as int, fy as int, 3 * (SCALE as int), 3 * (SCALE as int));
            assert(((3 * (SCALE as int)) * (3 * (SCALE as int))) / (SCALE as int) == 9 * (
            SCALE as int)) by (nonlinear_arith);
        }
        let t1 = fp_mul(fx, fy);
        proof {
            lemma_fmul_bound(t1 as int, fz as int, 9 * (SCALE as int), 3 * (SCALE as int));
            assert(((9 * (SCALE as int)) * (3 * (SCALE as int))) / (SCALE as int) == 27 * (
            SCALE as int)) by (nonlinear_arith);
        }
        let t2 = fp_mul(t1, fz);
        proof {
            lemma_fmul_bound(t2 as int, d as int, 27 * (SCALE as int), 3 * (SCALE as int));
            assert(((27 * (SCALE as int)) * (3 * (SCALE as int))) / (SCALE as int) == 81 * (
            SCALE as int)) by (nonlinear_arith);
        }
        fp_mul(t2, d)
    }

    /// Turbulence: absolute noise summed at doubling frequencies and
    /// halving weights.
    pub fn turbulence(&self, point: Point3, depth: usize) -> (r: i64)
        requires
            perlin_wf(*self),
            within(point, VMAX as int),
            depth <= 16,
        ensures
            r == spec_turbulence(*self, point, depth as int, SCALE as int),
            0 <= r <= 16 * NOISE_BOUND,
    {
        let mut accum: i64 = 0;
        let mut weight: i64 = SCALE;
        let mut temp = point;
        let mut level: usize = 0;
        while level < depth
            invariant
                perlin_wf(*self),
                within(temp, VMAX as int),
                0 <= weight <= SCALE,
                0 <= accum <= level * (NOISE_BOUND as int),
                level <= depth <= 16,
                accum + spec_turbulence(*self, temp, depth - level, weight as int)
                    == spec_turbulence(*self, point, depth as int, SCALE as int),
            decreases depth - level,
        {
            let n = self.noise(&temp);
            let an = if n >= 0 {
                n
            } else {
                -n
            };
            proof {
                lemma_fmul_bound(weight as int, an as int, SCALE as int, NOISE_BOUND as int);
                assert(((SCALE as int) * (NOISE_BOUND as int)) / (SCALE as int)
                    == NOISE_BOUND as int) by (nonlinear_arith);
                assert(weight * an >= 0) by (nonlinear_arith)
                    requires
                        weight >= 0,
                        an >= 0,
                ;
                crate::fixed::lemma_quot_nonneg(weight * an, SCALE as int);
                assert(an == abs_int(spec_noise(*self, temp)));
            }
            accum = accum + fp_mul(weight, an);
            weight = weight / 2;
            temp = temp.scale_sat(2 * SCALE, VMAX);
            level = level + 1;
        }
        proof {
            assert(spec_turbulence(*self, temp, 0, weight as int) == 0);
        }
        accum
    }
}

/// Noise depends only on the table contents: two tables with the same
/// entries yield the same noise everywhere.
pub proof fn lemma_noise_congruent(p1: Perlin, p2: Perlin, pt: Point3)
    requires
        p1.random_vec@ == p2.random_vec@,
        p1.perm_x@ == p2.perm_x@,
        p1.perm_y@ == p2.perm_y@,
        p1.perm_z@ == p2.perm_z@,
    ensures
        spec_noise(p1, pt) == spec_noise(p2, pt),
{
    reveal(spec_corner_term);
}

/// Turbulence depends only on the table contents.
pub proof fn lemma_turbulence_congruent(p1: Perlin, p2: Perlin, pt: Point3, depth: int, weight: int)
    requires
        p1.random_vec@ == p2.random_vec@,
        p1.perm_x@ == p2.perm_x@,
        p1.perm_y@ == p2.perm_y@,
        p1.perm_z@ == p2.perm_z@,
    ensures
        spec_turbulence(p1, pt, depth, weight) == spec_turbulence(p2, pt, depth, weight),
    decreases depth,
{
    if depth > 0 {
        lemma_noise_congruent(p1, p2, pt);
        lemma_turbulence_congruent(
            p1,
            p2,
            crate::vec3::spec_scale_sat(pt, 2 * (SCALE as int), VMAX as int),
            depth - 1,
            weight / 2,
        );
    }
}

/// A lattice coordinate reduced to a table index.
fn index_mod(c: i64) -> (r: usize)
    requires
        abs_int(c as int) <= VMAX + 1,
    ensures
        r == (c as int) % 256,
        r < 256,
{
    proof {
        vstd::arithmetic::div_mod::lemma_fundamental_div_mod(c as int, 256);
        vstd::arithmetic::div_mod::lemma_mod_bound(c as int, 256);
    }
    let q: i128 = floor_div_wide(c as i128, 256);
    (c as i128 - q * 256) as usize
}

/// A freshly shuffled byte permutation: all 256 values appear.
pub fn generate_perlin_permutation(rng: &mut RngState) -> (r: Vec<u8>)
    ensures
        r@.len() == 256,
        forall|k: u8| r@.contains(k),
{
    let mut perm: Vec<u8> = Vec::new();
    let mut i: usize = 0;
    while i < POINT_COUNT
        invariant
            i <= 256,
            perm@.len() == i,
            forall|j: int| 0 <= j < i ==> #[trigger] perm@[j] == j as u8,
        decreases 256 - i,
    {
        perm.push(i as u8);
        i = i + 1;
    }
    proof {
        assert forall|k: u8| perm@.contains(k) by {
            assert(perm@[k as int] == k);
        };
    }
    let mut i: usize = 255;
    while i >= 1
        invariant
            i <= 255,
            perm@.len() == 256,
            forall|k: u8| perm@.contains(k),
        decreases i,
    {
        let target = (rng.next_u64() % (i as u64)) as usize;
        let ghost before = perm@;
        let a = perm[i];
        let b = perm[target];
        perm[i] = b;
        perm[target] = a;
        proof {
            assert forall|k: u8| perm@.contains(k) by {
                assert(before.contains(k));
                let j = choose|j: int| 0 <= j < before.len() && before[j] == k;
                if j == i {
                    assert(perm@[target as int] == k);
                } else if j == target {
                    assert(perm@[i as int] == k);
                } else {
                    assert(perm@[j] == k);
                }
            };
        }
        i = i - 1;
    }
    perm
}

} // verus!
