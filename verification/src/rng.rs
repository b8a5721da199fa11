//! Random sampling. Raw randomness comes from rand's `StdRng`, seeded per
//! worker for reproducibility; everything derived from the raw draws is
//! verified, with bounded rejection loops.

use vstd::prelude::*;
use crate::fixed::{SCALE, abs_int, quot_trunc, fp_div};
use crate::vec3::{Vec3, within, spec_len_sq, spec_len, spec_near_zero};

verus! {

#[verifier::external_type_specification]
#[verifier::external_body]
pub struct ExStdRng(rand::rngs::StdRng);

/// Relies on rand's `StdRng::seed_from_u64` (via `SeedableRng`): builds a
/// deterministic generator from a 64-bit seed.
#[verifier::external_body]
fn seed_std_rng(seed: u64) -> rand::rngs::StdRng {
    <rand::rngs::StdRng as rand::SeedableRng>::seed_from_u64(seed)
}

/// Relies on rand's `RngCore::next_u64` for `StdRng`: one raw draw; nothing
/// is promised of the value.
#[verifier::external_body]
fn next_raw(inner: &mut rand::rngs::StdRng) -> u64 {
    rand::RngCore::next_u64(inner)
}

/// Per-worker generator state.
pub struct RngState {
    inner: rand::rngs::StdRng,
}

impl RngState {
    pub fn from_seed(seed: u64) -> RngState {
        RngState { inner: seed_std_rng(seed) }
    }

    /// One raw 64-bit draw.
    pub fn next_u64(&mut self) -> u64 {
        next_raw(&mut self.inner)
    }

    /// A uniform fixed-point fraction in `[0, 1)`.
    pub fn random_unit(&mut self) -> (r: i64)
        ensures
            0 <= r < SCALE,
    {
        let raw = self.next_u64();
        (raw % (SCALE as u64)) as i64
    }

    /// A uniform fixed-point scalar in `[min, max)` (or `min` when the range
    /// is empty), as `min + u * (max - min)` for a uniform fraction `u`.
    pub fn random_range(&mut self, min: i64, max: i64) -> (r: i64)
        requires
            min <= max,
            abs_int(min as int) <= 0x1000000000000,
            abs_int(max as int) <= 0x1000000000000,
        ensures
            min <= r,
            min < max ==> r < max,
            min == max ==> r == min,
    {
        let u = self.random_unit();
        let span = max - min;
        proof {
            crate::fixed::lemma_abs_mul_bound(u as int, span as int, SCALE as int,
                0x2000000000000);
            crate::fixed::lemma_quot_nonneg(u * span, SCALE as int);
            assert(u * span <= (SCALE - 1) * span) by (nonlinear_arith)
                requires
                    0 <= u <= SCALE - 1,
                    span >= 0,
            ;
            vstd::arithmetic::div_mod::lemma_div_is_ordered(u * span, (SCALE - 1) * span,
                SCALE as int);
            if span > 0 {
                assert(((SCALE - 1) * span) / (SCALE as int) < span) by (nonlinear_arith)
                    requires
                        span > 0,
                ;
            } else {
                assert(((SCALE - 1) * span) / (SCALE as int) == 0);
            }
        }
        let step = crate::fixed::fp_mul(u, span);
        min + step
    }

    /// A point inside the open unit sphere, by bounded rejection; after too
    /// many rejections a fixed interior point is used.
    pub fn random_in_unit_sphere(&mut self) -> (r: Vec3)
        ensures
            within(r, SCALE as int),
            spec_len_sq(r) < SCALE,
    {
        let mut tries: usize = 0;
        while tries < 64
            invariant
                tries <= 64,
            decreases 64 - tries,
        {
            let x = self.random_range(-SCALE, SCALE);
            let y = self.random_range(-SCALE, SCALE);
            let z = self.random_range(-SCALE, SCALE);
            let p = Vec3 { x, y, z };
            proof {
                crate::vec3::lemma_dot_bound(p, p, SCALE as int);
                crate::vec3::lemma_len_sq_nonneg(p);
            }
            if p.length_squared() < SCALE {
                return p;
            }
            tries = tries + 1;
        }
        let fallback = Vec3 { x: SCALE / 2, y: 0, z: 0 };
        proof {
            lemma_half_unit_len_sq();
        }
        fallback
    }

    /// A point on the unit sphere: an interior point of workable length,
    /// scaled to unit length.
    pub fn random_on_unit_sphere(&mut self) -> (r: Vec3)
        ensures
            within(r, 2 * SCALE as int),
            crate::vec3::unit_wf(r),
            crate::fixed::abs_int(spec_len_sq(r) - SCALE) <= crate::vec3::UNIT_TOLERANCE,
    {
        let mut tries: usize = 0;
        let mut p = Vec3 { x: SCALE / 2, y: 0, z: 0 };
        proof {
            lemma_half_unit_len_sq();
        }
        let mut good: bool = false;
        while tries < 64 && !good
            invariant
                tries <= 64,
                within(p, SCALE as int),
                spec_len_sq(p) >= SCALE / 4,
            decreases 64 - tries,
        {
            let x = self.random_range(-SCALE, SCALE);
            let y = self.random_range(-SCALE, SCALE);
            let z = self.random_range(-SCALE, SCALE);
            let q = Vec3 { x, y, z };
            proof {
                crate::vec3::lemma_dot_bound(q, q, SCALE as int);
                crate::vec3::lemma_len_sq_nonneg(q);
            }
            let ls = q.length_squared();
            if ls >= SCALE / 4 && ls < SCALE {
                p = q;
                good = true;
            }
            tries = tries + 1;
        }
        p.unit_dir()
    }

    /// A point in the open unit disk in the plane `z = 0`, by bounded
    /// rejection.
    pub fn random_in_unit_disk(&mut self) -> (r: Vec3)
        ensures
            within(r, SCALE as int),
            spec_len_sq(r) < SCALE,
            r.z == 0,
    {
        let mut tries: usize = 0;
        while tries < 64
            invariant
                tries <= 64,
            decreases 64 - tries,
        {
            let x = self.random_range(-SCALE, SCALE);
            let y = self.random_range(-SCALE, SCALE);
            let p = Vec3 { x, y, z: 0 };
            proof {
                crate::vec3::lemma_dot_bound(p, p, SCALE as int);
                crate::vec3::lemma_len_sq_nonneg(p);
            }
            if p.length_squared() < SCALE {
                return p;
            }
            tries = tries + 1;
        }
        let fallback = Vec3 { x: SCALE / 2, y: 0, z: 0 };
        proof {
            lemma_half_unit_len_sq();
        }
        fallback
    }

    /// A draw from the unit exponential distribution, by von Neumann's method
    /// on uniform fractions: only comparisons of draws are needed. The result
    /// is never negative; the tail is truncated after a bounded number of
    /// rounds.
    pub fn exp_unit(&mut self) -> (r: i64)
        ensures
            0 <= r,
            r <= 64 * SCALE,
    {
        let mut base: i64 = 0;
        let mut rounds: usize = 0;
        while rounds < 48
            invariant
                0 <= base,
                base == SCALE * rounds,
                rounds <= 48,
            decreases 48 - rounds,
        {
            let first = self.random_unit();
            let mut prev = first;
            let mut n: usize = 1;
            let mut rising: bool = false;
            while n < 16 && !rising
                invariant
                    1 <= n <= 16,
                decreases 16 - n,
            {
                let u = self.random_unit();
                if u >= prev {
                    rising = true;
                } else {
                    prev = u;
                }
                n = n + 1;
            }
            if n % 2 == 1 {
                return base + first;
            }
            base = base + SCALE;
            rounds = rounds + 1;
        }
        base
    }
}

/// The point halfway along the first axis has squared length one quarter.
proof fn lemma_half_unit_len_sq()
    ensures
        spec_len_sq(Vec3 { x: 32768i64, y: 0i64, z: 0i64 }) == 16384,
{
    let v = Vec3 { x: 32768i64, y: 0i64, z: 0i64 };
    assert(crate::vec3::dot_raw(v, v) == 0x40000000);
    assert(quot_trunc(0x40000000, 65536) == 16384) by {
        assert(0x40000000int / 65536 == 16384) by (nonlinear_arith);
    };
}

} // verus!
