//! Rays: an origin, a direction (not necessarily unit length) and a time in
//! `[0, 1)` kept for motion blur.

use vstd::prelude::*;
use crate::fixed::{SCALE, abs_int, quot_trunc};
use crate::vec3::{Vec3, Point3, within, spec_add, spec_scale};

verus! {

#[derive(Clone, Copy, PartialEq, Eq, Structural, Debug)]
pub struct Ray {
    pub origin: Point3,
    pub direction: Vec3,
    pub time: i64,
}

/// The point reached at parameter `t`: `origin + t * direction`.
pub open spec fn spec_at(r: Ray, t: int) -> Point3 {
    spec_add(r.origin, spec_scale(r.direction, t))
}

impl Ray {
    pub fn new(origin: Point3, direction: Vec3, time: i64) -> (r: Ray)
        ensures
            r == (Ray { origin, direction, time }),
    {
        Ray { origin, direction, time }
    }

    pub fn zero() -> (r: Ray)
        ensures
            r.origin == (Vec3 { x: 0i64, y: 0i64, z: 0i64 }),
            r.direction == (Vec3 { x: 0i64, y: 0i64, z: 0i64 }),
            r.time == 0,
    {
        Ray { origin: Vec3::zero(), direction: Vec3::zero(), time: 0 }
    }

    pub fn at(&self, t: i64) -> (r: Point3)
        requires
            within(self.origin, 0x1000000000000),
            within(self.direction, 0x1000000000000),
            abs_int(t as int) <= 0x1000000000000,
            abs_int(quot_trunc(self.direction.x * t, SCALE as int)) <= 0x3fffffffffffffff,
            abs_int(quot_trunc(self.direction.y * t, SCALE as int)) <= 0x3fffffffffffffff,
            abs_int(quot_trunc(self.direction.z * t, SCALE as int)) <= 0x3fffffffffffffff,
        ensures
            r == spec_at(*self, t as int),
    {
        proof {
            crate::fixed::lemma_abs_mul_bound(self.direction.x as int, t as int, 0x1000000000000,
                0x1000000000000);
            crate::fixed::lemma_abs_mul_bound(self.direction.y as int, t as int, 0x1000000000000,
                0x1000000000000);
            crate::fixed::lemma_abs_mul_bound(self.direction.z as int, t as int, 0x1000000000000,
                0x1000000000000);
        }
        let d = self.direction.scale(t);
        self.origin.add(&d)
    }
}

} // verus!
