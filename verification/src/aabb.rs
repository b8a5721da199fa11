//! Axis-aligned bounding boxes: one interval per axis, with the slab
//! intersection test used to prune scene traversal.

use vstd::prelude::*;
use crate::fixed::{SCALE, abs_int, quot_trunc, fdiv, fp_div, lemma_quot_bound};
use crate::interval::{Interval, FP_INF, spec_is_empty, spec_intersect, spec_unite, iv_within};
use crate::ray::Ray;
use crate::vec3::{Vec3, Point3, within, spec_comp};

verus! {

/// Bound on every endpoint of a well-formed scene bounding box: 2^36 in
/// fixed-point units.
pub const BMAX: i64 = 0x1000000000;

/// Padding applied to degenerate axes, about 1.2e-4 world units.
pub const PAD_DELTA: i64 = 8;

#[derive(Clone, Copy, PartialEq, Eq, Structural, Debug)]
pub struct AABB {
    pub x: Interval,
    pub y: Interval,
    pub z: Interval,
}

/// Interval of the box along axis `i`.
pub open spec fn spec_axis(b: AABB, i: int) -> Interval {
    if i == 0 {
        b.x
    } else if i == 1 {
        b.y
    } else {
        b.z
    }
}

/// Every endpoint of every axis has magnitude at most `m`.
pub open spec fn aabb_within(b: AABB, m: int) -> bool {
    iv_within(b.x, m) && iv_within(b.y, m) && iv_within(b.z, m)
}

/// Each axis is ordered: `min <= max`.
pub open spec fn aabb_sorted(b: AABB) -> bool {
    b.x.min <= b.x.max && b.y.min <= b.y.max && b.z.min <= b.z.max
}

/// A well-formed finite scene box: ordered and within `BMAX`.
pub open spec fn aabb_wf(b: AABB) -> bool {
    aabb_sorted(b) && aabb_within(b, BMAX as int)
}

/// `inner` lies inside `outer` on every axis.
pub open spec fn aabb_contained(inner: AABB, outer: AABB) -> bool {
    outer.x.min <= inner.x.min && inner.x.max <= outer.x.max && outer.y.min <= inner.y.min
        && inner.y.max <= outer.y.max && outer.z.min <= inner.z.min && inner.z.max <= outer.z.max
}

/// The box with the two points as opposite corners, each axis sorted.
pub open spec fn spec_corner_box(a: Point3, b: Point3) -> AABB {
    AABB {
        x: Interval {
            min: if a.x <= b.x {
                a.x
            } else {
                b.x
            },
            max: if a.x >= b.x {
                a.x
            } else {
                b.x
            },
        },
        y: Interval {
            min: if a.y <= b.y {
                a.y
            } else {
                b.y
            },
            max: if a.y >= b.y {
                a.y
            } else {
                b.y
            },
        },
        z: Interval {
            min: if a.z <= b.z {
                a.z
            } else {
                b.z
            },
            max: if a.z >= b.z {
                a.z
            } else {
                b.z
            },
        },
    }
}

/// One axis padded: left alone at or above the minimal width, else grown
/// symmetrically by half the padding on each side.
pub open spec fn spec_pad_axis(i: Interval) -> Interval {
    if i.max - i.min >= PAD_DELTA as int {
        i
    } else {
        Interval { min: (i.min - PAD_DELTA / 2) as i64, max: (i.max + PAD_DELTA / 2) as i64 }
    }
}

/// Every axis padded to the minimal width.
pub open spec fn spec_pad(b: AABB) -> AABB {
    AABB { x: spec_pad_axis(b.x), y: spec_pad_axis(b.y), z: spec_pad_axis(b.z) }
}

/// Per-axis union of two boxes.
pub open spec fn spec_unite_aabb(a: AABB, b: AABB) -> AABB {
    AABB { x: spec_unite(a.x, b.x), y: spec_unite(a.y, b.y), z: spec_unite(a.z, b.z) }
}

/// The running ray interval after testing one slab: unchanged or emptied for
/// a parallel ray, otherwise intersected with the ordered slab interval.
pub open spec fn spec_slab_axis(iv: Interval, o: i64, d: i64, cur: Interval) -> Interval {
    if d == 0 {
        if iv.min <= o && o <= iv.max {
            cur
        } else {
            Interval { min: FP_INF, max: (-FP_INF) as i64 }
        }
    } else {
        let t0 = fdiv(iv.min - o, d as int);
        let t1 = fdiv(iv.max - o, d as int);
        let lo = if t0 <= t1 {
            t0
        } else {
            t1
        };
        let hi = if t0 >= t1 {
            t0
        } else {
            t1
        };
        spec_intersect(cur, Interval { min: lo as i64, max: hi as i64 })
    }
}

/// The running interval after all three slabs.
pub open spec fn spec_slab_all(b: AABB, r: Ray, ri: Interval) -> Interval {
    let a0 = spec_slab_axis(b.x, r.origin.x, r.direction.x, ri);
    let a1 = spec_slab_axis(b.y, r.origin.y, r.direction.y, a0);
    spec_slab_axis(b.z, r.origin.z, r.direction.z, a1)
}

/// The slab test succeeds when the final running interval is nonempty.
pub open spec fn spec_aabb_hit(b: AABB, r: Ray, ri: Interval) -> bool {
    !spec_is_empty(spec_slab_all(b, r, ri))
}

impl AABB {
    pub fn new(x: Interval, y: Interval, z: Interval) -> (r: AABB)
        ensures
            r == (AABB { x, y, z }),
    {
        AABB { x, y, z }
    }

    /// The empty box: every axis is the empty interval.
    pub fn new_empty() -> (r: AABB)
        ensures
            r.x == (Interval { min: FP_INF, max: (-FP_INF) as i64 }),
            r.y == (Interval { min: FP_INF, max: (-FP_INF) as i64 }),
            r.z == (Interval { min: FP_INF, max: (-FP_INF) as i64 }),
    {
        AABB { x: Interval::new_empty(), y: Interval::new_empty(), z: Interval::new_empty() }
    }

    /// Treat `a` and `b` as opposite corners, in either order: every axis of
    /// the result is sorted.
    pub fn new_from_points(a: Point3, b: Point3) -> (r: AABB)
        ensures
            r.x.min == if a.x <= b.x {
                a.x
            } else {
                b.x
            },
            r.x.max == if a.x >= b.x {
                a.x
            } else {
                b.x
            },
            r.y.min == if a.y <= b.y {
                a.y
            } else {
                b.y
            },
            r.y.max == if a.y >= b.y {
                a.y
            } else {
                b.y
            },
            r.z.min == if a.z <= b.z {
                a.z
            } else {
                b.z
            },
            r.z.max == if a.z >= b.z {
                a.z
            } else {
                b.z
            },
            aabb_sorted(r),
            r == spec_corner_box(a, b),
    {
        AABB {
            x: Interval {
                min: if a.x <= b.x {
                    a.x
                } else {
                    b.x
                },
                max: if a.x >= b.x {
                    a.x
                } else {
                    b.x
                },
            },
            y: Interval {
                min: if a.y <= b.y {
                    a.y
                } else {
                    b.y
                },
                max: if a.y >= b.y {
                    a.y
                } else {
                    b.y
                },
            },
            z: Interval {
                min: if a.z <= b.z {
                    a.z
                } else {
                    b.z
                },
                max: if a.z >= b.z {
                    a.z
                } else {
                    b.z
                },
            },
        }
    }

    /// Pad every degenerate axis so each axis keeps a minimal width, avoiding
    /// zero-width slabs.
    pub fn pad(&self) -> (r: AABB)
        requires
            aabb_sorted(*self),
            aabb_within(*self, BMAX as int),
        ensures
            r == spec_pad(*self),
            aabb_sorted(r),
            aabb_within(r, BMAX as int + PAD_DELTA as int),
            r.x.max - r.x.min >= PAD_DELTA,
            r.y.max - r.y.min >= PAD_DELTA,
            r.z.max - r.z.min >= PAD_DELTA,
            aabb_contained(*self, r),
            self.x.max - self.x.min >= PAD_DELTA ==> r.x == self.x,
            self.y.max - self.y.min >= PAD_DELTA ==> r.y == self.y,
            self.z.max - self.z.min >= PAD_DELTA ==> r.z == self.z,
            self.x.max - self.x.min < PAD_DELTA ==> r.x.min == self.x.min - PAD_DELTA / 2
                && r.x.max == self.x.max + PAD_DELTA / 2,
            self.y.max - self.y.min < PAD_DELTA ==> r.y.min == self.y.min - PAD_DELTA / 2
                && r.y.max == self.y.max + PAD_DELTA / 2,
            self.z.max - self.z.min < PAD_DELTA ==> r.z.min == self.z.min - PAD_DELTA / 2
                && r.z.max == self.z.max + PAD_DELTA / 2,
    {
        let x = if self.x.max - self.x.min >= PAD_DELTA {
            self.x
        } else {
            self.x.expand(PAD_DELTA)
        };
        let y = if self.y.max - self.y.min >= PAD_DELTA {
            self.y
        } else {
            self.y.expand(PAD_DELTA)
        };
        let z = if self.z.max - self.z.min >= PAD_DELTA {
            self.z
        } else {
            self.z.expand(PAD_DELTA)
        };
        AABB { x, y, z }
    }

    /// Per-axis union with another box.
    pub fn unite(&self, other: &AABB) -> (r: AABB)
        ensures
            r == spec_unite_aabb(*self, *other),
            aabb_contained(*self, r),
            aabb_contained(*other, r),
    {
        AABB {
            x: self.x.unite(other.x),
            y: self.y.unite(other.y),
            z: self.z.unite(other.z),
        }
    }

    /// Saturate every endpoint into the representable world `[-BMAX, BMAX]`.
    /// Geometry is confined well inside that range, so a saturated box still
    /// bounds everything the tracer accepts.
    pub fn clamp_into_world(&self) -> (r: AABB)
        ensures
            r == spec_clamp_box(*self),
            r.x.min == clamp_world(self.x.min as int),
            r.x.max == clamp_world(self.x.max as int),
            r.y.min == clamp_world(self.y.min as int),
            r.y.max == clamp_world(self.y.max as int),
            r.z.min == clamp_world(self.z.min as int),
            r.z.max == clamp_world(self.z.max as int),
            aabb_within(r, BMAX as int),
            aabb_sorted(*self) ==> aabb_sorted(r),
    {
        AABB {
            x: Interval { min: clamp_world_exec(self.x.min), max: clamp_world_exec(self.x.max) },
            y: Interval { min: clamp_world_exec(self.y.min), max: clamp_world_exec(self.y.max) },
            z: Interval { min: clamp_world_exec(self.z.min), max: clamp_world_exec(self.z.max) },
        }
    }

    /// Interval along axis `n`; an out-of-range axis index is a programmer
    /// error and is excluded.
    pub fn axis(&self, n: usize) -> (r: Interval)
        requires
            n < 3,
        ensures
            r == spec_axis(*self, n as int),
    {
        if n == 0 {
            self.x
        } else if n == 1 {
            self.y
        } else {
            self.z
        }
    }

    /// Index of the axis with the greatest extent.
    pub fn longest_axis(&self) -> (r: usize)
        requires
            aabb_within(*self, BMAX as int + PAD_DELTA as int),
        ensures
            r < 3,
            spec_axis(*self, r as int).max - spec_axis(*self, r as int).min >= self.x.max
                - self.x.min,
            spec_axis(*self, r as int).max - spec_axis(*self, r as int).min >= self.y.max
                - self.y.min,
            spec_axis(*self, r as int).max - spec_axis(*self, r as int).min >= self.z.max
                - self.z.min,
    {
        let lx = self.x.max - self.x.min;
        let ly = self.y.max - self.y.min;
        let lz = self.z.max - self.z.min;
        if lx >= ly && lx >= lz {
            0
        } else if ly >= lz {
            1
        } else {
            2
        }
    }

    /// Slab test: intersect the running ray interval with each axis slab in
    /// turn; the ray misses when the interval empties. An axis the ray is
    /// parallel to either trivially contains the origin or trivially misses.
    pub fn hit(&self, ray: &Ray, ray_interval: Interval) -> (res: bool)
        requires
            aabb_within(*self, BMAX as int + PAD_DELTA as int),
            within(ray.origin, 0x200000000 as int),
            within(ray.direction, 0x200000000 as int),
        ensures
            res == spec_aabb_hit(*self, *ray, ray_interval),
    {
        let mut cur: Interval = ray_interval;
        let a0 = slab_axis(self.x, ray.origin.x, ray.direction.x, cur);
        if a0.is_empty() {
            proof {
                lemma_slab_axis_empty(self.y, ray.origin.y, ray.direction.y, a0);
                lemma_slab_axis_empty(
                    self.z,
                    ray.origin.z,
                    ray.direction.z,
                    spec_slab_axis(self.y, ray.origin.y, ray.direction.y, a0),
                );
            }
            return false;
        }
        let a1 = slab_axis(self.y, ray.origin.y, ray.direction.y, a0);
        if a1.is_empty() {
            proof {
                lemma_slab_axis_empty(self.z, ray.origin.z, ray.direction.z, a1);
            }
            return false;
        }
        let a2 = slab_axis(self.z, ray.origin.z, ray.direction.z, a1);
        !a2.is_empty()
    }
}

/// A box with every endpoint saturated into the representable world.
pub open spec fn spec_clamp_box(b: AABB) -> AABB {
    AABB {
        x: Interval { min: clamp_world(b.x.min as int), max: clamp_world(b.x.max as int) },
        y: Interval { min: clamp_world(b.y.min as int), max: clamp_world(b.y.max as int) },
        z: Interval { min: clamp_world(b.z.min as int), max: clamp_world(b.z.max as int) },
    }
}

/// Saturating keeps containment: a box inside another stays inside after
/// both are saturated, and a box already inside the world is unchanged.
pub proof fn lemma_clamp_box_monotone(inner: AABB, outer: AABB)
    requires
        aabb_contained(inner, outer),
    ensures
        aabb_contained(spec_clamp_box(inner), spec_clamp_box(outer)),
{
}

/// A box already inside the world is unchanged by saturation.
pub proof fn lemma_clamp_box_id(b: AABB)
    requires
        aabb_within(b, BMAX as int),
    ensures
        spec_clamp_box(b) == b,
{
}

/// A scalar saturated into the representable world.
pub open spec fn clamp_world(x: int) -> i64 {
    if x < -BMAX {
        (-BMAX) as i64
    } else if x > BMAX {
        BMAX
    } else {
        x as i64
    }
}

fn clamp_world_exec(x: i64) -> (r: i64)
    ensures
        r == clamp_world(x as int),
{
    if x < -BMAX {
        -BMAX
    } else if x > BMAX {
        BMAX
    } else {
        x
    }
}

/// A slab step on an empty running interval stays empty.
proof fn lemma_slab_axis_empty(iv: Interval, o: i64, d: i64, cur: Interval)
    requires
        spec_is_empty(cur),
    ensures
        spec_is_empty(spec_slab_axis(iv, o, d, cur)),
{
}

/// One slab step of the intersection test.
fn slab_axis(iv: Interval, o: i64, d: i64, cur: Interval) -> (r: Interval)
    requires
        abs_int(iv.min as int) <= BMAX as int + PAD_DELTA as int,
        abs_int(iv.max as int) <= BMAX as int + PAD_DELTA as int,
        abs_int(o as int) <= 0x200000000,
    ensures
        r == spec_slab_axis(iv, o, d, cur),
{
    if d == 0 {
        if iv.min <= o && o <= iv.max {
            cur
        } else {
            Interval::new_empty()
        }
    } else {
        proof {
            crate::fixed::lemma_abs_mul_bound(iv.min - o, SCALE as int, 0x2000000000, SCALE as int);
            crate::fixed::lemma_abs_mul_bound(iv.max - o, SCALE as int, 0x2000000000, SCALE as int);
            lemma_quot_bound((iv.min - o) * (SCALE as int), d as int, 0x2000000000int * 0x10000);
            lemma_quot_bound((iv.max - o) * (SCALE as int), d as int, 0x2000000000int * 0x10000);
        }
        let t0 = fp_div(iv.min - o, d);
        let t1 = fp_div(iv.max - o, d);
        let lo = if t0 <= t1 {
            t0
        } else {
            t1
        };
        let hi = if t0 >= t1 {
            t0
        } else {
            t1
        };
        cur.intersect(Interval { min: lo, max: hi })
    }
}

} // verus!
