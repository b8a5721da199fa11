//! Closed scalar ranges used for ray parameters and bounding boxes.

use vstd::prelude::*;
use crate::fixed::abs_int;

verus! {

/// Sentinel for an unbounded endpoint; no finite scene coordinate reaches it.
pub const FP_INF: i64 = i64::MAX;

#[derive(Clone, Copy, PartialEq, Eq, Structural, Debug)]
pub struct Interval {
    pub min: i64,
    pub max: i64,
}

/// An interval is empty when it holds no point with room to spare; the
/// default interval `(FP_INF, -FP_INF)` is empty.
pub open spec fn spec_is_empty(i: Interval) -> bool {
    i.min >= i.max
}

/// Both endpoints finite and of magnitude at most `m`.
pub open spec fn iv_within(i: Interval, m: int) -> bool {
    abs_int(i.min as int) <= m && abs_int(i.max as int) <= m
}

/// The intersection keeps the larger lower endpoint and the smaller upper one.
pub open spec fn spec_intersect(a: Interval, b: Interval) -> Interval {
    Interval {
        min: if a.min >= b.min {
            a.min
        } else {
            b.min
        },
        max: if a.max <= b.max {
            a.max
        } else {
            b.max
        },
    }
}

/// The union keeps the smaller lower endpoint and the larger upper one.
pub open spec fn spec_unite(a: Interval, b: Interval) -> Interval {
    Interval {
        min: if a.min <= b.min {
            a.min
        } else {
            b.min
        },
        max: if a.max >= b.max {
            a.max
        } else {
            b.max
        },
    }
}

impl Interval {
    pub fn new(min: i64, max: i64) -> (r: Interval)
        ensures
            r == (Interval { min, max }),
    {
        Interval { min, max }
    }

    /// The empty interval.
    pub fn new_empty() -> (r: Interval)
        ensures
            r.min == FP_INF,
            r.max == -FP_INF,
            spec_is_empty(r),
    {
        Interval { min: FP_INF, max: -FP_INF }
    }

    /// The interval covering every representable scalar.
    pub fn universe() -> (r: Interval)
        ensures
            r.min == -FP_INF,
            r.max == FP_INF,
    {
        Interval { min: -FP_INF, max: FP_INF }
    }

    /// Closed containment.
    pub fn contains(&self, x: i64) -> (r: bool)
        ensures
            r == (self.min <= x && x <= self.max),
    {
        self.min <= x && x <= self.max
    }

    /// Open containment.
    pub fn fully_contains(&self, x: i64) -> (r: bool)
        ensures
            r == (self.min < x && x < self.max),
    {
        self.min < x && x < self.max
    }

    pub fn clamp(&self, x: i64) -> (r: i64)
        ensures
            r == if x < self.min {
                self.min
            } else if x > self.max {
                self.max
            } else {
                x
            },
    {
        if x < self.min {
            return self.min;
        }
        if x > self.max {
            return self.max;
        }
        x
    }

    pub fn len(&self) -> (r: i64)
        requires
            i64::MIN <= self.max - self.min <= i64::MAX,
        ensures
            r == self.max - self.min,
    {
        self.max - self.min
    }

    pub fn is_empty(&self) -> (r: bool)
        ensures
            r == spec_is_empty(*self),
    {
        self.min >= self.max
    }

    /// Grow by half of `delta` on each side.
    pub fn expand(&self, delta: i64) -> (r: Interval)
        requires
            0 <= delta,
            i64::MIN <= self.min - delta / 2,
            self.max + delta / 2 <= i64::MAX,
        ensures
            r.min == self.min - delta / 2,
            r.max == self.max + delta / 2,
    {
        let padding = delta / 2;
        Interval { min: self.min - padding, max: self.max + padding }
    }

    pub fn intersect(&self, other: Interval) -> (r: Interval)
        ensures
            r == spec_intersect(*self, other),
    {
        let min = if self.min >= other.min {
            self.min
        } else {
            other.min
        };
        let max = if self.max <= other.max {
            self.max
        } else {
            other.max
        };
        Interval { min, max }
    }

    pub fn unite(&self, other: Interval) -> (r: Interval)
        ensures
            r == spec_unite(*self, other),
    {
        let min = if self.min <= other.min {
            self.min
        } else {
            other.min
        };
        let max = if self.max >= other.max {
            self.max
        } else {
            other.max
        };
        Interval { min, max }
    }

    /// Shift both endpoints by `rhs`.
    pub fn shift(&self, rhs: i64) -> (r: Interval)
        requires
            i64::MIN <= self.min + rhs <= i64::MAX,
            i64::MIN <= self.max + rhs <= i64::MAX,
        ensures
            r.min == self.min + rhs,
            r.max == self.max + rhs,
    {
        Interval { min: self.min + rhs, max: self.max + rhs }
    }
}

impl Default for Interval {
    /// The default interval is empty.
    fn default() -> (r: Interval)
        ensures
            r.min == FP_INF,
            r.max == -FP_INF,
            spec_is_empty(r),
    {
        Interval { min: FP_INF, max: -FP_INF }
    }
}

} // verus!
