//! Closed fixed-point ranges, used for ray-parameter bounds and for color
//! clamping.

use vstd::prelude::*;

use crate::fixed::{sat64, sat_to_i64, tdiv};

verus! {

#[derive(Clone, Copy, PartialEq, Eq, Structural, Debug)]
pub struct Interval {
    pub min: i64,
    pub max: i64,
}

/// An interval holds something exactly when `min <= max`.
pub open spec fn spec_nonempty(i: Interval) -> bool {
    i.min <= i.max
}

pub open spec fn spec_contains(i: Interval, x: int) -> bool {
    i.min <= x <= i.max
}

pub open spec fn spec_surrounds(i: Interval, x: int) -> bool {
    i.min < x < i.max
}

pub open spec fn spec_clamp(i: Interval, x: int) -> int {
    let lo = if x >= i.min {
        x
    } else {
        i.min as int
    };
    if lo <= i.max {
        lo
    } else {
        i.max as int
    }
}

pub open spec fn spec_union(a: Interval, b: Interval) -> Interval {
    Interval {
        min: if a.min <= b.min {
            a.min
        } else {
            b.min
        },
        max: if a.max >= b.max {
            a.max
        } else {
            b.max
        },
    }
}

impl Interval {
    /// The canonical empty interval: neutral under `union`, contains
    /// nothing.  (`min > max` marks emptiness.)
    pub fn empty() -> (r: Interval)
        ensures
            r.min == i64::MAX,
            r.max == i64::MIN,
            !spec_nonempty(r),
            forall|x: int| !spec_contains(r, x),
    {
        Interval { min: i64::MAX, max: i64::MIN }
    }

    /// The interval holding every representable scalar.
    pub fn universe() -> (r: Interval)
        ensures
            r.min == i64::MIN,
            r.max == i64::MAX,
    {
        Interval { min: i64::MIN, max: i64::MAX }
    }

    pub fn default() -> (r: Interval)
        ensures
            r.min == i64::MAX,
            r.max == i64::MIN,
            !spec_nonempty(r),
    {
        Interval::empty()
    }

    pub fn new(min: i64, max: i64) -> (r: Interval)
        ensures
            r == (Interval { min, max }),
    {
        Interval { min, max }
    }

    /// The smallest interval containing both arguments.
    pub fn union(a: &Interval, b: &Interval) -> (r: Interval)
        ensures
            r == spec_union(*a, *b),
            forall|x: int| spec_contains(*a, x) ==> spec_contains(r, x),
            forall|x: int| spec_contains(*b, x) ==> spec_contains(r, x),
    {
        Interval {
            min: if a.min <= b.min {
                a.min
            } else {
                b.min
            },
            max: if a.max >= b.max {
                a.max
            } else {
                b.max
            },
        }
    }

    pub fn contains(&self, x: i64) -> (r: bool)
        ensures
            r == spec_contains(*self, x as int),
    {
        self.min <= x && x <= self.max
    }

    pub fn surrounds(&self, x: i64) -> (r: bool)
        ensures
            r == spec_surrounds(*self, x as int),
    {
        self.min < x && x < self.max
    }

    pub fn clamp(&self, x: i64) -> (r: i64)
        ensures
            r as int == spec_clamp(*self, x as int),
    {
        let lo = if x >= self.min {
            x
        } else {
            self.min
        };
        if lo <= self.max {
            lo
        } else {
            self.max
        }
    }

    /// Width of the interval, saturated (negative for an empty interval).
    pub fn size(&self) -> (r: i64)
        ensures
            r as int == sat64(self.max - self.min),
    {
        sat_to_i64(self.max as i128 - self.min as i128)
    }

    /// Widen by exactly `delta`: half below, the rest above (the upper
    /// side takes the odd unit).
    pub fn expand(&self, delta: i64) -> (r: Interval)
        requires
            delta >= 0,
        ensures
            r.min as int == sat64(self.min - tdiv(delta as int, 2)),
            r.max as int == sat64(self.max + (delta - tdiv(delta as int, 2))),
            sat64(self.min - tdiv(delta as int, 2)) == self.min - tdiv(delta as int, 2) && sat64(
                self.max + (delta - tdiv(delta as int, 2)),
            ) == self.max + (delta - tdiv(delta as int, 2)) ==> r.max - r.min == self.max
                - self.min + delta,
    {
        let padding = delta / 2;
        proof {
            assert(padding as int == tdiv(delta as int, 2));
        }
        Interval {
            min: sat_to_i64(self.min as i128 - padding as i128),
            max: sat_to_i64(self.max as i128 + (delta - padding) as i128),
        }
    }
}

} // verus!
