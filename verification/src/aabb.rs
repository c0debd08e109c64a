//! Axis-aligned bounding boxes and the slab intersection test.
//!
//! The slab test works on exact rational ray parameters (numerator and
//! denominator pairs), so its outcome is specified precisely: no rounding
//! is involved.

use vstd::prelude::*;

use crate::fixed::{lemma_i64_product_in_i128, sat64, COORD_MAX, SCALE};
use crate::interval::{spec_nonempty, spec_union, Interval};
use crate::ray::Ray;
use crate::vec3::{in_range, Point3};

verus! {

#[derive(Clone, Copy, PartialEq, Eq, Structural, Debug)]
pub struct AABB {
    pub x: Interval,
    pub y: Interval,
    pub z: Interval,
}

/// Minimum slab thickness; boxes thinner than this on an axis are padded
/// so a flat primitive still has a usable box.
pub const PAD_DELTA: i64 = 7;

/// All interval ends within coordinate range.
pub open spec fn aabb_in_range(b: AABB) -> bool {
    &&& -COORD_MAX <= b.x.min <= COORD_MAX && -COORD_MAX <= b.x.max <= COORD_MAX
    &&& -COORD_MAX <= b.y.min <= COORD_MAX && -COORD_MAX <= b.y.max <= COORD_MAX
    &&& -COORD_MAX <= b.z.min <= COORD_MAX && -COORD_MAX <= b.z.max <= COORD_MAX
}

pub open spec fn spec_aabb_axis(b: AABB, n: int) -> Interval {
    if n == 0 {
        b.x
    } else if n == 1 {
        b.y
    } else {
        b.z
    }
}

/// Does the box contain the point `(px, py, pz)`?
pub open spec fn spec_aabb_contains(b: AABB, px: int, py: int, pz: int) -> bool {
    &&& b.x.min <= px <= b.x.max
    &&& b.y.min <= py <= b.y.max
    &&& b.z.min <= pz <= b.z.max
}

pub open spec fn spec_aabb_union(a: AABB, b: AABB) -> AABB {
    AABB { x: spec_union(a.x, b.x), y: spec_union(a.y, b.y), z: spec_union(a.z, b.z) }
}

/// The box spanned by two opposite corner points.
pub open spec fn spec_from_corners(a: Point3, b: Point3) -> AABB {
    AABB {
        x: Interval {
            min: if a.x <= b.x { a.x } else { b.x },
            max: if a.x >= b.x { a.x } else { b.x },
        },
        y: Interval {
            min: if a.y <= b.y { a.y } else { b.y },
            max: if a.y >= b.y { a.y } else { b.y },
        },
        z: Interval {
            min: if a.z <= b.z { a.z } else { b.z },
            max: if a.z >= b.z { a.z } else { b.z },
        },
    }
}

/// The padding rule applied to every axis.
pub open spec fn spec_padded(b: AABB) -> AABB {
    AABB { x: spec_padded_axis(b.x), y: spec_padded_axis(b.y), z: spec_padded_axis(b.z) }
}

/// Running ray-parameter window of the slab test, as two exact fractions
/// `tmin_n / tmin_d` and `tmax_n / tmax_d` with positive denominators.
#[derive(Clone, Copy, PartialEq, Eq, Structural, Debug)]
pub struct SlabState {
    pub tmin_n: i64,
    pub tmin_d: i64,
    pub tmax_n: i64,
    pub tmax_d: i64,
}

pub open spec fn slab_state_ok(st: SlabState) -> bool {
    st.tmin_d > 0 && st.tmax_d > 0
}

/// `an / ad < bn / bd` for positive denominators.
pub open spec fn spec_frac_lt(an: int, ad: int, bn: int, bd: int) -> bool {
    an * bd < bn * ad
}

/// One axis of the slab test: intersect the window with the axis's entry
/// and exit parameters; `None` is a miss (the window closed).
pub open spec fn spec_slab_axis(st: SlabState, lo: int, hi: int, o: int, d: int) -> Option<
    SlabState,
> {
    if d == 0 {
        if lo <= o <= hi {
            Some(st)
        } else {
            None
        }
    } else {
        let den = if d > 0 {
            d
        } else {
            -d
        };
        let en = if d > 0 {
            lo - o
        } else {
            o - hi
        };
        let ex = if d > 0 {
            hi - o
        } else {
            o - lo
        };
        let st1 = if spec_frac_lt(st.tmin_n as int, st.tmin_d as int, en, den) {
            SlabState { tmin_n: en as i64, tmin_d: den as i64, ..st }
        } else {
            st
        };
        let st2 = if spec_frac_lt(ex, den, st1.tmax_n as int, st1.tmax_d as int) {
            SlabState { tmax_n: ex as i64, tmax_d: den as i64, ..st1 }
        } else {
            st1
        };
        if spec_frac_lt(st2.tmin_n as int, st2.tmin_d as int, st2.tmax_n as int, st2.tmax_d as int) {
            Some(st2)
        } else {
            None
        }
    }
}

/// The whole slab test: the ray meets the box within the open parameter
/// window `ray_t`.
pub open spec fn spec_aabb_hit(b: AABB, r: Ray, ray_t: Interval) -> bool {
    let st0 = SlabState {
        tmin_n: ray_t.min,
        tmin_d: SCALE,
        tmax_n: ray_t.max,
        tmax_d: SCALE,
    };
    match spec_slab_axis(st0, b.x.min as int, b.x.max as int, r.orig.x as int, r.dir.x as int) {
        Option::None => false,
        Option::Some(st1) => match spec_slab_axis(
            st1,
            b.y.min as int,
            b.y.max as int,
            r.orig.y as int,
            r.dir.y as int,
        ) {
            Option::None => false,
            Option::Some(st2) => match spec_slab_axis(
                st2,
                b.z.min as int,
                b.z.max as int,
                r.orig.z as int,
                r.dir.z as int,
            ) {
                Option::None => false,
                Option::Some(_) => true,
            },
        },
    }
}

fn frac_lt(an: i64, ad: i64, bn: i64, bd: i64) -> (r: bool)
    ensures
        r == spec_frac_lt(an as int, ad as int, bn as int, bd as int),
{
    proof {
        lemma_i64_product_in_i128(an as int, bd as int);
        lemma_i64_product_in_i128(bn as int, ad as int);
    }
    (an as i128) * (bd as i128) < (bn as i128) * (ad as i128)
}

/// Component ends of one axis stay in `i64` when box and origin are in
/// coordinate range.
fn slab_axis(st: SlabState, lo: i64, hi: i64, o: i64, d: i64) -> (r: Option<SlabState>)
    requires
        -COORD_MAX <= lo <= COORD_MAX,
        -COORD_MAX <= hi <= COORD_MAX,
        -COORD_MAX <= o <= COORD_MAX,
        -COORD_MAX <= d <= COORD_MAX,
    ensures
        r == spec_slab_axis(st, lo as int, hi as int, o as int, d as int),
{
    if d == 0 {
        if lo <= o && o <= hi {
            Some(st)
        } else {
            None
        }
    } else {
        let den = if d > 0 {
            d
        } else {
            -d
        };
        let en = if d > 0 {
            lo - o
        } else {
            o - hi
        };
        let ex = if d > 0 {
            hi - o
        } else {
            o - lo
        };
        let st1 = if frac_lt(st.tmin_n, st.tmin_d, en, den) {
            SlabState { tmin_n: en, tmin_d: den, ..st }
        } else {
            st
        };
        let st2 = if frac_lt(ex, den, st1.tmax_n, st1.tmax_d) {
            SlabState { tmax_n: ex, tmax_d: den, ..st1 }
        } else {
            st1
        };
        if frac_lt(st2.tmin_n, st2.tmin_d, st2.tmax_n, st2.tmax_d) {
            Some(st2)
        } else {
            None
        }
    }
}

impl AABB {
    /// The empty box: neutral under `union`.
    pub fn default() -> (r: AABB)
        ensures
            r.x.min == i64::MAX && r.x.max == i64::MIN,
            r.y.min == i64::MAX && r.y.max == i64::MIN,
            r.z.min == i64::MAX && r.z.max == i64::MIN,
    {
        AABB { x: Interval::empty(), y: Interval::empty(), z: Interval::empty() }
    }

    pub fn new(x: Interval, y: Interval, z: Interval) -> (r: AABB)
        ensures
            r == (AABB { x, y, z }),
    {
        AABB { x, y, z }
    }

    /// Expand any axis thinner than `PAD_DELTA` so flat primitives keep a
    /// usable slab: afterwards every nonempty in-range axis is at least
    /// `PAD_DELTA` thick and still contains what it contained.
    pub fn padded(&self) -> (r: AABB)
        ensures
            r.x == spec_padded_axis(self.x),
            r.y == spec_padded_axis(self.y),
            r.z == spec_padded_axis(self.z),
            aabb_in_range(*self) && spec_nonempty(self.x) ==> padded_axis_ok(self.x, r.x),
            aabb_in_range(*self) && spec_nonempty(self.y) ==> padded_axis_ok(self.y, r.y),
            aabb_in_range(*self) && spec_nonempty(self.z) ==> padded_axis_ok(self.z, r.z),
    {
        let new_x = if self.x.size() >= PAD_DELTA {
            self.x
        } else {
            self.x.expand(PAD_DELTA)
        };
        let new_y = if self.y.size() >= PAD_DELTA {
            self.y
        } else {
            self.y.expand(PAD_DELTA)
        };
        let new_z = if self.z.size() >= PAD_DELTA {
            self.z
        } else {
            self.z.expand(PAD_DELTA)
        };
        AABB { x: new_x, y: new_y, z: new_z }
    }

    /// Smallest box containing both arguments.
    pub fn union(a: &AABB, b: &AABB) -> (r: AABB)
        ensures
            r == spec_aabb_union(*a, *b),
    {
        AABB {
            x: Interval::union(&a.x, &b.x),
            y: Interval::union(&a.y, &b.y),
            z: Interval::union(&a.z, &b.z),
        }
    }

    /// Box spanned by two opposite corner points.
    pub fn from_corners(a: Point3, b: Point3) -> (r: AABB)
        ensures
            r == spec_from_corners(a, b),
            r.x.min == if a.x <= b.x { a.x } else { b.x },
            r.x.max == if a.x >= b.x { a.x } else { b.x },
            r.y.min == if a.y <= b.y { a.y } else { b.y },
            r.y.max == if a.y >= b.y { a.y } else { b.y },
            r.z.min == if a.z <= b.z { a.z } else { b.z },
            r.z.max == if a.z >= b.z { a.z } else { b.z },
    {
        AABB {
            x: Interval::new(if a.x <= b.x { a.x } else { b.x }, if a.x >= b.x { a.x } else { b.x }),
            y: Interval::new(if a.y <= b.y { a.y } else { b.y }, if a.y >= b.y { a.y } else { b.y }),
            z: Interval::new(if a.z <= b.z { a.z } else { b.z }, if a.z >= b.z { a.z } else { b.z }),
        }
    }

    /// The interval of axis `n` (`0` is x, `1` is y, `2` is z); any other
    /// index is a caller defect.
    pub fn axis(&self, n: i32) -> (r: &Interval)
        requires
            0 <= n <= 2,
        ensures
            *r == spec_aabb_axis(*self, n as int),
    {
        match n {
            0 => &self.x,
            1 => &self.y,
            _ => &self.z,
        }
    }

    /// Slab test: does the ray cross the box inside the open window
    /// `ray_t`?  Exact over rational ray parameters.
    pub fn hit(&self, r: &Ray, ray_t: Interval) -> (res: bool)
        requires
            aabb_in_range(*self),
            in_range(r.orig),
            in_range(r.dir),
        ensures
            res == spec_aabb_hit(*self, *r, ray_t),
    {
        let st0 = SlabState {
            tmin_n: ray_t.min,
            tmin_d: SCALE,
            tmax_n: ray_t.max,
            tmax_d: SCALE,
        };
        let st1 = match slab_axis(st0, self.x.min, self.x.max, r.origin().x, r.direction().x) {
            Some(st) => st,
            None => {
                return false;
            },
        };
        let st2 = match slab_axis(st1, self.y.min, self.y.max, r.origin().y, r.direction().y) {
            Some(st) => st,
            None => {
                return false;
            },
        };
        match slab_axis(st2, self.z.min, self.z.max, r.origin().z, r.direction().z) {
            Some(_) => true,
            None => false,
        }
    }
}

/// The padding rule for one axis: a thin axis grows by exactly
/// `PAD_DELTA`, half below and the rest above.
pub open spec fn spec_padded_axis(i: Interval) -> Interval {
    if sat64(i.max - i.min) >= PAD_DELTA {
        i
    } else {
        Interval {
            min: sat64(i.min - (PAD_DELTA as int) / 2) as i64,
            max: sat64(i.max + (PAD_DELTA - (PAD_DELTA as int) / 2)) as i64,
        }
    }
}

/// A nonempty axis in coordinate range keeps its ends and reaches the
/// minimum thickness after padding.
pub open spec fn padded_axis_ok(before: Interval, after: Interval) -> bool {
    &&& after.min <= before.min
    &&& after.max >= before.max
    &&& after.max - after.min >= PAD_DELTA
}

/// The union of two nonempty boxes contains both, and is the smallest box
/// that does: on each axis its ends are exactly the outer ends of the two
/// arguments, so its size on each axis is the largest upper end minus the
/// smallest lower end.
pub proof fn lemma_aabb_union_smallest(a: AABB, b: AABB)
    requires
        spec_nonempty(a.x) && spec_nonempty(a.y) && spec_nonempty(a.z),
        spec_nonempty(b.x) && spec_nonempty(b.y) && spec_nonempty(b.z),
    ensures
        forall|px: int, py: int, pz: int|
            spec_aabb_contains(a, px, py, pz) ==> spec_aabb_contains(
                spec_aabb_union(a, b),
                px,
                py,
                pz,
            ),
        forall|px: int, py: int, pz: int|
            spec_aabb_contains(b, px, py, pz) ==> spec_aabb_contains(
                spec_aabb_union(a, b),
                px,
                py,
                pz,
            ),
        spec_aabb_union(a, b).x.min == if a.x.min <= b.x.min { a.x.min as int } else { b.x.min as int },
        spec_aabb_union(a, b).x.max == if a.x.max >= b.x.max { a.x.max as int } else { b.x.max as int },
        spec_aabb_union(a, b).y.min == if a.y.min <= b.y.min { a.y.min as int } else { b.y.min as int },
        spec_aabb_union(a, b).y.max == if a.y.max >= b.y.max { a.y.max as int } else { b.y.max as int },
        spec_aabb_union(a, b).z.min == if a.z.min <= b.z.min { a.z.min as int } else { b.z.min as int },
        spec_aabb_union(a, b).z.max == if a.z.max >= b.z.max { a.z.max as int } else { b.z.max as int },
        // minimality: any box containing both contains the union's corners
        forall|c: AABB|
            (forall|px: int, py: int, pz: int|
                spec_aabb_contains(a, px, py, pz) ==> #[trigger] spec_aabb_contains(c, px, py, pz))
                && (forall|px: int, py: int, pz: int|
                spec_aabb_contains(b, px, py, pz) ==> #[trigger] spec_aabb_contains(c, px, py, pz))
                ==> #[trigger] aabb_covers(c, spec_aabb_union(a, b)),
{
    let u = spec_aabb_union(a, b);
    assert forall|c: AABB|
        (forall|px: int, py: int, pz: int|
            spec_aabb_contains(a, px, py, pz) ==> #[trigger] spec_aabb_contains(c, px, py, pz))
            && (forall|px: int, py: int, pz: int|
            spec_aabb_contains(b, px, py, pz) ==> #[trigger] spec_aabb_contains(c, px, py, pz))
            implies #[trigger] aabb_covers(c, u) by {
        assert(spec_aabb_contains(a, a.x.min as int, a.y.min as int, a.z.min as int));
        assert(spec_aabb_contains(a, a.x.max as int, a.y.max as int, a.z.max as int));
        assert(spec_aabb_contains(b, b.x.min as int, b.y.min as int, b.z.min as int));
        assert(spec_aabb_contains(b, b.x.max as int, b.y.max as int, b.z.max as int));
        assert(spec_aabb_contains(c, a.x.min as int, a.y.min as int, a.z.min as int));
        assert(spec_aabb_contains(c, a.x.max as int, a.y.max as int, a.z.max as int));
        assert(spec_aabb_contains(c, b.x.min as int, b.y.min as int, b.z.min as int));
        assert(spec_aabb_contains(c, b.x.max as int, b.y.max as int, b.z.max as int));
    }
}

/// Box `outer` contains every point of box `inner`.
pub open spec fn aabb_covers(outer: AABB, inner: AABB) -> bool {
    &&& outer.x.min <= inner.x.min && inner.x.max <= outer.x.max
    &&& outer.y.min <= inner.y.min && inner.y.max <= outer.y.max
    &&& outer.z.min <= inner.z.min && inner.z.max <= outer.z.max
}

} // verus!
