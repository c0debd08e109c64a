//! A half-line with an origin, a direction, and a sample time used for
//! motion blur.

use vstd::prelude::*;

use crate::vec3::{spec_add, spec_scale, Point3, Vec3};

verus! {

#[derive(Clone, Copy, PartialEq, Eq, Structural, Debug)]
pub struct Ray {
    pub orig: Point3,
    pub dir: Vec3,
    pub tm: i64,
}

/// The point the ray reaches at parameter `t`.
pub open spec fn spec_at(r: Ray, t: int) -> Point3 {
    spec_add(r.orig, spec_scale(r.dir, t))
}

impl Ray {
    /// Largest representable ray parameter, used as an unbounded upper
    /// search limit.
    pub fn infinity() -> (r: i64)
        ensures
            r == i64::MAX,
    {
        i64::MAX
    }

    pub fn new(orig: Point3, dir: Vec3) -> (r: Ray)
        ensures
            r.orig == orig,
            r.dir == dir,
            r.tm == 0,
    {
        Ray { orig, dir, tm: 0 }
    }

    pub fn new_timed(orig: Point3, dir: Vec3, tm: i64) -> (r: Ray)
        ensures
            r == (Ray { orig, dir, tm }),
    {
        Ray { orig, dir, tm }
    }

    pub fn origin(&self) -> (r: &Point3)
        ensures
            *r == self.orig,
    {
        &self.orig
    }

    pub fn direction(&self) -> (r: &Vec3)
        ensures
            *r == self.dir,
    {
        &self.dir
    }

    pub fn time(&self) -> (r: &i64)
        ensures
            *r == self.tm,
    {
        &self.tm
    }

    pub fn at(&self, t: i64) -> (r: Point3)
        ensures
            r == spec_at(*self, t as int),
    {
        self.orig.add(&self.dir.scale(t))
    }
}

} // verus!
