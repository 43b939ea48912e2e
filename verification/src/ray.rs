//! A ray: origin, direction, and the time it was cast (for motion blur).

use vstd::prelude::*;

verus! {

use crate::fixed::fx_wf;
use crate::vec3::Vec3;

#[derive(Clone, Copy, PartialEq, Eq, Structural, Debug)]
pub struct Ray {
    pub origin: Vec3,
    pub dir: Vec3,
    pub tm: i64,
}

impl Ray {
    pub open spec fn wf(self) -> bool {
        self.origin.wf() && self.dir.wf() && fx_wf(self.tm)
    }

    /// The point `origin + t * dir`.
    pub open spec fn spec_at(self, t: i64) -> Vec3 {
        self.origin.spec_add(self.dir.spec_scale(t))
    }

    pub fn new(origin: &Vec3, dir: &Vec3, time: i64) -> (r: Ray)
        ensures
            r.origin == *origin,
            r.dir == *dir,
            r.tm == time,
    {
        Ray { origin: *origin, dir: *dir, tm: time }
    }

    pub fn origin(&self) -> (r: &Vec3)
        ensures
            *r == self.origin,
    {
        &self.origin
    }

    pub fn dir(&self) -> (r: &Vec3)
        ensures
            *r == self.dir,
    {
        &self.dir
    }

    pub fn time(&self) -> (r: i64)
        ensures
            r == self.tm,
    {
        self.tm
    }

    pub fn at(&self, t: i64) -> (r: Vec3)
        requires
            self.wf(),
            fx_wf(t),
        ensures
            r == self.spec_at(t),
            r.wf(),
    {
        self.origin.add(&self.dir.scale(t))
    }
}

} // verus!
