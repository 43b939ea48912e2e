//! Axis-aligned bounding boxes: the slab intersection test and the merge
//! that folds children's boxes into a parent's box.

use vstd::prelude::*;

verus! {

use crate::fixed::{fx_wf, fxsub, fxdiv, fxmin, fxmax, fx_sub, fx_div, fx_min, fx_max};
use crate::ray::Ray;
use crate::vec3::Vec3;

#[derive(Clone, Copy, PartialEq, Eq, Structural, Debug)]
pub struct Aabb {
    pub minimum: Vec3,
    pub maximum: Vec3,
}

/// One axis of the slab test: narrow the running parameter interval to the
/// stretch of the ray between the two planes of this axis. A ray parallel to
/// the planes (zero direction component) either misses outright or leaves the
/// interval untouched, rather than faulting on the division.
pub open spec fn spec_slab(
    minv: i64,
    maxv: i64,
    o: i64,
    d: i64,
    tmin: i64,
    tmax: i64,
) -> Option<(i64, i64)> {
    if d == 0 {
        if o < minv || o > maxv {
            None
        } else {
            Some((tmin, tmax))
        }
    } else {
        let ta = fxdiv(fxsub(minv as int, o as int), d as int) as i64;
        let tb = fxdiv(fxsub(maxv as int, o as int), d as int) as i64;
        let t0 = fxmin(ta as int, tb as int) as i64;
        let t1 = fxmax(ta as int, tb as int) as i64;
        let ntmin = fxmax(t0 as int, tmin as int) as i64;
        let ntmax = fxmin(t1 as int, tmax as int) as i64;
        if ntmax < ntmin {
            None
        } else {
            Some((ntmin, ntmax))
        }
    }
}

impl Aabb {
    pub open spec fn wf(self) -> bool {
        self.minimum.wf() && self.maximum.wf()
    }

    /// Whether the ray crosses this box anywhere in `[tmin, tmax]`.
    pub open spec fn spec_hit(self, r: Ray, tmin: i64, tmax: i64) -> bool {
        match spec_slab(self.minimum.x, self.maximum.x, r.origin.x, r.dir.x, tmin, tmax) {
            None => false,
            Some((tx0, tx1)) => match spec_slab(
                self.minimum.y,
                self.maximum.y,
                r.origin.y,
                r.dir.y,
                tx0,
                tx1,
            ) {
                None => false,
                Some((ty0, ty1)) => spec_slab(
                    self.minimum.z,
                    self.maximum.z,
                    r.origin.z,
                    r.dir.z,
                    ty0,
                    ty1,
                ).is_some(),
            },
        }
    }

    /// The componentwise union of two boxes.
    pub open spec fn spec_surrounding(self, o: Aabb) -> Aabb {
        Aabb {
            minimum: Vec3 {
                x: fxmin(self.minimum.x as int, o.minimum.x as int) as i64,
                y: fxmin(self.minimum.y as int, o.minimum.y as int) as i64,
                z: fxmin(self.minimum.z as int, o.minimum.z as int) as i64,
            },
            maximum: Vec3 {
                x: fxmax(self.maximum.x as int, o.maximum.x as int) as i64,
                y: fxmax(self.maximum.y as int, o.maximum.y as int) as i64,
                z: fxmax(self.maximum.z as int, o.maximum.z as int) as i64,
            },
        }
    }

    /// `self` covers `inner` on every axis.
    pub open spec fn spec_contains_box(self, inner: Aabb) -> bool {
        &&& self.minimum.x <= inner.minimum.x
        &&& self.minimum.y <= inner.minimum.y
        &&& self.minimum.z <= inner.minimum.z
        &&& inner.maximum.x <= self.maximum.x
        &&& inner.maximum.y <= self.maximum.y
        &&& inner.maximum.z <= self.maximum.z
    }

    pub fn new(minimum: Vec3, maximum: Vec3) -> (r: Aabb)
        ensures
            r.minimum == minimum,
            r.maximum == maximum,
    {
        Aabb { minimum, maximum }
    }

    /// One axis of the slab test, executable side.
    fn slab_axis(minv: i64, maxv: i64, o: i64, d: i64, tmin: i64, tmax: i64) -> (r: Option<
        (i64, i64),
    >)
        requires
            fx_wf(minv),
            fx_wf(maxv),
            fx_wf(o),
            fx_wf(d),
        ensures
            r == spec_slab(minv, maxv, o, d, tmin, tmax),
    {
        if d == 0 {
            if o < minv || o > maxv {
                None
            } else {
                Some((tmin, tmax))
            }
        } else {
            let ta = fx_div(fx_sub(minv, o), d);
            let tb = fx_div(fx_sub(maxv, o), d);
            let t0 = fx_min(ta, tb);
            let t1 = fx_max(ta, tb);
            let ntmin = fx_max(t0, tmin);
            let ntmax = fx_min(t1, tmax);
            if ntmax < ntmin {
                None
            } else {
                Some((ntmin, ntmax))
            }
        }
    }

    pub fn hit(&self, r: &Ray, t_min: i64, t_max: i64) -> (res: bool)
        requires
            self.wf(),
            r.wf(),
        ensures
            res == self.spec_hit(*r, t_min, t_max),
    {
        let sx = Self::slab_axis(
            self.minimum.x,
            self.maximum.x,
            r.origin.x,
            r.dir.x,
            t_min,
            t_max,
        );
        match sx {
            None => false,
            Some((tx0, tx1)) => {
                let sy = Self::slab_axis(
                    self.minimum.y,
                    self.maximum.y,
                    r.origin.y,
                    r.dir.y,
                    tx0,
                    tx1,
                );
                match sy {
                    None => false,
                    Some((ty0, ty1)) => {
                        let sz = Self::slab_axis(
                            self.minimum.z,
                            self.maximum.z,
                            r.origin.z,
                            r.dir.z,
                            ty0,
                            ty1,
                        );
                        sz.is_some()
                    },
                }
            },
        }
    }

    pub fn surrounding_box(&self, box1: &Aabb) -> (r: Aabb)
        requires
            self.wf(),
            box1.wf(),
        ensures
            r == self.spec_surrounding(*box1),
            r.wf(),
    {
        let small = Vec3::new(
            fx_min(self.minimum.x, box1.minimum.x),
            fx_min(self.minimum.y, box1.minimum.y),
            fx_min(self.minimum.z, box1.minimum.z),
        );
        let big = Vec3::new(
            fx_max(self.maximum.x, box1.maximum.x),
            fx_max(self.maximum.y, box1.maximum.y),
            fx_max(self.maximum.z, box1.maximum.z),
        );
        Aabb::new(small, big)
    }
}

/// Merging two boxes does not depend on their order.
pub proof fn lemma_surrounding_box_commutative(a: Aabb, b: Aabb)
    ensures
        a.spec_surrounding(b) == b.spec_surrounding(a),
{
}

/// Merging is associative: folding children's boxes into a parent's box
/// gives the same box however the fold is grouped.
pub proof fn lemma_surrounding_box_associative(a: Aabb, b: Aabb, c: Aabb)
    ensures
        a.spec_surrounding(b.spec_surrounding(c)) == (a.spec_surrounding(b)).spec_surrounding(c),
{
}

/// The merge of two boxes contains both of them.
pub proof fn lemma_surrounding_box_contains(a: Aabb, b: Aabb)
    ensures
        a.spec_surrounding(b).spec_contains_box(a),
        a.spec_surrounding(b).spec_contains_box(b),
{
}

/// Widening the query interval never turns a box crossing into a miss:
/// the slab test is monotone in its upper bound. This is why probing a
/// node's box with the full interval is safe even though its children are
/// probed with tightened ones.
pub proof fn lemma_slab_hit_monotone(bb: Aabb, r: Ray, t_min: i64, lo: i64, hi: i64)
    requires
        lo <= hi,
        bb.spec_hit(r, t_min, lo),
    ensures
        bb.spec_hit(r, t_min, hi),
{
    lemma_slab_axis_monotone(bb.minimum.x, bb.maximum.x, r.origin.x, r.dir.x, t_min, t_min, lo, hi);
    match (
        spec_slab(bb.minimum.x, bb.maximum.x, r.origin.x, r.dir.x, t_min, lo),
        spec_slab(bb.minimum.x, bb.maximum.x, r.origin.x, r.dir.x, t_min, hi),
    ) {
        (Some(sx1), Some(sx2)) => {
            lemma_slab_axis_monotone(
                bb.minimum.y,
                bb.maximum.y,
                r.origin.y,
                r.dir.y,
                sx1.0,
                sx2.0,
                sx1.1,
                sx2.1,
            );
            match (
                spec_slab(bb.minimum.y, bb.maximum.y, r.origin.y, r.dir.y, sx1.0, sx1.1),
                spec_slab(bb.minimum.y, bb.maximum.y, r.origin.y, r.dir.y, sx2.0, sx2.1),
            ) {
                (Some(sy1), Some(sy2)) => {
                    lemma_slab_axis_monotone(
                        bb.minimum.z,
                        bb.maximum.z,
                        r.origin.z,
                        r.dir.z,
                        sy1.0,
                        sy2.0,
                        sy1.1,
                        sy2.1,
                    );
                },
                _ => {},
            }
        },
        _ => {},
    }
}

/// One axis of the monotonicity argument: with the same lower bound and an
/// ordered pair of upper bounds, a surviving narrow interval forces a
/// surviving wide one, ordered the same way.
proof fn lemma_slab_axis_monotone(
    minv: i64,
    maxv: i64,
    o: i64,
    d: i64,
    lo0: i64,
    hi0: i64,
    lo1: i64,
    hi1: i64,
)
    requires
        lo0 == hi0,
        lo1 <= hi1,
    ensures
        match spec_slab(minv, maxv, o, d, lo0, lo1) {
            Some(narrow) => match spec_slab(minv, maxv, o, d, hi0, hi1) {
                Some(wide) => narrow.0 == wide.0 && narrow.1 <= wide.1,
                None => false,
            },
            None => true,
        },
{
}

} // verus!
