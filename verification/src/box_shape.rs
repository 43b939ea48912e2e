//! A box: a fixed composite of six axis-aligned rectangles built from two
//! opposite corners; hit tests delegate to the rectangle set.

use vstd::prelude::*;

verus! {

use crate::hit::{Hittable, HittableList};
use crate::rect::{XyRect, XzRect, YzRect};
use crate::vec3::Vec3;

pub struct BoxShape {
    pub box_min: Vec3,
    pub box_max: Vec3,
    pub sides: HittableList,
}

/// The six faces of the box spanned by `p0` and `p1`, in construction order.
pub open spec fn spec_box_sides(p0: Vec3, p1: Vec3, mat: usize) -> Seq<Hittable> {
    seq![
        Hittable::XyRect(XyRect { mp: mat, x0: p0.x, x1: p1.x, y0: p0.y, y1: p1.y, k: p1.z }),
        Hittable::XyRect(XyRect { mp: mat, x0: p0.x, x1: p1.x, y0: p0.y, y1: p1.y, k: p0.z }),
        Hittable::XzRect(XzRect { mp: mat, x0: p0.x, x1: p1.x, z0: p0.z, z1: p1.z, k: p1.y }),
        Hittable::XzRect(XzRect { mp: mat, x0: p0.x, x1: p1.x, z0: p0.z, z1: p1.z, k: p0.y }),
        Hittable::YzRect(YzRect { mp: mat, y0: p0.y, y1: p1.y, z0: p0.z, z1: p1.z, k: p1.x }),
        Hittable::YzRect(YzRect { mp: mat, y0: p0.y, y1: p1.y, z0: p0.z, z1: p1.z, k: p0.x }),
    ]
}

impl BoxShape {
    pub fn new(p0: &Vec3, p1: &Vec3, mat: usize) -> (r: BoxShape)
        ensures
            r.box_min == *p0,
            r.box_max == *p1,
            r.sides.objects@ == spec_box_sides(*p0, *p1, mat),
    {
        let mut sides = HittableList::new();
        sides.add(Hittable::XyRect(XyRect::new(p0.x, p1.x, p0.y, p1.y, p1.z, mat)));
        sides.add(Hittable::XyRect(XyRect::new(p0.x, p1.x, p0.y, p1.y, p0.z, mat)));
        sides.add(Hittable::XzRect(XzRect::new(p0.x, p1.x, p0.z, p1.z, p1.y, mat)));
        sides.add(Hittable::XzRect(XzRect::new(p0.x, p1.x, p0.z, p1.z, p0.y, mat)));
        sides.add(Hittable::YzRect(YzRect::new(p0.y, p1.y, p0.z, p1.z, p1.x, mat)));
        sides.add(Hittable::YzRect(YzRect::new(p0.y, p1.y, p0.z, p1.z, p0.x, mat)));
        proof {
            assert(sides.objects@ =~= spec_box_sides(*p0, *p1, mat));
        }
        BoxShape { box_min: *p0, box_max: *p1, sides }
    }
}

} // verus!
