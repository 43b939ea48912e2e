//! Axis-aligned rectangles in the three coordinate planes.
//!
//! Each one solves for the ray parameter at its plane, rejects rays outside
//! the parameter range or the rectangle's extent, and reports normalized
//! in-plane coordinates. A ray parallel to the plane produces no hit instead
//! of a numeric fault. Bounding boxes are padded along the flat axis so they
//! stay valid for merging.

use vstd::prelude::*;

verus! {

use crate::aabb::Aabb;
use crate::fixed::{fx_wf, fxsub, fxadd, fxmul, fxdiv, fx_sub, fx_add, fx_mul, fx_div, FX_ONE};
use crate::hit::HitRecord;
use crate::ray::Ray;
use crate::vec3::Vec3;

/// Padding applied on the zero-thickness axis of a rectangle's box.
pub const RECT_PAD_FX: i64 = 7;

pub struct XyRect {
    pub mp: usize,
    pub x0: i64,
    pub x1: i64,
    pub y0: i64,
    pub y1: i64,
    pub k: i64,
}

pub struct XzRect {
    pub mp: usize,
    pub x0: i64,
    pub x1: i64,
    pub z0: i64,
    pub z1: i64,
    pub k: i64,
}

pub struct YzRect {
    pub mp: usize,
    pub y0: i64,
    pub y1: i64,
    pub z0: i64,
    pub z1: i64,
    pub k: i64,
}

/// Shared plane-intersection logic, phrased over one plane: the fixed axis
/// at offset `k` crossed by a ray with origin component `oz` and direction
/// component `dz`; `(ox, dx)` and `(oy, dy)` are the in-plane components.
pub open spec fn spec_rect_hit(
    a0: i64,
    a1: i64,
    b0: i64,
    b1: i64,
    k: i64,
    ox: i64,
    dx: i64,
    oy: i64,
    dy: i64,
    oz: i64,
    dz: i64,
    t_min: i64,
    t_max: i64,
) -> Option<(i64, i64, i64)> {
    if dz == 0 {
        None
    } else {
        let t = fxdiv(fxsub(k as int, oz as int), dz as int) as i64;
        if t < t_min || t > t_max {
            None
        } else {
            let x = fxadd(ox as int, fxmul(t as int, dx as int)) as i64;
            let y = fxadd(oy as int, fxmul(t as int, dy as int)) as i64;
            if x < a0 || x > a1 || y < b0 || y > b1 {
                None
            } else {
                let u = fxdiv(fxsub(x as int, a0 as int), fxsub(a1 as int, a0 as int)) as i64;
                let v = fxdiv(fxsub(y as int, b0 as int), fxsub(b1 as int, b0 as int)) as i64;
                Some((t, u, v))
            }
        }
    }
}

/// Executable side of `spec_rect_hit`.
pub fn rect_hit(
    a0: i64,
    a1: i64,
    b0: i64,
    b1: i64,
    k: i64,
    ox: i64,
    dx: i64,
    oy: i64,
    dy: i64,
    oz: i64,
    dz: i64,
    t_min: i64,
    t_max: i64,
) -> (res: Option<(i64, i64, i64)>)
    requires
        fx_wf(a0),
        fx_wf(a1),
        fx_wf(b0),
        fx_wf(b1),
        fx_wf(k),
        fx_wf(ox),
        fx_wf(dx),
        fx_wf(oy),
        fx_wf(dy),
        fx_wf(oz),
        fx_wf(dz),
        fx_wf(t_min),
        fx_wf(t_max),
        a0 < a1,
        b0 < b1,
    ensures
        res == spec_rect_hit(a0, a1, b0, b1, k, ox, dx, oy, dy, oz, dz, t_min, t_max),
        match res {
            Some(tuv) => fx_wf(tuv.0) && fx_wf(tuv.1) && fx_wf(tuv.2) && t_min <= tuv.0 <= t_max,
            None => true,
        },
{
    if dz == 0 {
        return None;
    }
    let t = fx_div(fx_sub(k, oz), dz);
    if t < t_min || t > t_max {
        return None;
    }
    let x = fx_add(ox, fx_mul(t, dx));
    let y = fx_add(oy, fx_mul(t, dy));
    if x < a0 || x > a1 || y < b0 || y > b1 {
        return None;
    }
    let u = fx_div(fx_sub(x, a0), fx_sub(a1, a0));
    let v = fx_div(fx_sub(y, b0), fx_sub(b1, b0));
    Some((t, u, v))
}

impl XyRect {
    pub open spec fn wf(self) -> bool {
        fx_wf(self.x0) && fx_wf(self.x1) && fx_wf(self.y0) && fx_wf(self.y1) && fx_wf(self.k)
            && self.x0 < self.x1 && self.y0 < self.y1
    }

    pub fn new(x0: i64, x1: i64, y0: i64, y1: i64, k: i64, mat: usize) -> (r: XyRect)
        ensures
            r == (XyRect { mp: mat, x0, x1, y0, y1, k }),
    {
        XyRect { mp: mat, x0, x1, y0, y1, k }
    }

    pub open spec fn spec_hit(self, r: Ray, t_min: i64, t_max: i64) -> Option<HitRecord> {
        match spec_rect_hit(
            self.x0,
            self.x1,
            self.y0,
            self.y1,
            self.k,
            r.origin.x,
            r.dir.x,
            r.origin.y,
            r.dir.y,
            r.origin.z,
            r.dir.z,
            t_min,
            t_max,
        ) {
            None => None,
            Some(tuv) => Some(
                (HitRecord {
                    p: r.spec_at(tuv.0),
                    normal: Vec3 { x: 0, y: 0, z: FX_ONE },
                    mat: self.mp,
                    t: tuv.0,
                    u: tuv.1,
                    v: tuv.2,
                    front_face: true,
                }).spec_face_normal(r, Vec3 { x: 0, y: 0, z: FX_ONE }),
            ),
        }
    }

    pub fn hit(&self, r: &Ray, t_min: i64, t_max: i64) -> (res: Option<HitRecord>)
        requires
            self.wf(),
            r.wf(),
            fx_wf(t_min),
            fx_wf(t_max),
        ensures
            res == self.spec_hit(*r, t_min, t_max),
            match res {
                Some(rec) => rec.wf() && t_min <= rec.t <= t_max && rec.mat == self.mp,
                None => true,
            },
    {
        let tuv = rect_hit(
            self.x0,
            self.x1,
            self.y0,
            self.y1,
            self.k,
            r.origin.x,
            r.dir.x,
            r.origin.y,
            r.dir.y,
            r.origin.z,
            r.dir.z,
            t_min,
            t_max,
        );
        match tuv {
            None => None,
            Some((t, u, v)) => {
                let outward = Vec3::new(0, 0, FX_ONE);
                let mut rec = HitRecord {
                    p: r.at(t),
                    normal: outward,
                    mat: self.mp,
                    t,
                    u,
                    v,
                    front_face: true,
                };
                rec.set_face_normal(r, &outward);
                Some(rec)
            },
        }
    }

    pub open spec fn spec_bounding_box(self) -> Aabb {
        Aabb {
            minimum: Vec3 { x: self.x0, y: self.y0, z: fxsub(self.k as int, RECT_PAD_FX as int) as i64 },
            maximum: Vec3 { x: self.x1, y: self.y1, z: fxadd(self.k as int, RECT_PAD_FX as int) as i64 },
        }
    }

    pub fn bounding_box(&self) -> (res: Aabb)
        requires
            self.wf(),
        ensures
            res == self.spec_bounding_box(),
            res.wf(),
    {
        Aabb::new(
            Vec3::new(self.x0, self.y0, fx_sub(self.k, RECT_PAD_FX)),
            Vec3::new(self.x1, self.y1, fx_add(self.k, RECT_PAD_FX)),
        )
    }
}

impl XzRect {
    pub open spec fn wf(self) -> bool {
        fx_wf(self.x0) && fx_wf(self.x1) && fx_wf(self.z0) && fx_wf(self.z1) && fx_wf(self.k)
            && self.x0 < self.x1 && self.z0 < self.z1
    }

    pub fn new(x0: i64, x1: i64, z0: i64, z1: i64, k: i64, mat: usize) -> (r: XzRect)
        ensures
            r == (XzRect { mp: mat, x0, x1, z0, z1, k }),
    {
        XzRect { mp: mat, x0, x1, z0, z1, k }
    }

    pub open spec fn spec_hit(self, r: Ray, t_min: i64, t_max: i64) -> Option<HitRecord> {
        match spec_rect_hit(
            self.x0,
            self.x1,
            self.z0,
            self.z1,
            self.k,
            r.origin.x,
            r.dir.x,
            r.origin.z,
            r.dir.z,
            r.origin.y,
            r.dir.y,
            t_min,
            t_max,
        ) {
            None => None,
            Some(tuv) => Some(
                (HitRecord {
                    p: r.spec_at(tuv.0),
                    normal: Vec3 { x: 0, y: FX_ONE, z: 0 },
                    mat: self.mp,
                    t: tuv.0,
                    u: tuv.1,
                    v: tuv.2,
                    front_face: true,
                }).spec_face_normal(r, Vec3 { x: 0, y: FX_ONE, z: 0 }),
            ),
        }
    }

    pub fn hit(&self, r: &Ray, t_min: i64, t_max: i64) -> (res: Option<HitRecord>)
        requires
            self.wf(),
            r.wf(),
            fx_wf(t_min),
            fx_wf(t_max),
        ensures
            res == self.spec_hit(*r, t_min, t_max),
            match res {
                Some(rec) => rec.wf() && t_min <= rec.t <= t_max && rec.mat == self.mp,
                None => true,
            },
    {
        let tuv = rect_hit(
            self.x0,
            self.x1,
            self.z0,
            self.z1,
            self.k,
            r.origin.x,
            r.dir.x,
            r.origin.z,
            r.dir.z,
            r.origin.y,
            r.dir.y,
            t_min,
            t_max,
        );
        match tuv {
            None => None,
            Some((t, u, v)) => {
                let outward = Vec3::new(0, FX_ONE, 0);
                let mut rec = HitRecord {
                    p: r.at(t),
                    normal: outward,
                    mat: self.mp,
                    t,
                    u,
                    v,
                    front_face: true,
                };
                rec.set_face_normal(r, &outward);
                Some(rec)
            },
        }
    }

    pub open spec fn spec_bounding_box(self) -> Aabb {
        Aabb {
            minimum: Vec3 { x: self.x0, y: fxsub(self.k as int, RECT_PAD_FX as int) as i64, z: self.z0 },
            maximum: Vec3 { x: self.x1, y: fxadd(self.k as int, RECT_PAD_FX as int) as i64, z: self.z1 },
        }
    }

    pub fn bounding_box(&self) -> (res: Aabb)
        requires
            self.wf(),
        ensures
            res == self.spec_bounding_box(),
            res.wf(),
    {
        Aabb::new(
            Vec3::new(self.x0, fx_sub(self.k, RECT_PAD_FX), self.z0),
            Vec3::new(self.x1, fx_add(self.k, RECT_PAD_FX), self.z1),
        )
    }
}

impl YzRect {
    pub open spec fn wf(self) -> bool {
        fx_wf(self.y0) && fx_wf(self.y1) && fx_wf(self.z0) && fx_wf(self.z1) && fx_wf(self.k)
            && self.y0 < self.y1 && self.z0 < self.z1
    }

    pub fn new(y0: i64, y1: i64, z0: i64, z1: i64, k: i64, mat: usize) -> (r: YzRect)
        ensures
            r == (YzRect { mp: mat, y0, y1, z0, z1, k }),
    {
        YzRect { mp: mat, y0, y1, z0, z1, k }
    }

    pub open spec fn spec_hit(self, r: Ray, t_min: i64, t_max: i64) -> Option<HitRecord> {
        match spec_rect_hit(
            self.y0,
            self.y1,
            self.z0,
            self.z1,
            self.k,
            r.origin.y,
            r.dir.y,
            r.origin.z,
            r.dir.z,
            r.origin.x,
            r.dir.x,
            t_min,
            t_max,
        ) {
            None => None,
            Some(tuv) => Some(
                (HitRecord {
                    p: r.spec_at(tuv.0),
                    normal: Vec3 { x: FX_ONE, y: 0, z: 0 },
                    mat: self.mp,
                    t: tuv.0,
                    u: tuv.1,
                    v: tuv.2,
                    front_face: true,
                }).spec_face_normal(r, Vec3 { x: FX_ONE, y: 0, z: 0 }),
            ),
        }
    }

    pub fn hit(&self, r: &Ray, t_min: i64, t_max: i64) -> (res: Option<HitRecord>)
        requires
            self.wf(),
            r.wf(),
            fx_wf(t_min),
            fx_wf(t_max),
        ensures
            res == self.spec_hit(*r, t_min, t_max),
            match res {
                Some(rec) => rec.wf() && t_min <= rec.t <= t_max && rec.mat == self.mp,
                None => true,
            },
    {
        let tuv = rect_hit(
            self.y0,
            self.y1,
            self.z0,
            self.z1,
            self.k,
            r.origin.y,
            r.dir.y,
            r.origin.z,
            r.dir.z,
            r.origin.x,
            r.dir.x,
            t_min,
            t_max,
        );
        match tuv {
            None => None,
            Some((t, u, v)) => {
                let outward = Vec3::new(FX_ONE, 0, 0);
                let mut rec = HitRecord {
                    p: r.at(t),
                    normal: outward,
                    mat: self.mp,
                    t,
                    u,
                    v,
                    front_face: true,
                };
                rec.set_face_normal(r, &outward);
                Some(rec)
            },
        }
    }

    pub open spec fn spec_bounding_box(self) -> Aabb {
        Aabb {
            minimum: Vec3 { x: fxsub(self.k as int, RECT_PAD_FX as int) as i64, y: self.y0, z: self.z0 },
            maximum: Vec3 { x: fxadd(self.k as int, RECT_PAD_FX as int) as i64, y: self.y1, z: self.z1 },
        }
    }

    pub fn bounding_box(&self) -> (res: Aabb)
        requires
            self.wf(),
        ensures
            res == self.spec_bounding_box(),
            res.wf(),
    {
        Aabb::new(
            Vec3::new(fx_sub(self.k, RECT_PAD_FX), self.y0, self.z0),
            Vec3::new(fx_add(self.k, RECT_PAD_FX), self.y1, self.z1),
        )
    }
}

/// A rectangle's plane crossing is a threshold query: the crossing
/// parameter does not depend on the query interval, so a tighter upper
/// bound returns the identical crossing while it still fits and nothing
/// once it does not.
pub proof fn lemma_rect_hit_threshold(
    a0: i64,
    a1: i64,
    b0: i64,
    b1: i64,
    k: i64,
    ox: i64,
    dx: i64,
    oy: i64,
    dy: i64,
    oz: i64,
    dz: i64,
    t_min: i64,
    lo: i64,
    hi: i64,
)
    requires
        lo <= hi,
    ensures
        match spec_rect_hit(a0, a1, b0, b1, k, ox, dx, oy, dy, oz, dz, t_min, hi) {
            Some(tuv) => spec_rect_hit(a0, a1, b0, b1, k, ox, dx, oy, dy, oz, dz, t_min, lo) == (
            if tuv.0 <= lo {
                Some(tuv)
            } else {
                None::<(i64, i64, i64)>
            }),
            None => spec_rect_hit(a0, a1, b0, b1, k, ox, dx, oy, dy, oz, dz, t_min, lo) is None,
        },
{
}

} // verus!
