//! A sphere whose center interpolates linearly between two positions over a
//! time interval; the box is the union of the boxes at both endpoints.

use vstd::prelude::*;

verus! {

use crate::aabb::Aabb;
use crate::fixed::{
    fx_wf, fxsub, fxmul, fxdiv, fxsqrt, fxmulsub, fx_sub, fx_mul, fx_div, fx_sqrt, fx_mul_sub,
};
use crate::hit::HitRecord;
use crate::ray::Ray;
use crate::vec3::Vec3;

pub struct MovingSphere {
    pub center0: Vec3,
    pub center1: Vec3,
    pub time0: i64,
    pub time1: i64,
    pub radius: i64,
    pub material: usize,
}

impl MovingSphere {
    pub open spec fn wf(self) -> bool {
        self.center0.wf() && self.center1.wf() && fx_wf(self.time0) && fx_wf(self.time1)
            && fx_wf(self.radius) && self.radius != 0 && self.time0 != self.time1
    }

    pub fn new(cen0: Vec3, cen1: Vec3, _time0: i64, _time1: i64, r: i64, m: usize) -> (s:
        MovingSphere)
        ensures
            s == (MovingSphere {
                center0: cen0,
                center1: cen1,
                time0: _time0,
                time1: _time1,
                radius: r,
                material: m,
            }),
    {
        MovingSphere {
            center0: cen0,
            center1: cen1,
            time0: _time0,
            time1: _time1,
            radius: r,
            material: m,
        }
    }

    /// The interpolated center at a given time.
    pub open spec fn spec_center(self, time: i64) -> Vec3 {
        let frac = fxdiv(
            fxsub(time as int, self.time0 as int),
            fxsub(self.time1 as int, self.time0 as int),
        ) as i64;
        self.center0.spec_add(self.center1.spec_sub(self.center0).spec_scale(frac))
    }

    pub fn center(&self, time: i64) -> (res: Vec3)
        requires
            self.wf(),
            fx_wf(time),
        ensures
            res == self.spec_center(time),
            res.wf(),
    {
        let frac = fx_div(fx_sub(time, self.time0), fx_sub(self.time1, self.time0));
        self.center0.add(&self.center1.sub(&self.center0).scale(frac))
    }

    pub open spec fn spec_rec(self, r: Ray, root: i64) -> HitRecord {
        let p = r.spec_at(root);
        let outward = p.spec_sub(self.spec_center(r.tm)).spec_div_scalar(self.radius);
        (HitRecord {
            p,
            normal: outward,
            mat: self.material,
            t: root,
            u: 0,
            v: 0,
            front_face: true,
        }).spec_face_normal(r, outward)
    }

    /// The same quadratic as the static sphere, against the center at the
    /// ray's time.
    pub open spec fn spec_hit(self, r: Ray, t_min: i64, t_max: i64) -> Option<HitRecord> {
        let oc = r.origin.spec_sub(self.spec_center(r.tm));
        let a = r.dir.spec_dot(r.dir);
        let half_b = oc.spec_dot(r.dir);
        let c = fxsub(
            oc.spec_dot(oc) as int,
            fxmul(self.radius as int, self.radius as int),
        ) as i64;
        let disc = fxmulsub(half_b as int, half_b as int, a as int, c as int) as i64;
        if disc < 0 || a == 0 {
            None
        } else {
            let sqrtd = fxsqrt(disc as int) as i64;
            let root1 = fxdiv(fxsub(-half_b as int, sqrtd as int), a as int) as i64;
            if t_min <= root1 && root1 <= t_max {
                Some(self.spec_rec(r, root1))
            } else {
                let root2 = fxdiv(fxsub(sqrtd as int, half_b as int), a as int) as i64;
                if t_min <= root2 && root2 <= t_max {
                    Some(self.spec_rec(r, root2))
                } else {
                    None
                }
            }
        }
    }

    pub fn hit(&self, r: &Ray, t_min: i64, t_max: i64) -> (res: Option<HitRecord>)
        requires
            self.wf(),
            r.wf(),
            fx_wf(t_min),
            fx_wf(t_max),
        ensures
            res == self.spec_hit(*r, t_min, t_max),
            match res {
                Some(rec) => rec.wf() && t_min <= rec.t <= t_max && rec.mat == self.material,
                None => true,
            },
    {
        let cen = self.center(r.time());
        let oc = r.origin.sub(&cen);
        let a = r.dir.dot(&r.dir);
        let half_b = oc.dot(&r.dir);
        let c = fx_sub(oc.dot(&oc), fx_mul(self.radius, self.radius));
        let disc = fx_mul_sub(half_b, half_b, a, c);
        if disc < 0 || a == 0 {
            return None;
        }
        let sqrtd = fx_sqrt(disc);
        let mut root = fx_div(fx_sub(-half_b, sqrtd), a);
        if root < t_min || t_max < root {
            root = fx_div(fx_sub(sqrtd, half_b), a);
            if root < t_min || root > t_max {
                return None;
            }
        }
        let p = r.at(root);
        let outward = p.sub(&cen).div_scalar(self.radius);
        let mut rec = HitRecord {
            p,
            normal: outward,
            mat: self.material,
            t: root,
            u: 0,
            v: 0,
            front_face: true,
        };
        rec.set_face_normal(r, &outward);
        Some(rec)
    }

    /// The union of the boxes at the two endpoint times.
    pub open spec fn spec_bounding_box(self, time0: i64, time1: i64) -> Aabb {
        let rv = Vec3 { x: self.radius, y: self.radius, z: self.radius };
        let c0 = self.spec_center(time0);
        let c1 = self.spec_center(time1);
        let box0 = Aabb { minimum: c0.spec_sub(rv), maximum: c0.spec_add(rv) };
        let box1 = Aabb { minimum: c1.spec_sub(rv), maximum: c1.spec_add(rv) };
        box0.spec_surrounding(box1)
    }

    pub fn bounding_box(&self, time0: i64, time1: i64) -> (res: Aabb)
        requires
            self.wf(),
            fx_wf(time0),
            fx_wf(time1),
        ensures
            res == self.spec_bounding_box(time0, time1),
            res.wf(),
    {
        let rv = Vec3::new(self.radius, self.radius, self.radius);
        let c0 = self.center(time0);
        let c1 = self.center(time1);
        let box0 = Aabb::new(c0.sub(&rv), c0.add(&rv));
        let box1 = Aabb::new(c1.sub(&rv), c1.add(&rv));
        box0.surrounding_box(&box1)
    }
}

/// Like the static sphere, the moving sphere's hit query is a threshold
/// query: the interpolated center depends only on the ray's time, so against
/// any bounds sharing a lower end, the record is fixed, queries whose upper
/// bound still admits it return it unchanged, and tighter bounds return
/// nothing.
pub proof fn lemma_moving_sphere_hit_threshold(
    s: MovingSphere,
    r: Ray,
    t_min: i64,
    b1: i64,
    b2: i64,
)
    requires
        b1 <= b2,
    ensures
        match s.spec_hit(r, t_min, b2) {
            Some(rec) => s.spec_hit(r, t_min, b1) == (if rec.t <= b1 {
                Some(rec)
            } else {
                None::<crate::hit::HitRecord>
            }),
            None => s.spec_hit(r, t_min, b1) is None,
        },
{
    let oc = r.origin.spec_sub(s.spec_center(r.tm));
    let a = r.dir.spec_dot(r.dir);
    let half_b = oc.spec_dot(r.dir);
    let c = fxsub(
        oc.spec_dot(oc) as int,
        fxmul(s.radius as int, s.radius as int),
    ) as i64;
    let disc = fxmulsub(half_b as int, half_b as int, a as int, c as int) as i64;
    if disc < 0 || a == 0 {
    } else {
        Vec3::lemma_length_squared_nonneg(r.dir);
        assert(a > 0);
        let sqrtd = fxsqrt(disc as int) as i64;
        assert(sqrtd >= 0) by {
            assert((disc as int) * (crate::fixed::FX_ONE as int) >= 0) by (nonlinear_arith)
                requires
                    disc >= 0,
            ;
            assert((disc as int) * (crate::fixed::FX_ONE as int) <= (crate::fixed::FX_MAX as int)
                * (crate::fixed::FX_ONE as int)) by (nonlinear_arith)
                requires
                    disc <= crate::fixed::FX_MAX,
            ;
            crate::fixed::lemma_sqrt_floor(disc as int * crate::fixed::FX_ONE as int);
            let rt = crate::fixed::sqrt_floor(disc as int * crate::fixed::FX_ONE as int);
            assert(rt < 0x1_0000_0000) by (nonlinear_arith)
                requires
                    rt >= 0,
                    rt * rt <= (crate::fixed::FX_MAX as int) * (crate::fixed::FX_ONE as int),
            ;
        }
        assert(fxsub(-half_b as int, sqrtd as int) <= fxsub(sqrtd as int, half_b as int));
        crate::fixed::lemma_fxdiv_monotone_num(
            fxsub(-half_b as int, sqrtd as int),
            fxsub(sqrtd as int, half_b as int),
            a as int,
        );
        let root1 = fxdiv(fxsub(-half_b as int, sqrtd as int), a as int) as i64;
        let root2 = fxdiv(fxsub(sqrtd as int, half_b as int), a as int) as i64;
        assert(root1 <= root2);
    }
}

} // verus!
