//! The sphere primitive: closed-form quadratic intersection with spherical
//! surface coordinates.

use vstd::prelude::*;

verus! {

use crate::fixed::{
    fx_wf, fxsub, fxadd, fxmul, fxdiv, fxsqrt, fxmulsub, fx_sub, fx_add, fx_mul, fx_div, fx_sqrt,
    fx_mul_sub, FX_ONE, FX_MAX,
};
use crate::hit::HitRecord;
use crate::ray::Ray;
use crate::trig::{spec_acos, spec_atan2, fx_acos, fx_atan2, PI_FX, TWO_PI_FX};
use crate::vec3::Vec3;

pub struct Sphere {
    pub center: Vec3,
    pub radius: i64,
    pub material: usize,
}

/// Spherical surface coordinates of a point on the unit sphere:
/// `u` from the azimuth, `v` from the polar angle.
pub open spec fn spec_sphere_uv(p: Vec3) -> (i64, i64) {
    let theta = spec_acos(-p.y as int) as i64;
    let phi = fxadd(spec_atan2(-p.z as int, p.x as int), PI_FX as int) as i64;
    (fxdiv(phi as int, TWO_PI_FX as int) as i64, fxdiv(theta as int, PI_FX as int) as i64)
}

/// Executable surface coordinates, mirroring `spec_sphere_uv`.
pub fn sphere_uv(p: &Vec3) -> (r: (i64, i64))
    requires
        p.wf(),
    ensures
        r == spec_sphere_uv(*p),
        fx_wf(r.0),
        fx_wf(r.1),
{
    let theta = fx_acos(-p.y);
    let phi = fx_add(fx_atan2(-p.z, p.x), PI_FX);
    (fx_div(phi, TWO_PI_FX), fx_div(theta, PI_FX))
}

impl Sphere {
    pub open spec fn wf(self) -> bool {
        self.center.wf() && fx_wf(self.radius) && self.radius != 0
    }

    pub fn new(cen: Vec3, r: i64, m: usize) -> (s: Sphere)
        ensures
            s.center == cen,
            s.radius == r,
            s.material == m,
    {
        Sphere { center: cen, radius: r, material: m }
    }

    /// The record returned for a root accepted by the range test.
    pub open spec fn spec_rec(self, r: Ray, root: i64) -> HitRecord {
        let p = r.spec_at(root);
        let outward = p.spec_sub(self.center).spec_div_scalar(self.radius);
        let uv = spec_sphere_uv(outward);
        (HitRecord {
            p,
            normal: outward,
            mat: self.material,
            t: root,
            u: uv.0,
            v: uv.1,
            front_face: true,
        }).spec_face_normal(r, outward)
    }

    /// Solve `|at(t) - center|^2 = radius^2`, preferring the near root and
    /// falling back to the far root within `[t_min, t_max]`.
    pub open spec fn spec_hit(self, r: Ray, t_min: i64, t_max: i64) -> Option<HitRecord> {
        let oc = r.origin.spec_sub(self.center);
        let a = r.dir.spec_dot(r.dir);
        let half_b = oc.spec_dot(r.dir);
        let c = fxsub(
            oc.spec_dot(oc) as int,
            fxmul(self.radius as int, self.radius as int),
        ) as i64;
        let disc = fxmulsub(half_b as int, half_b as int, a as int, c as int) as i64;
        if disc < 0 || a == 0 {
            None
        } else {
            let sqrtd = fxsqrt(disc as int) as i64;
            let root1 = fxdiv(fxsub(-half_b as int, sqrtd as int), a as int) as i64;
            if t_min <= root1 && root1 <= t_max {
                Some(self.spec_rec(r, root1))
            } else {
                let root2 = fxdiv(fxsub(sqrtd as int, half_b as int), a as int) as i64;
                if t_min <= root2 && root2 <= t_max {
                    Some(self.spec_rec(r, root2))
                } else {
                    None
                }
            }
        }
    }

    pub fn hit(&self, r: &Ray, t_min: i64, t_max: i64) -> (res: Option<HitRecord>)
        requires
            self.wf(),
            r.wf(),
            fx_wf(t_min),
            fx_wf(t_max),
        ensures
            res == self.spec_hit(*r, t_min, t_max),
            match res {
                Some(rec) => rec.wf() && t_min <= rec.t <= t_max && rec.mat == self.material,
                None => true,
            },
    {
        let oc = r.origin.sub(&self.center);
        let a = r.dir.dot(&r.dir);
        let half_b = oc.dot(&r.dir);
        let c = fx_sub(oc.dot(&oc), fx_mul(self.radius, self.radius));
        let disc = fx_mul_sub(half_b, half_b, a, c);
        if disc < 0 || a == 0 {
            return None;
        }
        let sqrtd = fx_sqrt(disc);
        let mut root = fx_div(fx_sub(-half_b, sqrtd), a);
        if root < t_min || t_max < root {
            root = fx_div(fx_sub(sqrtd, half_b), a);
            if root < t_min || root > t_max {
                return None;
            }
        }
        let p = r.at(root);
        let outward = p.sub(&self.center).div_scalar(self.radius);
        let uv = sphere_uv(&outward);
        let mut rec = HitRecord {
            p,
            normal: outward,
            mat: self.material,
            t: root,
            u: uv.0,
            v: uv.1,
            front_face: true,
        };
        rec.set_face_normal(r, &outward);
        Some(rec)
    }

    /// The box spanning `center - (r,r,r)` to `center + (r,r,r)`.
    pub open spec fn spec_bounding_box(self) -> crate::aabb::Aabb {
        let rv = Vec3 { x: self.radius, y: self.radius, z: self.radius };
        crate::aabb::Aabb { minimum: self.center.spec_sub(rv), maximum: self.center.spec_add(rv) }
    }

    pub fn bounding_box(&self) -> (res: crate::aabb::Aabb)
        requires
            self.wf(),
        ensures
            res == self.spec_bounding_box(),
            res.wf(),
    {
        let rv = Vec3::new(self.radius, self.radius, self.radius);
        crate::aabb::Aabb::new(self.center.sub(&rv), self.center.add(&rv))
    }
}

/// A sphere watched from outside, along the ray aimed straight at its
/// center: the hit parameter times the center distance is exactly the
/// distance minus the radius. Stated for whole-unit distances and radii
/// whose ratio is exactly representable, so every fixed-point step is exact.
pub proof fn lemma_sphere_aimed_hit(o: Vec3, dd: i64, rr: i64, k: i64, m: usize)
    requires
        o.wf(),
        -1000 * FX_ONE <= o.x <= 1000 * FX_ONE,
        -1000 * FX_ONE <= o.y <= 1000 * FX_ONE,
        -1000 * FX_ONE <= o.z <= 1000 * FX_ONE,
        1 <= rr < dd <= 180,
        0 < k < FX_ONE,
        (rr as int) * (FX_ONE as int) == (dd as int) * (k as int),
    ensures
        ({
            let center = Vec3 {
                x: (o.x + dd * FX_ONE) as i64,
                y: o.y,
                z: o.z,
            };
            let s = Sphere { center, radius: (rr * FX_ONE) as i64, material: m };
            let r = Ray { origin: o, dir: center.spec_sub(o), tm: 0 };
            match s.spec_hit(r, 0, crate::fixed::FX_MAX) {
                Some(rec) => (rec.t as int) * (dd as int) == ((dd - rr) as int) * (FX_ONE as int),
                None => false,
            }
        }),
{
    let s_ = FX_ONE as int;
    let ddi = dd as int;
    let rri = rr as int;
    let ki = k as int;
    let center = Vec3 { x: (o.x + dd * FX_ONE) as i64, y: o.y, z: o.z };
    let sp = Sphere { center, radius: (rr * FX_ONE) as i64, material: m };
    let r = Ray { origin: o, dir: center.spec_sub(o), tm: 0 };
    assert(r.dir.x == dd * FX_ONE && r.dir.y == 0 && r.dir.z == 0);
    let oc = r.origin.spec_sub(sp.center);
    assert(oc.x == -(dd * FX_ONE) && oc.y == 0 && oc.z == 0);
    // The quadratic's coefficients, each an exact multiple of the scale.
    assert((ddi * s_) * (ddi * s_) == (ddi * ddi * s_) * s_) by (nonlinear_arith);
    assert(0 <= ddi * ddi * s_ <= FX_MAX as int) by (nonlinear_arith)
        requires
            1 <= ddi <= 180,
            s_ == FX_ONE as int,
    ;
    crate::fixed::lemma_sat_fdiv_exact((ddi * s_) * (ddi * s_), s_, ddi * ddi * s_);
    crate::fixed::lemma_fxmul_zero(0);
    let a = r.dir.spec_dot(r.dir);
    assert(a == (ddi * ddi * s_) as i64) by {
        assert(fxmul(r.dir.x as int, r.dir.x as int) == ddi * ddi * s_);
        assert(fxadd(fxadd(ddi * ddi * s_, 0), 0) == ddi * ddi * s_);
    }
    assert((-(ddi * s_)) * (ddi * s_) == (-(ddi * ddi * s_)) * s_) by (nonlinear_arith);
    crate::fixed::lemma_sat_fdiv_exact((-(ddi * s_)) * (ddi * s_), s_, -(ddi * ddi * s_));
    let half_b = oc.spec_dot(r.dir);
    assert(half_b == (-(ddi * ddi * s_)) as i64) by {
        assert(fxmul(oc.x as int, r.dir.x as int) == -(ddi * ddi * s_));
        assert(fxadd(fxadd(-(ddi * ddi * s_), 0), 0) == -(ddi * ddi * s_));
    }
    assert((-(ddi * s_)) * (-(ddi * s_)) == (ddi * ddi * s_) * s_) by (nonlinear_arith);
    crate::fixed::lemma_sat_fdiv_exact((-(ddi * s_)) * (-(ddi * s_)), s_, ddi * ddi * s_);
    assert(oc.spec_dot(oc) == (ddi * ddi * s_) as i64);
    assert((rri * s_) * (rri * s_) == (rri * rri * s_) * s_) by (nonlinear_arith);
    assert(0 <= rri * rri * s_ <= FX_MAX as int) by (nonlinear_arith)
        requires
            1 <= rri <= 180,
            s_ == FX_ONE as int,
    ;
    crate::fixed::lemma_sat_fdiv_exact((rri * s_) * (rri * s_), s_, rri * rri * s_);
    let cc = fxsub(
        oc.spec_dot(oc) as int,
        fxmul(sp.radius as int, sp.radius as int),
    ) as i64;
    assert(cc == ((ddi * ddi - rri * rri) * s_) as i64) by {
        assert(ddi * ddi * s_ - rri * rri * s_ == (ddi * ddi - rri * rri) * s_)
            by (nonlinear_arith);
        assert(0 <= (ddi * ddi - rri * rri) * s_ <= FX_MAX as int) by (nonlinear_arith)
            requires
                1 <= rri < ddi <= 180,
                s_ == FX_ONE as int,
        ;
    }
    // The discriminant is the perfect square of (distance * radius * scale).
    let disc = fxmulsub(half_b as int, half_b as int, a as int, cc as int) as i64;
    assert((-(ddi * ddi * s_)) * (-(ddi * ddi * s_)) - (ddi * ddi * s_) * ((ddi * ddi - rri * rri)
        * s_) == (ddi * ddi * rri * rri * s_) * s_) by (nonlinear_arith);
    assert(0 <= ddi * ddi * rri * rri * s_ <= FX_MAX as int) by (nonlinear_arith)
        requires
            1 <= rri < ddi <= 180,
            s_ == FX_ONE as int,
    ;
    crate::fixed::lemma_sat_fdiv_exact(
        (-(ddi * ddi * s_)) * (-(ddi * ddi * s_)) - (ddi * ddi * s_) * ((ddi * ddi - rri * rri)
            * s_),
        s_,
        ddi * ddi * rri * rri * s_,
    );
    assert(disc == (ddi * ddi * rri * rri * s_) as i64);
    assert(disc >= 0);
    assert(a != 0) by (nonlinear_arith)
        requires
            1 <= ddi <= 180,
            a == ddi * ddi * s_,
            s_ == FX_ONE as int,
    ;
    let sqrtd = fxsqrt(disc as int) as i64;
    assert(sqrtd == (ddi * rri * s_) as i64) by {
        assert((ddi * rri * s_) * (ddi * rri * s_) == (ddi * ddi * rri * rri * s_) * s_)
            by (nonlinear_arith);
        assert(ddi * rri * s_ >= 0) by (nonlinear_arith)
            requires
                1 <= rri < ddi,
                s_ > 0,
        ;
        crate::fixed::lemma_sqrt_square(ddi * rri * s_);
    }
    // The near root: exactly one minus radius over distance, in scale units.
    let num = fxsub(-half_b as int, sqrtd as int) as i64;
    assert(num == (ddi * (ddi - rri) * s_) as i64) by {
        assert(ddi * ddi * s_ - ddi * rri * s_ == ddi * (ddi - rri) * s_) by (nonlinear_arith);
        assert(0 <= ddi * (ddi - rri) * s_ <= FX_MAX as int) by (nonlinear_arith)
            requires
                1 <= rri < ddi <= 180,
                s_ == FX_ONE as int,
        ;
    }
    assert(ddi * ddi * s_ > 0) by (nonlinear_arith)
        requires
            1 <= ddi,
            s_ > 0,
    ;
    assert((ddi * (ddi - rri) * s_) * s_ == (s_ - ki) * (ddi * ddi * s_)) by (nonlinear_arith)
        requires
            rri * s_ == ddi * ki,
    ;
    crate::fixed::lemma_sat_fdiv_exact(
        (ddi * (ddi - rri) * s_) * s_,
        ddi * ddi * s_,
        s_ - ki,
    );
    assert(0 <= ddi * (ddi - rri) * s_ <= FX_MAX as int) by (nonlinear_arith)
        requires
            1 <= rri < ddi <= 180,
            s_ == FX_ONE as int,
    ;
    assert(num as int == ddi * (ddi - rri) * s_);
    let root1 = fxdiv(num as int, a as int) as i64;
    assert((num as int) * s_ == (ddi * (ddi - rri) * s_) * s_);
    assert(root1 == (s_ - ki) as i64);
    assert(0 <= root1 <= crate::fixed::FX_MAX);
    assert(sp.spec_hit(r, 0, crate::fixed::FX_MAX) == Some(sp.spec_rec(r, root1)));
    assert((sp.spec_rec(r, root1)).t == root1);
    assert((s_ - ki) * ddi == s_ * ddi - ki * ddi) by (nonlinear_arith);
    assert(ki * ddi == rri * s_) by (nonlinear_arith)
        requires
            rri * s_ == ddi * ki,
    ;
    assert((dd - rr) as int == ddi - rri);
    assert((ddi - rri) * s_ == ddi * s_ - rri * s_) by (nonlinear_arith);
    assert(s_ * ddi == ddi * s_) by (nonlinear_arith);
    assert((root1 as int) * ddi == (s_ - ki) * ddi);
}

/// The sphere's nearest-hit query is a threshold query: against any bounds
/// sharing a lower end, the record is fixed, queries whose upper bound still
/// admits it return it unchanged, and tighter bounds return nothing. This is
/// what makes probing with a tightened interval (as the hierarchy does)
/// equivalent to keeping the running closest hit.
pub proof fn lemma_sphere_hit_threshold(s: Sphere, r: Ray, t_min: i64, b1: i64, b2: i64)
    requires
        b1 <= b2,
    ensures
        match s.spec_hit(r, t_min, b2) {
            Some(rec) => s.spec_hit(r, t_min, b1) == (if rec.t <= b1 {
                Some(rec)
            } else {
                None::<HitRecord>
            }),
            None => s.spec_hit(r, t_min, b1) is None,
        },
{
    let oc = r.origin.spec_sub(s.center);
    let a = r.dir.spec_dot(r.dir);
    let half_b = oc.spec_dot(r.dir);
    let c = fxsub(
        oc.spec_dot(oc) as int,
        fxmul(s.radius as int, s.radius as int),
    ) as i64;
    let disc = fxmulsub(half_b as int, half_b as int, a as int, c as int) as i64;
    if disc < 0 || a == 0 {
    } else {
        Vec3::lemma_length_squared_nonneg(r.dir);
        assert(a > 0);
        let sqrtd = fxsqrt(disc as int) as i64;
        assert(sqrtd >= 0) by {
            assert((disc as int) * (FX_ONE as int) >= 0) by (nonlinear_arith)
                requires
                    disc >= 0,
            ;
            assert((disc as int) * (FX_ONE as int) <= (FX_MAX as int) * (FX_ONE as int))
                by (nonlinear_arith)
                requires
                    disc <= FX_MAX,
            ;
            crate::fixed::lemma_sqrt_floor(disc as int * FX_ONE as int);
            let rt = crate::fixed::sqrt_floor(disc as int * FX_ONE as int);
            assert(rt < 0x1_0000_0000) by (nonlinear_arith)
                requires
                    rt >= 0,
                    rt * rt <= (FX_MAX as int) * (FX_ONE as int),
            ;
        }
        assert(fxsub(-half_b as int, sqrtd as int) <= fxsub(sqrtd as int, half_b as int));
        crate::fixed::lemma_fxdiv_monotone_num(
            fxsub(-half_b as int, sqrtd as int),
            fxsub(sqrtd as int, half_b as int),
            a as int,
        );
        let root1 = fxdiv(fxsub(-half_b as int, sqrtd as int), a as int) as i64;
        let root2 = fxdiv(fxsub(sqrtd as int, half_b as int), a as int) as i64;
        assert(root1 <= root2);
    }
}

} // verus!
