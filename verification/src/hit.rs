//! The intersection protocol: hit records, the closed sum type of every
//! intersectable, the linear scene aggregate, and the dispatching hit and
//! bounding-box queries.
//!
//! Every deterministic intersectable has an exact spec mirror (`hit_spec`);
//! the volumetric medium draws from the random source, so its contract
//! states what holds of every outcome instead.

use vstd::prelude::*;

verus! {

use crate::aabb::Aabb;
use crate::box_shape::BoxShape;
use crate::bvh::BvhNode;
use crate::constant_medium::ConstantMedium;
use crate::fixed::{
    fx_wf, fxadd, fxsub, fxmul, fxdiv, fxmin, fxmax, fx_add, fx_sub, fx_mul, fx_div, fx_min,
    fx_max, lemma_fxdiv_monotone_num, lemma_fxdiv_fxmul_le, lemma_fxmul_nonneg, FX_MAX, FX_ONE,
};
use crate::moving_sphere::MovingSphere;
use crate::ray::Ray;
use crate::rect::{XyRect, XzRect, YzRect};
use crate::rng::{rng_step, rng_unit, Rng};
use crate::rotate::{RotateY, spec_rotate_remap, spec_rot_local, rot_local, rotate_remap};
use crate::sphere::Sphere;
use crate::translate::{Translate, spec_translate_remap, translate_remap};
use crate::trig::{fx_ln_unit, spec_ln_unit};
use crate::vec3::Vec3;

/// The offset past an entry hit from which a medium looks for its exit hit.
pub const MEDIUM_STEP_FX: i64 = 7;

#[derive(Clone, Copy, PartialEq, Eq, Structural, Debug)]
pub struct HitRecord {
    pub p: Vec3,
    pub normal: Vec3,
    pub mat: usize,
    pub t: i64,
    pub u: i64,
    pub v: i64,
    pub front_face: bool,
}

impl HitRecord {
    pub open spec fn wf(self) -> bool {
        self.p.wf() && self.normal.wf() && fx_wf(self.t) && fx_wf(self.u) && fx_wf(self.v)
    }

    /// Store the outward normal oriented against the ray, and remember which
    /// side was struck.
    pub open spec fn spec_face_normal(self, r: Ray, outward_normal: Vec3) -> HitRecord {
        let ff = r.dir.spec_dot(outward_normal) < 0;
        HitRecord {
            front_face: ff,
            normal: if ff {
                outward_normal
            } else {
                outward_normal.spec_neg()
            },
            ..self
        }
    }

    pub fn set_face_normal(&mut self, r: &Ray, outward_normal: &Vec3)
        requires
            r.wf(),
            outward_normal.wf(),
        ensures
            *final(self) == old(self).spec_face_normal(*r, *outward_normal),
    {
        let ff = r.dir.dot(outward_normal) < 0;
        self.front_face = ff;
        self.normal = if ff {
            *outward_normal
        } else {
            outward_normal.neg()
        };
    }
}

/// Every intersectable the renderer knows, as one closed sum type.
pub enum Hittable {
    Sphere(Sphere),
    MovingSphere(MovingSphere),
    XyRect(XyRect),
    XzRect(XzRect),
    YzRect(YzRect),
    BoxShape(BoxShape),
    Translate(Translate),
    RotateY(RotateY),
    ConstantMedium(ConstantMedium),
    List(HittableList),
    Bvh(BvhNode),
}

/// An unordered collection of intersectables queried linearly.
pub struct HittableList {
    pub objects: Vec<Hittable>,
}

impl HittableList {
    pub fn new() -> (r: HittableList)
        ensures
            r.objects@.len() == 0,
    {
        HittableList { objects: Vec::new() }
    }

    pub fn add(&mut self, object: Hittable)
        ensures
            final(self).objects@ == old(self).objects@.push(object),
    {
        self.objects.push(object);
    }

    pub fn clear(&mut self)
        ensures
            final(self).objects@.len() == 0,
    {
        self.objects.clear();
    }
}

impl Hittable {
    /// Structural well-formedness: coordinates in range, radii and extents
    /// nonzero, densities negative after inversion.
    pub open spec fn wf(self) -> bool
        decreases self, 0int, 1int,
    {
        match self {
            Hittable::Sphere(s) => s.wf(),
            Hittable::MovingSphere(m) => m.wf(),
            Hittable::XyRect(q) => q.wf(),
            Hittable::XzRect(q) => q.wf(),
            Hittable::YzRect(q) => q.wf(),
            Hittable::BoxShape(b) => b.box_min.wf() && b.box_max.wf() && Self::seq_wf(
                b.sides.objects@,
            ),
            Hittable::Translate(t) => t.offset.wf() && t.hittable.wf(),
            Hittable::RotateY(ry) => fx_wf(ry.sin_theta) && fx_wf(ry.cos_theta) && ry.bbox.wf()
                && ry.hittable.wf(),
            Hittable::ConstantMedium(c) => fx_wf(c.neg_inv_density) && c.neg_inv_density < 0
                && c.boundary.wf(),
            Hittable::List(l) => Self::seq_wf(l.objects@),
            Hittable::Bvh(n) => n.bounding_box.wf() && n.left.wf() && n.right.wf(),
        }
    }

    pub open spec fn seq_wf(objs: Seq<Hittable>) -> bool
        decreases objs, 0int, 0int,
    {
        forall|i: int| 0 <= i < objs.len() ==> (#[trigger] objs[i]).wf()
    }

    /// Whether a hit query consults the random source nowhere inside.
    pub open spec fn deterministic(self) -> bool
        decreases self, 0int, 1int,
    {
        match self {
            Hittable::ConstantMedium(_) => false,
            Hittable::Translate(t) => t.hittable.deterministic(),
            Hittable::RotateY(ry) => ry.hittable.deterministic(),
            Hittable::BoxShape(b) => Self::seq_deterministic(b.sides.objects@),
            Hittable::List(l) => Self::seq_deterministic(l.objects@),
            Hittable::Bvh(n) => n.left.deterministic() && n.right.deterministic(),
            _ => true,
        }
    }

    pub open spec fn seq_deterministic(objs: Seq<Hittable>) -> bool
        decreases objs, 0int, 0int,
    {
        forall|i: int| 0 <= i < objs.len() ==> (#[trigger] objs[i]).deterministic()
    }

    /// Every material index mentioned anywhere inside is below `n`.
    pub open spec fn spec_mats_ok(self, n: int) -> bool
        decreases self, 0int, 1int,
    {
        match self {
            Hittable::Sphere(s) => s.material < n,
            Hittable::MovingSphere(m) => m.material < n,
            Hittable::XyRect(q) => q.mp < n,
            Hittable::XzRect(q) => q.mp < n,
            Hittable::YzRect(q) => q.mp < n,
            Hittable::BoxShape(b) => Self::seq_mats_ok(b.sides.objects@, n),
            Hittable::Translate(t) => t.hittable.spec_mats_ok(n),
            Hittable::RotateY(ry) => ry.hittable.spec_mats_ok(n),
            Hittable::ConstantMedium(c) => c.phase_function < n && c.boundary.spec_mats_ok(n),
            Hittable::List(l) => Self::seq_mats_ok(l.objects@, n),
            Hittable::Bvh(nd) => nd.left.spec_mats_ok(n) && nd.right.spec_mats_ok(n),
        }
    }

    pub open spec fn seq_mats_ok(objs: Seq<Hittable>, n: int) -> bool
        decreases objs, 0int, 0int,
    {
        forall|i: int| 0 <= i < objs.len() ==> (#[trigger] objs[i]).spec_mats_ok(n)
    }

    /// The nearest-hit query, as a mathematical function. Only consulted for
    /// deterministic objects; the medium variant is mapped to `None` and its
    /// executable behavior is specified separately.
    pub open spec fn hit_spec(self, r: Ray, t_min: i64, t_max: i64) -> Option<HitRecord>
        decreases self, 0int, 1int,
    {
        match self {
            Hittable::Sphere(s) => s.spec_hit(r, t_min, t_max),
            Hittable::MovingSphere(m) => m.spec_hit(r, t_min, t_max),
            Hittable::XyRect(q) => q.spec_hit(r, t_min, t_max),
            Hittable::XzRect(q) => q.spec_hit(r, t_min, t_max),
            Hittable::YzRect(q) => q.spec_hit(r, t_min, t_max),
            Hittable::BoxShape(b) => Self::list_hit_spec(
                b.sides.objects@,
                0,
                r,
                t_min,
                t_max,
                None,
            ),
            Hittable::Translate(t) => {
                let moved = Ray { origin: r.origin.spec_sub(t.offset), dir: r.dir, tm: r.tm };
                match t.hittable.hit_spec(moved, t_min, t_max) {
                    None => None,
                    Some(rec) => Some(spec_translate_remap(rec, t.offset, moved)),
                }
            },
            Hittable::RotateY(ry) => {
                let rotated = Ray {
                    origin: spec_rot_local(ry.sin_theta, ry.cos_theta, r.origin),
                    dir: spec_rot_local(ry.sin_theta, ry.cos_theta, r.dir),
                    tm: r.tm,
                };
                match ry.hittable.hit_spec(rotated, t_min, t_max) {
                    None => None,
                    Some(rec) => Some(
                        spec_rotate_remap(rec, ry.sin_theta, ry.cos_theta, rotated),
                    ),
                }
            },
            Hittable::ConstantMedium(_) => None,
            Hittable::List(l) => Self::list_hit_spec(l.objects@, 0, r, t_min, t_max, None),
            Hittable::Bvh(n) => {
                if !n.bounding_box.spec_hit(r, t_min, t_max) {
                    None
                } else {
                    let lh = n.left.hit_spec(r, t_min, t_max);
                    let tight = match lh {
                        Some(rec) => rec.t,
                        None => t_max,
                    };
                    let rh = n.right.hit_spec(r, t_min, tight);
                    match rh {
                        Some(_) => rh,
                        None => lh,
                    }
                }
            },
        }
    }

    /// The fold of a linear scan from index `k`, carrying the closest hit so
    /// far: a hit on a later object must beat the running closest parameter.
    pub open spec fn list_hit_spec(
        objs: Seq<Hittable>,
        k: int,
        r: Ray,
        t_min: i64,
        closest: i64,
        best: Option<HitRecord>,
    ) -> Option<HitRecord>
        decreases objs, objs.len() - k, 0int,
    {
        if k < 0 || k >= objs.len() {
            best
        } else {
            match objs[k].hit_spec(r, t_min, closest) {
                Some(h) => Self::list_hit_spec(objs, k + 1, r, t_min, h.t, Some(h)),
                None => Self::list_hit_spec(objs, k + 1, r, t_min, closest, best),
            }
        }
    }

    /// The bounding-box query, as a mathematical function.
    pub open spec fn spec_bounding_box(self, time0: i64, time1: i64) -> Option<Aabb>
        decreases self, 0int, 1int,
    {
        match self {
            Hittable::Sphere(s) => Some(s.spec_bounding_box()),
            Hittable::MovingSphere(m) => Some(m.spec_bounding_box(time0, time1)),
            Hittable::XyRect(q) => Some(q.spec_bounding_box()),
            Hittable::XzRect(q) => Some(q.spec_bounding_box()),
            Hittable::YzRect(q) => Some(q.spec_bounding_box()),
            Hittable::BoxShape(b) => Some(Aabb { minimum: b.box_min, maximum: b.box_max }),
            Hittable::Translate(t) => match t.hittable.spec_bounding_box(time0, time1) {
                None => None,
                Some(bb) => Some(
                    Aabb {
                        minimum: bb.minimum.spec_add(t.offset),
                        maximum: bb.maximum.spec_add(t.offset),
                    },
                ),
            },
            Hittable::RotateY(ry) => if ry.hasbox {
                Some(ry.bbox)
            } else {
                None
            },
            Hittable::ConstantMedium(c) => c.boundary.spec_bounding_box(time0, time1),
            Hittable::List(l) => Self::spec_list_bbox(l.objects@, time0, time1),
            Hittable::Bvh(n) => Some(n.bounding_box),
        }
    }

    /// The bounding box of a linear aggregate: empty lists and children
    /// without boxes yield none; otherwise the fold of the merge.
    pub open spec fn spec_list_bbox(objs: Seq<Hittable>, time0: i64, time1: i64) -> Option<Aabb>
        decreases objs, objs.len(), 0int,
    {
        if objs.len() == 0 {
            None
        } else {
            match objs[0].spec_bounding_box(time0, time1) {
                None => None,
                Some(b0) => Self::seq_bbox(objs, 1, time0, time1, b0),
            }
        }
    }

    pub open spec fn seq_bbox(
        objs: Seq<Hittable>,
        k: int,
        time0: i64,
        time1: i64,
        acc: Aabb,
    ) -> Option<Aabb>
        decreases objs, objs.len() - k, 0int,
    {
        if k < 1 || k >= objs.len() {
            Some(acc)
        } else {
            match objs[k].spec_bounding_box(time0, time1) {
                None => None,
                Some(b) => Self::seq_bbox(objs, k + 1, time0, time1, acc.spec_surrounding(b)),
            }
        }
    }

    /// The volumetric medium's hit, as a mathematical function of its
    /// deterministic boundary, the query interval, and the random state:
    /// the entry and exit crossings, the interval clamped to the query and
    /// the ray's forward side, and the sampled free flight, exactly as the
    /// executable query computes them. The second component is the random
    /// state the query leaves behind: one draw is consumed if and only if
    /// the clamped interval was left nonempty by a nondegenerate ray.
    pub open spec fn spec_medium_hit(
        c: ConstantMedium,
        r: Ray,
        t_min: i64,
        t_max: i64,
        seed: u64,
    ) -> (Option<HitRecord>, u64)
        decreases c, 0int, 0int,
    {
        match c.boundary.hit_spec(r, (-FX_MAX) as i64, FX_MAX) {
            None => (None, seed),
            Some(h1) => match c.boundary.hit_spec(
                r,
                fxadd(h1.t as int, MEDIUM_STEP_FX as int) as i64,
                FX_MAX,
            ) {
                None => (None, seed),
                Some(h2) => {
                    let t1a = fxmax(h1.t as int, t_min as int) as i64;
                    let t2 = fxmin(h2.t as int, t_max as int) as i64;
                    if t1a >= t2 {
                        (None, seed)
                    } else {
                        let t1 = if t1a < 0 {
                            0i64
                        } else {
                            t1a
                        };
                        if t1 >= t2 {
                            (None, seed)
                        } else {
                            let ray_length = r.dir.spec_length();
                            if ray_length == 0 {
                                (None, seed)
                            } else {
                                let seg = fxsub(t2 as int, t1 as int) as i64;
                                let dib = fxmul(seg as int, ray_length as int) as i64;
                                let s1 = rng_step(seed);
                                let draw = rng_unit(s1);
                                if draw == 0 {
                                    (None, s1)
                                } else {
                                    let hit_distance = fxmul(
                                        c.neg_inv_density as int,
                                        spec_ln_unit(draw as int),
                                    ) as i64;
                                    if hit_distance > dib {
                                        (None, s1)
                                    } else {
                                        let t = fxadd(
                                            t1 as int,
                                            fxdiv(hit_distance as int, ray_length as int),
                                        ) as i64;
                                        (
                                            Some(
                                                HitRecord {
                                                    p: r.spec_at(t),
                                                    normal: Vec3 { x: FX_ONE, y: 0, z: 0 },
                                                    mat: c.phase_function,
                                                    t,
                                                    u: 0,
                                                    v: 0,
                                                    front_face: true,
                                                },
                                            ),
                                            s1,
                                        )
                                    }
                                }
                            }
                        }
                    }
                },
            },
        }
    }

    /// The nearest hit of the ray against this object in `[t_min, t_max]`.
    /// For deterministic objects the result and the random state are pinned
    /// exactly, and so are a medium's over its draw when its boundary is
    /// deterministic; a medium's scatter always sits on the ray and carries
    /// its phase function and the fixed placeholder orientation; a hierarchy
    /// node whose box the ray misses reports nothing and draws nothing; and
    /// a returned record is always well-formed, in range, and carries a
    /// material index below any bound the scene satisfies.
    pub fn hit(&self, r: &Ray, t_min: i64, t_max: i64, rng: &mut Rng) -> (res: Option<HitRecord>)
        requires
            self.wf(),
            r.wf(),
            fx_wf(t_min),
            fx_wf(t_max),
        ensures
            self.deterministic() ==> res == self.hit_spec(*r, t_min, t_max) && final(rng).state
                == old(rng).state,
            match res {
                Some(rec) => rec.wf() && t_min <= rec.t <= t_max && (forall|n: int|
                    #[trigger] self.spec_mats_ok(n) ==> rec.mat < n),
                None => true,
            },
            self is ConstantMedium ==> (match res {
                Some(rec) => rec.mat == self->ConstantMedium_0.phase_function && rec.p
                    == r.spec_at(rec.t) && rec.normal == (Vec3 { x: FX_ONE, y: 0, z: 0 })
                    && rec.front_face && rec.u == 0 && rec.v == 0,
                None => true,
            }),
            (self is ConstantMedium && self->ConstantMedium_0.boundary.deterministic()) ==> (
            res,
            final(rng).state,
            ) == Self::spec_medium_hit(
                self->ConstantMedium_0,
                *r,
                t_min,
                t_max,
                old(rng).state,
            ),
            (self is Bvh && !self->Bvh_0.bounding_box.spec_hit(*r, t_min, t_max)) ==> res is None
                && final(rng).state == old(rng).state,
        decreases *self,
    {
        match self {
            Hittable::Sphere(s) => s.hit(r, t_min, t_max),
            Hittable::MovingSphere(m) => m.hit(r, t_min, t_max),
            Hittable::XyRect(q) => q.hit(r, t_min, t_max),
            Hittable::XzRect(q) => q.hit(r, t_min, t_max),
            Hittable::YzRect(q) => q.hit(r, t_min, t_max),
            Hittable::BoxShape(b) => {
                let out = Self::hit_list(&b.sides.objects, r, t_min, t_max, rng);
                proof {
                    if let Some(rec) = out {
                        assert forall|n: int| #[trigger] self.spec_mats_ok(n) implies rec.mat
                            < n by {
                            assert(Self::seq_mats_ok(b.sides.objects@, n));
                        }
                    }
                }
                out
            },
            Hittable::Translate(t) => {
                let moved = Ray::new(&r.origin.sub(&t.offset), &r.dir, r.tm);
                let inner = t.hittable.hit(&moved, t_min, t_max, rng);
                match inner {
                    None => None,
                    Some(rec) => {
                        let out = translate_remap(rec, &t.offset, &moved);
                        proof {
                            assert forall|n: int| #[trigger] self.spec_mats_ok(n) implies out.mat
                                < n by {
                                assert(t.hittable.spec_mats_ok(n));
                            }
                        }
                        Some(out)
                    },
                }
            },
            Hittable::RotateY(ry) => {
                let origin = rot_local(ry.sin_theta, ry.cos_theta, &r.origin);
                let direction = rot_local(ry.sin_theta, ry.cos_theta, &r.dir);
                let rotated = Ray::new(&origin, &direction, r.tm);
                let inner = ry.hittable.hit(&rotated, t_min, t_max, rng);
                match inner {
                    None => None,
                    Some(rec) => {
                        let out = rotate_remap(rec, ry.sin_theta, ry.cos_theta, &rotated);
                        proof {
                            assert forall|n: int| #[trigger] self.spec_mats_ok(n) implies out.mat
                                < n by {
                                assert(ry.hittable.spec_mats_ok(n));
                            }
                        }
                        Some(out)
                    },
                }
            },
            Hittable::ConstantMedium(c) => {
                let rec1 = c.boundary.hit(r, -FX_MAX, FX_MAX, rng);
                let h1 = match rec1 {
                    None => {
                        return None;
                    },
                    Some(h) => h,
                };
                let rec2 = c.boundary.hit(r, fx_add(h1.t, MEDIUM_STEP_FX), FX_MAX, rng);
                let h2 = match rec2 {
                    None => {
                        return None;
                    },
                    Some(h) => h,
                };
                let mut t1 = fx_max(h1.t, t_min);
                let t2 = fx_min(h2.t, t_max);
                if t1 >= t2 {
                    return None;
                }
                if t1 < 0 {
                    t1 = 0;
                }
                // An interval that became empty after the clamp to the ray's
                // forward side is the defined no-hit case as well.
                if t1 >= t2 {
                    return None;
                }
                let ray_length = r.dir.length();
                if ray_length == 0 {
                    return None;
                }
                let seg = fx_sub(t2, t1);
                let dib = fx_mul(seg, ray_length);
                let draw = rng.next_unit();
                if draw == 0 {
                    // A zero draw stands for an unbounded free flight: the
                    // ray leaves the medium before scattering.
                    return None;
                }
                let ln_draw = fx_ln_unit(draw);
                proof {
                    assert((c.neg_inv_density as int) * (ln_draw as int) >= 0) by (nonlinear_arith)
                        requires
                            c.neg_inv_density < 0,
                            ln_draw <= 0,
                    ;
                    lemma_fxmul_nonneg(c.neg_inv_density as int, ln_draw as int);
                }
                let hit_distance = fx_mul(c.neg_inv_density, ln_draw);
                if hit_distance > dib {
                    return None;
                }
                proof {
                    assert((hit_distance as int) * (FX_ONE as int) >= 0) by (nonlinear_arith)
                        requires
                            hit_distance >= 0,
                    ;
                    vstd::arithmetic::div_mod::lemma_div_pos_is_pos(
                        (hit_distance as int) * (FX_ONE as int),
                        ray_length as int,
                    );
                    lemma_fxdiv_monotone_num(hit_distance as int, dib as int, ray_length as int);
                    lemma_fxdiv_fxmul_le(seg as int, ray_length as int);
                }
                let dt = fx_div(hit_distance, ray_length);
                let t = fx_add(t1, dt);
                let p = r.at(t);
                // The reported normal and facing flag are fixed placeholders:
                // isotropic scattering never reads them.
                proof {
                    assert forall|n: int| #[trigger] self.spec_mats_ok(n) implies (
                    c.phase_function as int) < n by {
                    }
                }
                Some(
                    HitRecord {
                        p,
                        normal: Vec3 { x: FX_ONE, y: 0, z: 0 },
                        mat: c.phase_function,
                        t,
                        u: 0,
                        v: 0,
                        front_face: true,
                    },
                )
            },
            Hittable::List(l) => {
                let out = Self::hit_list(&l.objects, r, t_min, t_max, rng);
                proof {
                    if let Some(rec) = out {
                        assert forall|n: int| #[trigger] self.spec_mats_ok(n) implies rec.mat
                            < n by {
                            assert(Self::seq_mats_ok(l.objects@, n));
                        }
                    }
                }
                out
            },
            Hittable::Bvh(n) => {
                if !n.bounding_box.hit(r, t_min, t_max) {
                    return None;
                }
                let lh = n.left.hit(r, t_min, t_max, rng);
                let tight = match &lh {
                    Some(rec) => rec.t,
                    None => t_max,
                };
                let rh = n.right.hit(r, t_min, tight, rng);
                proof {
                    if let Some(rec) = rh {
                        assert forall|m: int| #[trigger] self.spec_mats_ok(m) implies rec.mat
                            < m by {
                            assert(n.right.spec_mats_ok(m));
                        }
                    }
                    if let Some(rec) = lh {
                        assert forall|m: int| #[trigger] self.spec_mats_ok(m) implies rec.mat
                            < m by {
                            assert(n.left.spec_mats_ok(m));
                        }
                    }
                }
                match rh {
                    Some(_) => rh,
                    None => lh,
                }
            },
        }
    }

    /// Linear scan: every object is probed against the running closest hit,
    /// so the final record is the nearest one.
    fn hit_list(objects: &Vec<Hittable>, r: &Ray, t_min: i64, t_max: i64, rng: &mut Rng) -> (res:
        Option<HitRecord>)
        requires
            Self::seq_wf(objects@),
            r.wf(),
            fx_wf(t_min),
            fx_wf(t_max),
        ensures
            Self::seq_deterministic(objects@) ==> res == Self::list_hit_spec(
                objects@,
                0,
                *r,
                t_min,
                t_max,
                None,
            ) && final(rng).state == old(rng).state,
            match res {
                Some(rec) => rec.wf() && t_min <= rec.t <= t_max && (forall|n: int|
                    #[trigger] Self::seq_mats_ok(objects@, n) ==> rec.mat < n),
                None => true,
            },
        decreases objects@,
    {
        let mut best: Option<HitRecord> = None;
        let mut closest = t_max;
        let mut i: usize = 0;
        while i < objects.len()
            invariant
                Self::seq_wf(objects@),
                r.wf(),
                fx_wf(t_min),
                fx_wf(t_max),
                fx_wf(closest),
                0 <= i <= objects.len(),
                closest <= t_max,
                Self::seq_deterministic(objects@) ==> Self::list_hit_spec(
                    objects@,
                    i as int,
                    *r,
                    t_min,
                    closest,
                    best,
                ) == Self::list_hit_spec(objects@, 0, *r, t_min, t_max, None) && rng.state == old(
                    rng,
                ).state,
                match best {
                    Some(rec) => rec.wf() && t_min <= rec.t <= t_max && rec.t == closest && (
                    forall|n: int| #[trigger] Self::seq_mats_ok(objects@, n) ==> rec.mat < n),
                    None => true,
                },
            decreases objects.len() - i,
        {
            proof {
                assert(objects@[i as int].wf());
                if Self::seq_deterministic(objects@) {
                    assert(objects@[i as int].deterministic());
                }
            }
            let ob = &objects[i];
            let h = ob.hit(r, t_min, closest, rng);
            proof {
                if let Some(rec) = h {
                    assert forall|n: int| #[trigger] Self::seq_mats_ok(objects@, n) implies rec.mat
                        < n by {
                        assert(objects@[i as int].spec_mats_ok(n));
                    }
                }
            }
            match h {
                Some(rec) => {
                    closest = rec.t;
                    best = Some(rec);
                },
                None => {},
            }
            i = i + 1;
        }
        best
    }

    /// The box covering this object over the given time interval, if it has
    /// one.
    pub fn bounding_box(&self, time0: i64, time1: i64) -> (res: Option<Aabb>)
        requires
            self.wf(),
            fx_wf(time0),
            fx_wf(time1),
        ensures
            res == self.spec_bounding_box(time0, time1),
            match res {
                Some(b) => b.wf(),
                None => true,
            },
        decreases *self,
    {
        match self {
            Hittable::Sphere(s) => Some(s.bounding_box()),
            Hittable::MovingSphere(m) => Some(m.bounding_box(time0, time1)),
            Hittable::XyRect(q) => Some(q.bounding_box()),
            Hittable::XzRect(q) => Some(q.bounding_box()),
            Hittable::YzRect(q) => Some(q.bounding_box()),
            Hittable::BoxShape(b) => Some(Aabb::new(b.box_min, b.box_max)),
            Hittable::Translate(t) => {
                let inner = t.hittable.bounding_box(time0, time1);
                match inner {
                    None => None,
                    Some(bb) => Some(
                        Aabb::new(bb.minimum.add(&t.offset), bb.maximum.add(&t.offset)),
                    ),
                }
            },
            Hittable::RotateY(ry) => {
                if ry.hasbox {
                    Some(ry.bbox)
                } else {
                    None
                }
            },
            Hittable::ConstantMedium(c) => c.boundary.bounding_box(time0, time1),
            Hittable::List(l) => Self::bbox_list(&l.objects, time0, time1),
            Hittable::Bvh(n) => Some(n.bounding_box),
        }
    }

    fn bbox_list(objects: &Vec<Hittable>, time0: i64, time1: i64) -> (res: Option<Aabb>)
        requires
            Self::seq_wf(objects@),
            fx_wf(time0),
            fx_wf(time1),
        ensures
            res == Self::spec_list_bbox(objects@, time0, time1),
            match res {
                Some(b) => b.wf(),
                None => true,
            },
        decreases objects@,
    {
        if objects.len() == 0 {
            return None;
        }
        proof {
            assert(objects@[0].wf());
        }
        let first = objects[0].bounding_box(time0, time1);
        let mut acc = match first {
            None => {
                return None;
            },
            Some(b0) => b0,
        };
        let mut i: usize = 1;
        while i < objects.len()
            invariant
                Self::seq_wf(objects@),
                fx_wf(time0),
                fx_wf(time1),
                1 <= i <= objects.len(),
                acc.wf(),
                Self::seq_bbox(objects@, i as int, time0, time1, acc) == Self::spec_list_bbox(
                    objects@,
                    time0,
                    time1,
                ),
            decreases objects.len() - i,
        {
            proof {
                assert(objects@[i as int].wf());
            }
            let b = objects[i].bounding_box(time0, time1);
            match b {
                None => {
                    return None;
                },
                Some(bb) => {
                    acc = acc.surrounding_box(&bb);
                },
            }
            i = i + 1;
        }
        Some(acc)
    }

    /// The combination of a hierarchy node's children before its own box
    /// gate: probe the left child over the whole interval, the right child
    /// against the bound the left hit tightened, and let a right hit win.
    pub open spec fn spec_bvh_combine(n: BvhNode, r: Ray, t_min: i64, t_max: i64) -> Option<
        HitRecord,
    >
        decreases n, 0int, 0int,
    {
        let lh = n.left.hit_spec(r, t_min, t_max);
        let tight = match lh {
            Some(rec) => rec.t,
            None => t_max,
        };
        let rh = n.right.hit_spec(r, t_min, tight);
        match rh {
            Some(_) => rh,
            None => lh,
        }
    }

    /// Every hierarchy node inside admits the hits its box must gate: when
    /// the children's combination reports a hit within some bound, the
    /// node's own box passes the slab test for that bound. Well-built boxes
    /// have this by construction over the reals; fixed-point rounding is
    /// what keeps it an assumption here.
    pub open spec fn boxes_admit(self, r: Ray, t_min: i64) -> bool
        decreases self, 0int, 1int,
    {
        match self {
            Hittable::BoxShape(b) => Self::seq_boxes_admit(b.sides.objects@, r, t_min),
            Hittable::Translate(t) => t.hittable.boxes_admit(
                Ray { origin: r.origin.spec_sub(t.offset), dir: r.dir, tm: r.tm },
                t_min,
            ),
            Hittable::RotateY(ry) => ry.hittable.boxes_admit(
                Ray {
                    origin: spec_rot_local(ry.sin_theta, ry.cos_theta, r.origin),
                    dir: spec_rot_local(ry.sin_theta, ry.cos_theta, r.dir),
                    tm: r.tm,
                },
                t_min,
            ),
            Hittable::List(l) => Self::seq_boxes_admit(l.objects@, r, t_min),
            Hittable::Bvh(n) => {
                &&& n.left.boxes_admit(r, t_min)
                &&& n.right.boxes_admit(r, t_min)
                &&& (forall|b: i64|
                    (#[trigger] Self::spec_bvh_combine(n, r, t_min, b)) is Some
                        ==> n.bounding_box.spec_hit(r, t_min, b))
            },
            _ => true,
        }
    }

    pub open spec fn seq_boxes_admit(objs: Seq<Hittable>, r: Ray, t_min: i64) -> bool
        decreases objs, 0int, 0int,
    {
        forall|i: int| 0 <= i < objs.len() ==> (#[trigger] objs[i]).boxes_admit(r, t_min)
    }
}

/// Deterministic hit queries whose boxes admit their subtree hits are
/// threshold queries: against bounds sharing a lower end, the nearest record
/// is fixed, returned unchanged by any query whose upper bound still admits
/// it, and absent from tighter queries. This is why probing against a
/// running closest bound, as the aggregate scan and the hierarchy both do,
/// never changes the answer.
#[verifier::rlimit(100)]
#[verifier::spinoff_prover]
pub proof fn lemma_hit_threshold(h: Hittable, r: Ray, t_min: i64, lo: i64, hi: i64)
    requires
        h.deterministic(),
        h.boxes_admit(r, t_min),
        lo <= hi,
    ensures
        match h.hit_spec(r, t_min, hi) {
            Some(rec) => t_min <= rec.t <= hi && h.hit_spec(r, t_min, lo) == (if rec.t <= lo {
                Some(rec)
            } else {
                None::<HitRecord>
            }),
            None => h.hit_spec(r, t_min, lo) is None,
        },
    decreases h, 0int, 1int,
{
    match h {
        Hittable::Sphere(s) => {
            crate::sphere::lemma_sphere_hit_threshold(s, r, t_min, lo, hi);
        },
        Hittable::MovingSphere(m) => {
            crate::moving_sphere::lemma_moving_sphere_hit_threshold(m, r, t_min, lo, hi);
        },
        Hittable::XyRect(q) => {
            crate::rect::lemma_rect_hit_threshold(
                q.x0, q.x1, q.y0, q.y1, q.k, r.origin.x, r.dir.x, r.origin.y, r.dir.y,
                r.origin.z, r.dir.z, t_min, lo, hi,
            );
        },
        Hittable::XzRect(q) => {
            crate::rect::lemma_rect_hit_threshold(
                q.x0, q.x1, q.z0, q.z1, q.k, r.origin.x, r.dir.x, r.origin.z, r.dir.z,
                r.origin.y, r.dir.y, t_min, lo, hi,
            );
        },
        Hittable::YzRect(q) => {
            crate::rect::lemma_rect_hit_threshold(
                q.y0, q.y1, q.z0, q.z1, q.k, r.origin.y, r.dir.y, r.origin.z, r.dir.z,
                r.origin.x, r.dir.x, t_min, lo, hi,
            );
        },
        Hittable::BoxShape(b) => {
            Hittable::lemma_fold_threshold(b.sides.objects@, 0, r, t_min, lo, hi, None);
        },
        Hittable::Translate(t) => {
            let moved = Ray { origin: r.origin.spec_sub(t.offset), dir: r.dir, tm: r.tm };
            lemma_hit_threshold(*t.hittable, moved, t_min, lo, hi);
        },
        Hittable::RotateY(ry) => {
            let rotated = Ray {
                origin: spec_rot_local(ry.sin_theta, ry.cos_theta, r.origin),
                dir: spec_rot_local(ry.sin_theta, ry.cos_theta, r.dir),
                tm: r.tm,
            };
            lemma_hit_threshold(*ry.hittable, rotated, t_min, lo, hi);
        },
        Hittable::ConstantMedium(_) => {
            assert(false);
        },
        Hittable::List(l) => {
            Hittable::lemma_fold_threshold(l.objects@, 0, r, t_min, lo, hi, None);
        },
        Hittable::Bvh(n) => {
            lemma_hit_threshold(*n.left, r, t_min, lo, hi);
            let lh_hi = n.left.hit_spec(r, t_min, hi);
            let lh_lo = n.left.hit_spec(r, t_min, lo);
            let tight_hi = match lh_hi {
                Some(rec) => rec.t,
                None => hi,
            };
            let tight_lo = match lh_lo {
                Some(rec) => rec.t,
                None => lo,
            };
            match lh_hi {
                Some(hl) => {
                    if hl.t <= lo {
                        // The two runs tighten to the same bound.
                        assert(tight_lo == tight_hi);
                        lemma_hit_threshold(*n.right, r, t_min, tight_hi, tight_hi);
                    } else {
                        assert(lh_lo is None);
                        assert(lo <= tight_hi);
                        lemma_hit_threshold(*n.right, r, t_min, lo, tight_hi);
                    }
                },
                None => {
                    assert(lh_lo is None);
                    lemma_hit_threshold(*n.right, r, t_min, lo, hi);
                },
            }
            // The box test is monotone in the bound, and box admission
            // keeps it passing whenever a combined hit survives the
            // tighter bound.
            let raw_hi = Hittable::spec_bvh_combine(n, r, t_min, hi);
            let raw_lo = Hittable::spec_bvh_combine(n, r, t_min, lo);
            if n.bounding_box.spec_hit(r, t_min, lo) {
                crate::aabb::lemma_slab_hit_monotone(n.bounding_box, r, t_min, lo, hi);
            }
            assert(h.hit_spec(r, t_min, hi) == (if n.bounding_box.spec_hit(r, t_min, hi) {
                raw_hi
            } else {
                None::<HitRecord>
            }));
            assert(h.hit_spec(r, t_min, lo) == (if n.bounding_box.spec_hit(r, t_min, lo) {
                raw_lo
            } else {
                None::<HitRecord>
            }));
        },
    }
}

impl Hittable {
    /// The aggregate fold keeps its accumulator in range and never drops it.
    pub proof fn lemma_fold_range(
        objs: Seq<Hittable>,
        k: int,
        r: Ray,
        t_min: i64,
        c: i64,
        b: Option<HitRecord>,
    )
        requires
            Self::seq_deterministic(objs),
            Self::seq_boxes_admit(objs, r, t_min),
            0 <= k <= objs.len(),
            match b {
                Some(rec) => rec.t == c && t_min <= rec.t,
                None => true,
            },
        ensures
            b is Some ==> Self::list_hit_spec(objs, k, r, t_min, c, b) is Some,
            match Self::list_hit_spec(objs, k, r, t_min, c, b) {
                Some(rec) => t_min <= rec.t <= c,
                None => true,
            },
        decreases objs, objs.len() - k, 0int,
    {
        if k >= objs.len() {
        } else {
            let e = objs[k];
            assert(e.deterministic());
            assert(e.boxes_admit(r, t_min));
            lemma_hit_threshold(e, r, t_min, c, c);
            match e.hit_spec(r, t_min, c) {
                Some(he) => {
                    Self::lemma_fold_range(objs, k + 1, r, t_min, he.t, Some(he));
                },
                None => {
                    Self::lemma_fold_range(objs, k + 1, r, t_min, c, b);
                },
            }
        }
    }

    /// The aggregate fold is a threshold query, generalized over a running
    /// accumulator that is still above the tighter bound.
    pub proof fn lemma_fold_threshold(
        objs: Seq<Hittable>,
        k: int,
        r: Ray,
        t_min: i64,
        lo: i64,
        c2: i64,
        b2: Option<HitRecord>,
    )
        requires
            Self::seq_deterministic(objs),
            Self::seq_boxes_admit(objs, r, t_min),
            0 <= k <= objs.len(),
            lo <= c2,
            match b2 {
                Some(rec) => rec.t == c2 && rec.t > lo && t_min <= rec.t,
                None => true,
            },
        ensures
            match Self::list_hit_spec(objs, k, r, t_min, c2, b2) {
                Some(rec) => t_min <= rec.t <= c2 && Self::list_hit_spec(
                    objs,
                    k,
                    r,
                    t_min,
                    lo,
                    None,
                ) == (if rec.t <= lo {
                    Some(rec)
                } else {
                    None::<HitRecord>
                }),
                None => Self::list_hit_spec(objs, k, r, t_min, lo, None) is None,
            },
        decreases objs, objs.len() - k, 1int,
    {
        if k >= objs.len() {
        } else {
            let e = objs[k];
            assert(e.deterministic());
            assert(e.boxes_admit(r, t_min));
            lemma_hit_threshold(e, r, t_min, lo, c2);
            match e.hit_spec(r, t_min, c2) {
                None => {
                    assert(e.hit_spec(r, t_min, lo) is None);
                    Self::lemma_fold_threshold(objs, k + 1, r, t_min, lo, c2, b2);
                },
                Some(he) => {
                    if he.t <= lo {
                        assert(e.hit_spec(r, t_min, lo) == Some(he));
                        // Both runs continue from the identical state; the
                        // fold keeps its result at or below that state.
                        Self::lemma_fold_range(objs, k + 1, r, t_min, he.t, Some(he));
                    } else {
                        assert(e.hit_spec(r, t_min, lo) is None);
                        Self::lemma_fold_threshold(objs, k + 1, r, t_min, lo, he.t, Some(he));
                    }
                },
            }
        }
    }

    /// The fold never drops an accumulated hit.
    pub proof fn lemma_fold_keeps_some(
        objs: Seq<Hittable>,
        k: int,
        r: Ray,
        t_min: i64,
        c: i64,
        acc: HitRecord,
    )
        requires
            0 <= k <= objs.len(),
        ensures
            Self::list_hit_spec(objs, k, r, t_min, c, Some(acc)) is Some,
        decreases objs, objs.len() - k, 0int,
    {
        if k >= objs.len() {
        } else {
            match objs[k].hit_spec(r, t_min, c) {
                Some(he) => {
                    Self::lemma_fold_keeps_some(objs, k + 1, r, t_min, he.t, he);
                },
                None => {
                    Self::lemma_fold_keeps_some(objs, k + 1, r, t_min, c, acc);
                },
            }
        }
    }

    /// A fold started with an accumulated hit at the running bound answers
    /// as the fold started empty, falling back to the accumulator.
    pub proof fn lemma_fold_acc(
        objs: Seq<Hittable>,
        k: int,
        r: Ray,
        t_min: i64,
        c: i64,
        acc: HitRecord,
    )
        requires
            0 <= k <= objs.len(),
            acc.t == c,
        ensures
            Self::list_hit_spec(objs, k, r, t_min, c, Some(acc)) == (match Self::list_hit_spec(
                objs,
                k,
                r,
                t_min,
                c,
                None,
            ) {
                Some(x) => Some(x),
                None => Some(acc),
            }),
        decreases objs, objs.len() - k, 0int,
    {
        if k >= objs.len() {
        } else {
            match objs[k].hit_spec(r, t_min, c) {
                Some(he) => {
                    Self::lemma_fold_keeps_some(objs, k + 1, r, t_min, he.t, he);
                },
                None => {
                    Self::lemma_fold_acc(objs, k + 1, r, t_min, c, acc);
                },
            }
        }
    }

    /// Scanning past the end of a prefix is scanning the suffix.
    pub proof fn lemma_fold_shift(
        a: Seq<Hittable>,
        b: Seq<Hittable>,
        j: int,
        r: Ray,
        t_min: i64,
        c: i64,
        acc: Option<HitRecord>,
    )
        requires
            0 <= j <= b.len(),
        ensures
            Self::list_hit_spec(a + b, a.len() + j, r, t_min, c, acc) == Self::list_hit_spec(
                b,
                j,
                r,
                t_min,
                c,
                acc,
            ),
        decreases b.len() - j,
    {
        if j >= b.len() {
        } else {
            assert((a + b)[a.len() + j] == b[j]);
            match b[j].hit_spec(r, t_min, c) {
                Some(he) => {
                    Self::lemma_fold_shift(a, b, j + 1, r, t_min, he.t, Some(he));
                },
                None => {
                    Self::lemma_fold_shift(a, b, j + 1, r, t_min, c, acc);
                },
            }
        }
    }

    /// Scanning a concatenation is scanning the prefix, then the suffix from
    /// the state the prefix left behind.
    pub proof fn lemma_fold_append(
        a: Seq<Hittable>,
        b: Seq<Hittable>,
        k: int,
        r: Ray,
        t_min: i64,
        c: i64,
        acc: Option<HitRecord>,
    )
        requires
            0 <= k <= a.len(),
            match acc {
                Some(rec) => rec.t == c,
                None => true,
            },
        ensures
            ({
                let first = Self::list_hit_spec(a, k, r, t_min, c, acc);
                let c1 = match first {
                    Some(rec) => rec.t,
                    None => c,
                };
                Self::list_hit_spec(a + b, k, r, t_min, c, acc) == Self::list_hit_spec(
                    b,
                    0,
                    r,
                    t_min,
                    c1,
                    first,
                )
            }),
        decreases a.len() - k,
    {
        if k >= a.len() {
            Self::lemma_fold_shift(a, b, 0, r, t_min, c, acc);
        } else {
            assert((a + b)[k] == a[k]);
            match a[k].hit_spec(r, t_min, c) {
                Some(he) => {
                    Self::lemma_fold_keeps_some(a, k + 1, r, t_min, he.t, he);
                    Self::lemma_fold_append(a, b, k + 1, r, t_min, he.t, Some(he));
                },
                None => {
                    Self::lemma_fold_append(a, b, k + 1, r, t_min, c, acc);
                },
            }
        }
    }
}

} // verus!
