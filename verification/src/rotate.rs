//! Rotation about the Y axis: precomputes the sine and cosine of a fixed
//! angle, together with the world-space box obtained by rotating all eight
//! corners of the child's box and taking componentwise extrema.

use vstd::prelude::*;

verus! {

use crate::aabb::Aabb;
use crate::fixed::{fx_wf, fxadd, fxsub, fxmul, fx_add, fx_sub, fx_mul, FX_ONE};
use crate::hit::{HitRecord, Hittable};
use crate::ray::Ray;
use crate::trig::{spec_sin_deg, spec_cos_deg, fx_sin_deg, fx_cos_deg};
use crate::vec3::Vec3;

pub struct RotateY {
    pub hittable: Box<Hittable>,
    pub sin_theta: i64,
    pub cos_theta: i64,
    pub hasbox: bool,
    pub bbox: Aabb,
}

/// Rotate a vector from the child's local frame into world space.
pub open spec fn spec_rot_world(sin_theta: i64, cos_theta: i64, v: Vec3) -> Vec3 {
    Vec3 {
        x: fxadd(fxmul(cos_theta as int, v.x as int), fxmul(sin_theta as int, v.z as int)) as i64,
        y: v.y,
        z: fxsub(fxmul(cos_theta as int, v.z as int), fxmul(sin_theta as int, v.x as int)) as i64,
    }
}

/// Rotate a vector from world space into the child's local frame.
pub open spec fn spec_rot_local(sin_theta: i64, cos_theta: i64, v: Vec3) -> Vec3 {
    Vec3 {
        x: fxsub(fxmul(cos_theta as int, v.x as int), fxmul(sin_theta as int, v.z as int)) as i64,
        y: v.y,
        z: fxadd(fxmul(sin_theta as int, v.x as int), fxmul(cos_theta as int, v.z as int)) as i64,
    }
}

pub fn rot_world(sin_theta: i64, cos_theta: i64, v: &Vec3) -> (r: Vec3)
    requires
        fx_wf(sin_theta),
        fx_wf(cos_theta),
        v.wf(),
    ensures
        r == spec_rot_world(sin_theta, cos_theta, *v),
        r.wf(),
{
    Vec3 {
        x: fx_add(fx_mul(cos_theta, v.x), fx_mul(sin_theta, v.z)),
        y: v.y,
        z: fx_sub(fx_mul(cos_theta, v.z), fx_mul(sin_theta, v.x)),
    }
}

pub fn rot_local(sin_theta: i64, cos_theta: i64, v: &Vec3) -> (r: Vec3)
    requires
        fx_wf(sin_theta),
        fx_wf(cos_theta),
        v.wf(),
    ensures
        r == spec_rot_local(sin_theta, cos_theta, *v),
        r.wf(),
{
    Vec3 {
        x: fx_sub(fx_mul(cos_theta, v.x), fx_mul(sin_theta, v.z)),
        y: v.y,
        z: fx_add(fx_mul(sin_theta, v.x), fx_mul(cos_theta, v.z)),
    }
}

/// Rotate all eight corners of a box and take componentwise extrema.
pub open spec fn spec_rotated_box(sin_theta: i64, cos_theta: i64, bb: Aabb) -> Aabb {
    let c0 = spec_rot_world(
        sin_theta,
        cos_theta,
        Vec3 { x: bb.minimum.x, y: bb.minimum.y, z: bb.minimum.z },
    );
    let c1 = spec_rot_world(
        sin_theta,
        cos_theta,
        Vec3 { x: bb.minimum.x, y: bb.minimum.y, z: bb.maximum.z },
    );
    let c2 = spec_rot_world(
        sin_theta,
        cos_theta,
        Vec3 { x: bb.minimum.x, y: bb.maximum.y, z: bb.minimum.z },
    );
    let c3 = spec_rot_world(
        sin_theta,
        cos_theta,
        Vec3 { x: bb.minimum.x, y: bb.maximum.y, z: bb.maximum.z },
    );
    let c4 = spec_rot_world(
        sin_theta,
        cos_theta,
        Vec3 { x: bb.maximum.x, y: bb.minimum.y, z: bb.minimum.z },
    );
    let c5 = spec_rot_world(
        sin_theta,
        cos_theta,
        Vec3 { x: bb.maximum.x, y: bb.minimum.y, z: bb.maximum.z },
    );
    let c6 = spec_rot_world(
        sin_theta,
        cos_theta,
        Vec3 { x: bb.maximum.x, y: bb.maximum.y, z: bb.minimum.z },
    );
    let c7 = spec_rot_world(
        sin_theta,
        cos_theta,
        Vec3 { x: bb.maximum.x, y: bb.maximum.y, z: bb.maximum.z },
    );
    let mn = c0.spec_min(c1).spec_min(c2).spec_min(c3).spec_min(c4).spec_min(c5).spec_min(
        c6,
    ).spec_min(c7);
    let mx = c0.spec_max(c1).spec_max(c2).spec_max(c3).spec_max(c4).spec_max(c5).spec_max(
        c6,
    ).spec_max(c7);
    Aabb { minimum: mn, maximum: mx }
}

fn rotated_box(sin_theta: i64, cos_theta: i64, bb: &Aabb) -> (r: Aabb)
    requires
        fx_wf(sin_theta),
        fx_wf(cos_theta),
        bb.wf(),
    ensures
        r == spec_rotated_box(sin_theta, cos_theta, *bb),
        r.wf(),
{
    let c0 = rot_world(sin_theta, cos_theta, &Vec3::new(bb.minimum.x, bb.minimum.y, bb.minimum.z));
    let c1 = rot_world(sin_theta, cos_theta, &Vec3::new(bb.minimum.x, bb.minimum.y, bb.maximum.z));
    let c2 = rot_world(sin_theta, cos_theta, &Vec3::new(bb.minimum.x, bb.maximum.y, bb.minimum.z));
    let c3 = rot_world(sin_theta, cos_theta, &Vec3::new(bb.minimum.x, bb.maximum.y, bb.maximum.z));
    let c4 = rot_world(sin_theta, cos_theta, &Vec3::new(bb.maximum.x, bb.minimum.y, bb.minimum.z));
    let c5 = rot_world(sin_theta, cos_theta, &Vec3::new(bb.maximum.x, bb.minimum.y, bb.maximum.z));
    let c6 = rot_world(sin_theta, cos_theta, &Vec3::new(bb.maximum.x, bb.maximum.y, bb.minimum.z));
    let c7 = rot_world(sin_theta, cos_theta, &Vec3::new(bb.maximum.x, bb.maximum.y, bb.maximum.z));
    let mn = c0.vmin(&c1).vmin(&c2).vmin(&c3).vmin(&c4).vmin(&c5).vmin(&c6).vmin(&c7);
    let mx = c0.vmax(&c1).vmax(&c2).vmax(&c3).vmax(&c4).vmax(&c5).vmax(&c6).vmax(&c7);
    Aabb::new(mn, mx)
}

/// Re-express a child hit in world coordinates: rotate the point and normal
/// back out and re-derive the facing flag against the rotated ray.
pub open spec fn spec_rotate_remap(
    rec: HitRecord,
    sin_theta: i64,
    cos_theta: i64,
    rotated: Ray,
) -> HitRecord {
    let p = spec_rot_world(sin_theta, cos_theta, rec.p);
    let n = spec_rot_world(sin_theta, cos_theta, rec.normal);
    let out = HitRecord { p, normal: n, ..rec };
    out.spec_face_normal(rotated, n)
}

pub fn rotate_remap(rec: HitRecord, sin_theta: i64, cos_theta: i64, rotated: &Ray) -> (res:
    HitRecord)
    requires
        rec.wf(),
        fx_wf(sin_theta),
        fx_wf(cos_theta),
        rotated.wf(),
    ensures
        res == spec_rotate_remap(rec, sin_theta, cos_theta, *rotated),
        res.wf(),
        res.t == rec.t,
        res.mat == rec.mat,
{
    let p = rot_world(sin_theta, cos_theta, &rec.p);
    let n = rot_world(sin_theta, cos_theta, &rec.normal);
    let mut out = rec;
    out.p = p;
    out.normal = n;
    out.set_face_normal(rotated, &n);
    out
}

impl RotateY {
    /// Precompute the angle's sine and cosine and the rotated world box.
    /// If the child reports no box, that absence is kept, though the stored
    /// placeholder box is still the rotation of the zero box.
    pub fn new(p: Box<Hittable>, angle: i64) -> (r: RotateY)
        requires
            p.wf(),
            fx_wf(angle),
        ensures
            r.hittable == p,
            r.sin_theta == spec_sin_deg(angle as int),
            r.cos_theta == spec_cos_deg(angle as int),
            r.hasbox == p.spec_bounding_box(0, FX_ONE).is_some(),
            r.bbox == spec_rotated_box(
                r.sin_theta,
                r.cos_theta,
                match p.spec_bounding_box(0, FX_ONE) {
                    Some(bb) => bb,
                    None => Aabb { minimum: Vec3::spec_zero(), maximum: Vec3::spec_zero() },
                },
            ),
            r.bbox.wf(),
    {
        let sin_theta = fx_sin_deg(angle);
        let cos_theta = fx_cos_deg(angle);
        let child_box = p.bounding_box(0, FX_ONE);
        let (hasbox, base) = match child_box {
            Some(bb) => (true, bb),
            None => (false, Aabb::new(Vec3::new(0, 0, 0), Vec3::new(0, 0, 0))),
        };
        let bbox = rotated_box(sin_theta, cos_theta, &base);
        RotateY { hittable: p, sin_theta, cos_theta, hasbox, bbox }
    }
}

/// The sine and cosine of a full turn are exactly zero and one.
pub proof fn lemma_full_turn_trig()
    ensures
        spec_sin_deg(360 * FX_ONE as int) == 0,
        spec_cos_deg(360 * FX_ONE as int) == FX_ONE as int,
{
    let m = 360 * FX_ONE as int;
    vstd::arithmetic::div_mod::lemma_div_multiples_vanish(1, m);
    assert(m * 1 == m) by (nonlinear_arith);
    assert(crate::fixed::fdiv(m, m) == 1);
    assert(crate::fixed::fxmod(m, m) == 0) by {
        assert(crate::fixed::fdiv(m, m) * m == m) by (nonlinear_arith)
            requires
                crate::fixed::fdiv(m, m) == 1,
        ;
    }
}

/// With sine zero and cosine one, both rotations are the identity on
/// representable vectors.
pub proof fn lemma_rot_identity(v: Vec3)
    requires
        v.wf(),
    ensures
        spec_rot_local(0, FX_ONE, v) == v,
        spec_rot_world(0, FX_ONE, v) == v,
{
    crate::fixed::lemma_fxmul_one(v.x as int);
    crate::fixed::lemma_fxmul_one(v.z as int);
    crate::fixed::lemma_fxmul_zero(v.x as int);
    crate::fixed::lemma_fxmul_zero(v.z as int);
}

/// A whole-turn rotation is the identity transform: the wrapper's hit is the
/// child's hit on the same ray, with the same parameter, point, surface
/// coordinates and material; on front-face hits the stored normal and facing
/// flag are reproduced exactly.
pub proof fn lemma_rotate_full_turn(ry: RotateY, r: Ray, t_min: i64, t_max: i64)
    requires
        ry.sin_theta == 0,
        ry.cos_theta == FX_ONE,
        r.wf(),
    ensures
        ({
            let outer = Hittable::RotateY(ry).hit_spec(r, t_min, t_max);
            let inner = ry.hittable.hit_spec(r, t_min, t_max);
            &&& (outer is Some <==> inner is Some)
            &&& match (outer, inner) {
                (Some(w), Some(c)) => (c.p.wf() && c.normal.wf()) ==> {
                    &&& w.t == c.t
                    &&& w.u == c.u
                    &&& w.v == c.v
                    &&& w.mat == c.mat
                    &&& w.p == c.p
                    &&& (r.dir.spec_dot(c.normal) < 0 ==> w.normal == c.normal && w.front_face)
                },
                (None, None) => true,
                _ => false,
            }
        }),
{
    lemma_rot_identity(r.origin);
    lemma_rot_identity(r.dir);
    let rotated = Ray {
        origin: spec_rot_local(ry.sin_theta, ry.cos_theta, r.origin),
        dir: spec_rot_local(ry.sin_theta, ry.cos_theta, r.dir),
        tm: r.tm,
    };
    assert(rotated == r);
    let inner = ry.hittable.hit_spec(r, t_min, t_max);
    match inner {
        Some(c) => {
            let w = spec_rotate_remap(c, ry.sin_theta, ry.cos_theta, rotated);
            assert(Hittable::RotateY(ry).hit_spec(r, t_min, t_max) == Some(w));
            if c.p.wf() && c.normal.wf() {
                lemma_rot_identity(c.p);
                lemma_rot_identity(c.normal);
            }
        },
        None => {
            assert(Hittable::RotateY(ry).hit_spec(r, t_min, t_max) is None);
        },
    }
}

} // verus!
