//! The translation transform: offsets the incoming ray into the child's
//! frame, then shifts the hit point back out.

use vstd::prelude::*;

verus! {

use crate::fixed::FX_MAX;
use crate::hit::{HitRecord, Hittable};
use crate::ray::Ray;
use crate::vec3::Vec3;

pub struct Translate {
    pub hittable: Box<Hittable>,
    pub offset: Vec3,
}

impl Translate {
    pub fn new(p: Box<Hittable>, displacement: &Vec3) -> (r: Translate)
        ensures
            r.hittable == p,
            r.offset == *displacement,
    {
        Translate { hittable: p, offset: *displacement }
    }
}

/// Re-express a child hit in world coordinates: shift the point by the
/// offset and re-derive the facing flag against the offset ray.
pub open spec fn spec_translate_remap(rec: HitRecord, offset: Vec3, moved: Ray) -> HitRecord {
    let shifted = HitRecord { p: rec.p.spec_add(offset), ..rec };
    shifted.spec_face_normal(moved, shifted.normal)
}

pub fn translate_remap(rec: HitRecord, offset: &Vec3, moved: &Ray) -> (res: HitRecord)
    requires
        rec.wf(),
        offset.wf(),
        moved.wf(),
    ensures
        res == spec_translate_remap(rec, *offset, *moved),
        res.wf(),
        res.t == rec.t,
        res.mat == rec.mat,
{
    let mut out = rec;
    out.p = rec.p.add(offset);
    let n = out.normal;
    out.set_face_normal(moved, &n);
    out
}

/// No component of the shifted point saturates, in either direction.
pub open spec fn spec_no_sat_add(a: Vec3, b: Vec3) -> bool {
    &&& -(FX_MAX as int) <= a.x + b.x <= FX_MAX as int
    &&& -(FX_MAX as int) <= a.y + b.y <= FX_MAX as int
    &&& -(FX_MAX as int) <= a.z + b.z <= FX_MAX as int
}

/// Translation is a pure re-expression of the child geometry: the wrapper
/// hits exactly when the child hits the offset ray, at the same parameter,
/// surface coordinates and material; within representable range, undoing the
/// displacement on the hit point reproduces the child's point exactly; and
/// on front-face hits the stored normal and facing flag are reproduced too.
pub proof fn lemma_translate_round_trip(t: Translate, r: Ray, t_min: i64, t_max: i64)
    requires
        t.offset.wf(),
    ensures
        ({
            let moved = Ray { origin: r.origin.spec_sub(t.offset), dir: r.dir, tm: r.tm };
            let outer = Hittable::Translate(t).hit_spec(r, t_min, t_max);
            let inner = t.hittable.hit_spec(moved, t_min, t_max);
            &&& (outer is Some <==> inner is Some)
            &&& match (outer, inner) {
                (Some(w), Some(c)) => {
                    &&& w.t == c.t
                    &&& w.u == c.u
                    &&& w.v == c.v
                    &&& w.mat == c.mat
                    &&& ((c.p.wf() && spec_no_sat_add(c.p, t.offset)) ==> w.p.spec_sub(t.offset)
                        == c.p)
                    &&& (r.dir.spec_dot(c.normal) < 0 ==> w.normal == c.normal && w.front_face)
                },
                (None, None) => true,
                _ => false,
            }
        }),
{
    let moved = Ray { origin: r.origin.spec_sub(t.offset), dir: r.dir, tm: r.tm };
    let inner = t.hittable.hit_spec(moved, t_min, t_max);
    match inner {
        Some(c) => {
            let w = spec_translate_remap(c, t.offset, moved);
            assert(Hittable::Translate(t).hit_spec(r, t_min, t_max) == Some(w));
            if c.p.wf() && spec_no_sat_add(c.p, t.offset) {
                assert(w.p.spec_sub(t.offset) == c.p) by {
                    assert(w.p.x == c.p.x + t.offset.x);
                    assert(w.p.y == c.p.y + t.offset.y);
                    assert(w.p.z == c.p.z + t.offset.z);
                }
            }
        },
        None => {
            assert(Hittable::Translate(t).hit_spec(r, t_min, t_max) is None);
        },
    }
}

} // verus!
