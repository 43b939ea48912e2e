//! An offline path tracer over exact fixed-point arithmetic.
//!
//! Geometry, materials and the light-transport integrator are all written
//! against a saturating fixed-point scalar, so every deterministic function
//! in this crate has an exact mathematical mirror that Verus checks the
//! executable code against; the stochastic parts (diffuse sampling,
//! reflectance draws, free-flight sampling) are characterized over every
//! possible draw from an explicit random source.

pub mod aabb;
pub mod box_shape;
pub mod bvh;
pub mod camera;
pub mod color;
pub mod constant_medium;
pub mod fixed;
pub mod hit;
pub mod material;
pub mod moving_sphere;
pub mod perlin;
pub mod texture;
pub mod ray;
pub mod rect;
pub mod rotate;
pub mod sphere;
pub mod translate;
pub mod rng;
pub mod trig;
pub mod vec3;

use vstd::prelude::*;

verus! {

use crate::fixed::{FX_MAX};
use crate::hit::Hittable;
use crate::material::{spec_scatter, Material};
use crate::ray::Ray;
use crate::rng::Rng;
use crate::vec3::Vec3;

/// The lower ray-parameter bound every scene query starts from, avoiding
/// self-intersection at the surface just left.
pub const T_MIN_FX: i64 = 65;

/// Every material in the arena is well-formed.
pub open spec fn spec_mats_wf(mats: Seq<Material>) -> bool {
    forall|i: int| 0 <= i < mats.len() ==> (#[trigger] mats[i]).wf()
}

/// Every material in the arena has exactly mirrored scattering and emission.
pub open spec fn spec_mats_pinned(mats: Seq<Material>) -> bool {
    forall|i: int|
        0 <= i < mats.len() ==> (#[trigger] mats[i]).scatter_pinned() && mats[i].emit_pinned()
}

/// The integrator, as a mathematical function of the scene, the ray, the
/// bounce budget and the random state, for deterministic scenes over pinned
/// materials: emission plus the attenuated radiance of the scattered ray,
/// the background on a miss, black at exhausted depth. The second component
/// is the random state left behind.
pub open spec fn spec_ray_color(
    r: Ray,
    background: Vec3,
    world: Hittable,
    mats: Seq<Material>,
    depth: int,
    seed: u64,
) -> (Vec3, u64)
    decreases depth,
{
    if depth <= 0 {
        (Vec3::spec_zero(), seed)
    } else {
        match world.hit_spec(r, T_MIN_FX, FX_MAX) {
            None => (background, seed),
            Some(rec) => {
                if rec.mat >= mats.len() {
                    (Vec3::spec_zero(), seed)
                } else {
                    let m = mats[rec.mat as int];
                    let emitted = m.spec_emitted(rec.u, rec.v, rec.p);
                    match spec_scatter(m, r, rec, seed) {
                        (None, s1) => (emitted, s1),
                        (Some(pair), s1) => {
                            let rest = spec_ray_color(
                                pair.1,
                                background,
                                world,
                                mats,
                                depth - 1,
                                s1,
                            );
                            (emitted.spec_add(pair.0.spec_mul(rest.0)), rest.1)
                        },
                    }
                }
            },
        }
    }
}

/// The recursive light-transport integrator.
///
/// Exhausted depth contributes black; a ray that escapes the scene
/// contributes the background; a hit contributes its material's emission,
/// plus, if the material scatters, the attenuated radiance of the scattered
/// ray. For deterministic scenes the miss case and the pure-light case are
/// pinned exactly.
pub fn ray_color(
    r: &Ray,
    background: &Vec3,
    world: &Hittable,
    materials: &Vec<Material>,
    depth: i32,
    rng: &mut Rng,
) -> (res: Vec3)
    requires
        r.wf(),
        background.wf(),
        world.wf(),
        world.spec_mats_ok(materials@.len() as int),
        spec_mats_wf(materials@),
    ensures
        res.wf(),
        depth <= 0 ==> res == Vec3::spec_zero(),
        (depth > 0 && world.deterministic() && world.hit_spec(*r, T_MIN_FX, FX_MAX) is None)
            ==> res == *background,
        (depth > 0 && world.deterministic()) ==> (match world.hit_spec(*r, T_MIN_FX, FX_MAX) {
            Some(rec) => (rec.mat < materials@.len() && materials@[
                rec.mat as int
            ].never_scatters() && materials@[rec.mat as int].emit_pinned()) ==> res == materials@[
                rec.mat as int
            ].spec_emitted(rec.u, rec.v, rec.p),
            None => true,
        }),
        (world.deterministic() && spec_mats_pinned(materials@)) ==> (res, final(rng).state)
            == spec_ray_color(
            *r,
            *background,
            *world,
            materials@,
            depth as int,
            old(rng).state,
        ),
    decreases depth,
{
    if depth <= 0 {
        return Vec3::new(0, 0, 0);
    }
    let hit = world.hit(r, T_MIN_FX, FX_MAX, rng);
    match hit {
        None => *background,
        Some(rec) => {
            proof {
                assert(rec.mat < materials@.len());
                assert(materials@[rec.mat as int].wf());
            }
            let m = &materials[rec.mat];
            let emitted = m.emitted(rec.u, rec.v, &rec.p);
            let scattered = m.scatter(r, &rec, rng);
            match scattered {
                None => emitted,
                Some((attenuation, sc)) => {
                    let rest = ray_color(&sc, background, world, materials, depth - 1, rng);
                    emitted.add(&attenuation.mul(&rest))
                },
            }
        },
    }
}

} // verus!
