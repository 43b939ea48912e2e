//! A homogeneous, isotropically-scattering volume bounded by an arbitrary
//! intersectable. The hit query lives with the other intersectables; this
//! module holds the data and its constructors, which register the isotropic
//! phase function in the scene's material arena.

use vstd::prelude::*;

verus! {

use crate::fixed::{fx_wf, fxdiv, fx_div, lemma_fdiv_neg_range, FX_ONE};
use crate::hit::Hittable;
use crate::material::{Isotropic, Material};
use crate::texture::{SolidColor, Texture};
use crate::vec3::Vec3;

pub struct ConstantMedium {
    pub boundary: Box<Hittable>,
    pub phase_function: usize,
    pub neg_inv_density: i64,
}

impl ConstantMedium {
    /// A medium of the given density whose phase function scatters with a
    /// solid color.
    pub fn new(b: Box<Hittable>, d: i64, c: Vec3, materials: &mut Vec<Material>) -> (r:
        ConstantMedium)
        requires
            fx_wf(d),
            d > 0,
            c.wf(),
        ensures
            r.boundary == b,
            r.neg_inv_density == fxdiv(-(FX_ONE as int), d as int),
            r.neg_inv_density < 0,
            fx_wf(r.neg_inv_density),
            r.phase_function == old(materials)@.len(),
            final(materials)@ == old(materials)@.push(
                Material::Isotropic(
                    Isotropic { albedo: Texture::SolidColor(SolidColor { color_value: c }) },
                ),
            ),
    {
        proof {
            lemma_fdiv_neg_range(-(FX_ONE as int) * (FX_ONE as int), d as int);
        }
        let phase = materials.len();
        materials.push(Material::Isotropic(Isotropic::new_with_color(c)));
        ConstantMedium { boundary: b, phase_function: phase, neg_inv_density: fx_div(-FX_ONE, d) }
    }

    /// A medium of the given density whose phase function scatters with an
    /// arbitrary texture.
    pub fn new_with_texture(b: Box<Hittable>, d: i64, a: Texture, materials: &mut Vec<Material>)
        -> (r: ConstantMedium)
        requires
            fx_wf(d),
            d > 0,
        ensures
            r.boundary == b,
            r.neg_inv_density == fxdiv(-(FX_ONE as int), d as int),
            r.neg_inv_density < 0,
            fx_wf(r.neg_inv_density),
            r.phase_function == old(materials)@.len(),
            final(materials)@ == old(materials)@.push(
                Material::Isotropic(Isotropic { albedo: a }),
            ),
    {
        proof {
            lemma_fdiv_neg_range(-(FX_ONE as int) * (FX_ONE as int), d as int);
        }
        let phase = materials.len();
        materials.push(Material::Isotropic(Isotropic::new(a)));
        ConstantMedium { boundary: b, phase_function: phase, neg_inv_density: fx_div(-FX_ONE, d) }
    }
}

} // verus!
