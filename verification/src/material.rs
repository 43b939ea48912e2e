//! Materials: the scattering and emission contract coupling a hit to a new
//! ray and an energy contribution.
//!
//! Scattering draws from the random source; the contracts pin everything
//! that does not depend on the draw exactly (attenuation, origin, time, the
//! no-scatter cases) and characterize the direction as a function of some
//! in-range draw.

use vstd::prelude::*;

verus! {

use crate::fixed::{
    fx_wf, fxadd, fxsub, fxmul, fxdiv, fxmin, fxabs, fxsqrt, fxclamp, fx_add, fx_sub, fx_mul,
    fx_div, fx_min, fx_abs, fx_sqrt, fx_clamp, fdiv, sat, FX_ONE,
};
use crate::hit::HitRecord;
use crate::ray::Ray;
use crate::rng::{rng_step, rng_unit, Rng};
use crate::texture::{SolidColor, Texture};
use crate::vec3::Vec3;

pub struct Lambertian {
    pub albedo: Texture,
}

pub struct Metal {
    pub albedo: Vec3,
    pub fuzz: i64,
}

pub struct Dielectric {
    pub ir: i64,
}

pub struct DiffuseLight {
    pub emit: Texture,
}

pub struct Isotropic {
    pub albedo: Texture,
}

/// Every material the renderer knows, as one closed sum type.
pub enum Material {
    Lambertian(Lambertian),
    Metal(Metal),
    Dielectric(Dielectric),
    DiffuseLight(DiffuseLight),
    Isotropic(Isotropic),
}

impl Lambertian {
    pub fn new(a: &Vec3) -> (r: Lambertian)
        ensures
            r.albedo == Texture::SolidColor(SolidColor { color_value: *a }),
    {
        Lambertian { albedo: Texture::SolidColor(SolidColor::new(a)) }
    }

    pub fn new_with_texture(a: Texture) -> (r: Lambertian)
        ensures
            r.albedo == a,
    {
        Lambertian { albedo: a }
    }
}

impl Metal {
    /// Roughness is clamped into `[0, 1]`.
    pub fn new(albedo: &Vec3, f: i64) -> (r: Metal)
        ensures
            r.albedo == *albedo,
            r.fuzz == fxclamp(f as int, 0, FX_ONE as int),
    {
        Metal { albedo: *albedo, fuzz: fx_clamp(f, 0, FX_ONE) }
    }
}

impl Dielectric {
    pub fn new(index_of_refraction: i64) -> (r: Dielectric)
        ensures
            r.ir == index_of_refraction,
    {
        Dielectric { ir: index_of_refraction }
    }

    /// Schlick's approximation: `r0 + (1 - r0)(1 - cos)^5` with
    /// `r0 = ((1 - n)/(1 + n))^2`.
    pub open spec fn spec_reflectance(cosine: int, ref_idx: int) -> int {
        let q = fxdiv(fxsub(FX_ONE as int, ref_idx), fxadd(FX_ONE as int, ref_idx));
        let r0 = fxmul(q, q);
        let omc = fxsub(FX_ONE as int, cosine);
        let p2 = fxmul(omc, omc);
        let p4 = fxmul(p2, p2);
        let p5 = fxmul(p4, omc);
        fxadd(r0, fxmul(fxsub(FX_ONE as int, r0), p5))
    }

    pub fn reflectance(cosine: i64, ref_idx: i64) -> (r: i64)
        requires
            fx_wf(cosine),
            fx_wf(ref_idx),
            ref_idx >= 0,
        ensures
            r == Self::spec_reflectance(cosine as int, ref_idx as int),
            fx_wf(r),
    {
        let q = fx_div(fx_sub(FX_ONE, ref_idx), fx_add(FX_ONE, ref_idx));
        let r0 = fx_mul(q, q);
        let omc = fx_sub(FX_ONE, cosine);
        let p2 = fx_mul(omc, omc);
        let p4 = fx_mul(p2, p2);
        let p5 = fx_mul(p4, omc);
        fx_add(r0, fx_mul(fx_sub(FX_ONE, r0), p5))
    }
}

impl DiffuseLight {
    pub fn new(a: Texture) -> (r: DiffuseLight)
        ensures
            r.emit == a,
    {
        DiffuseLight { emit: a }
    }

    pub fn new_with_color(c: Vec3) -> (r: DiffuseLight)
        ensures
            r.emit == Texture::SolidColor(SolidColor { color_value: c }),
    {
        DiffuseLight { emit: Texture::SolidColor(SolidColor::new(&c)) }
    }
}

impl Isotropic {
    pub fn new(a: Texture) -> (r: Isotropic)
        ensures
            r.albedo == a,
    {
        Isotropic { albedo: a }
    }

    pub fn new_with_color(c: Vec3) -> (r: Isotropic)
        ensures
            r.albedo == Texture::SolidColor(SolidColor { color_value: c }),
    {
        Isotropic { albedo: Texture::SolidColor(SolidColor::new(&c)) }
    }
}

/// The diffuse scatter direction: normal plus a unit-sphere sample, falling
/// back to the normal itself when the sum is degenerate.
pub open spec fn spec_lambert_dir(normal: Vec3, w: Vec3) -> Vec3 {
    let d = normal.spec_add(w);
    if d.spec_near_zero() {
        normal
    } else {
        d
    }
}

/// The metallic scatter direction: the unit incoming direction reflected
/// about the normal, perturbed by the roughness times a sphere sample.
pub open spec fn spec_metal_dir(din: Vec3, normal: Vec3, fuzz: i64, w: Vec3) -> Vec3 {
    din.spec_unit_vector().spec_reflect(normal).spec_add(w.spec_scale(fuzz))
}

/// The refraction ratio a dielectric uses: inverted when entering.
pub open spec fn spec_refraction_ratio(ir: i64, front_face: bool) -> int {
    if front_face {
        fxdiv(FX_ONE as int, ir as int)
    } else {
        ir as int
    }
}

/// The dielectric scatter direction for a given unit-interval draw. A unit
/// refraction ratio always refracts: equal indices bend nothing, so neither
/// total internal reflection nor a reflectance draw applies. Otherwise total
/// internal reflection forces a mirror bounce, and Schlick's reflectance is
/// compared against the draw.
pub open spec fn spec_dielectric_dir(ir: i64, din: Vec3, rec: HitRecord, draw: i64) -> Vec3 {
    let ratio = spec_refraction_ratio(ir, rec.front_face) as i64;
    let unit = din.spec_unit_vector();
    let cos_theta = fxmin(unit.spec_neg().spec_dot(rec.normal) as int, FX_ONE as int) as i64;
    let sin_theta = fxsqrt(fxabs(fxsub(FX_ONE as int, fxmul(cos_theta as int, cos_theta as int))))
        as i64;
    let cannot_refract = fxmul(ratio as int, sin_theta as int) > FX_ONE as int;
    if ratio == FX_ONE {
        unit.spec_refract(rec.normal, ratio)
    } else if cannot_refract || Dielectric::spec_reflectance(cos_theta as int, ratio as int)
        > draw as int {
        unit.spec_reflect(rec.normal)
    } else {
        unit.spec_refract(rec.normal, ratio)
    }
}

/// The scatter decision, as a mathematical function of the material, the
/// hit, the incoming ray and the random state, for materials whose textures
/// are pinned. The second component is the random state left behind.
pub open spec fn spec_scatter(m: Material, r_in: Ray, rec: HitRecord, seed: u64) -> (
    Option<(Vec3, Ray)>,
    u64,
) {
    match m {
        Material::Lambertian(l) => {
            let pair = Vec3::spec_sphere_draw(seed, Vec3::sphere_draw_tries());
            let sum = rec.normal.spec_add(pair.0.spec_unit_vector());
            let dir = if sum.spec_near_zero() {
                rec.normal
            } else {
                sum
            };
            (
                Some(
                    (
                        l.albedo.spec_value(rec.u, rec.v, rec.p),
                        Ray { origin: rec.p, dir, tm: r_in.tm },
                    ),
                ),
                pair.1,
            )
        },
        Material::Metal(mt) => {
            let pair = Vec3::spec_sphere_draw(seed, Vec3::sphere_draw_tries());
            let dir = spec_metal_dir(r_in.dir, rec.normal, mt.fuzz, pair.0);
            if dir.spec_dot(rec.normal) > 0 {
                (Some((mt.albedo, Ray { origin: rec.p, dir, tm: r_in.tm })), pair.1)
            } else {
                (None, pair.1)
            }
        },
        Material::Dielectric(d) => {
            let s1 = rng_step(seed);
            let dir = spec_dielectric_dir(d.ir, r_in.dir, rec, rng_unit(s1));
            (
                Some(
                    (
                        Vec3 { x: FX_ONE, y: FX_ONE, z: FX_ONE },
                        Ray { origin: rec.p, dir, tm: r_in.tm },
                    ),
                ),
                s1,
            )
        },
        Material::DiffuseLight(_) => (None, seed),
        Material::Isotropic(i) => {
            let pair = Vec3::spec_sphere_draw(seed, Vec3::sphere_draw_tries());
            (
                Some(
                    (
                        i.albedo.spec_value(rec.u, rec.v, rec.p),
                        Ray { origin: rec.p, dir: pair.0, tm: r_in.tm },
                    ),
                ),
                pair.1,
            )
        },
    }
}

impl Material {
    pub open spec fn wf(self) -> bool {
        match self {
            Material::Lambertian(l) => l.albedo.wf(),
            Material::Metal(m) => m.albedo.wf() && 0 <= m.fuzz <= FX_ONE,
            Material::Dielectric(d) => fx_wf(d.ir) && d.ir > 0,
            Material::DiffuseLight(d) => d.emit.wf(),
            Material::Isotropic(i) => i.albedo.wf(),
        }
    }

    /// Light contributed independent of any incoming ray: the emissive
    /// texture's value for lights, black for everything else.
    pub open spec fn spec_emitted(self, u: i64, v: i64, p: Vec3) -> Vec3 {
        match self {
            Material::DiffuseLight(d) => d.emit.spec_value(u, v, p),
            _ => Vec3::spec_zero(),
        }
    }

    /// Whether the scattered attenuation has an exact mirror: everything
    /// whose texture is pinned.
    pub open spec fn scatter_pinned(self) -> bool {
        match self {
            Material::Lambertian(l) => l.albedo.pinned(),
            Material::Isotropic(i) => i.albedo.pinned(),
            _ => true,
        }
    }

    /// Whether the emitted color has an exact mirror.
    pub open spec fn emit_pinned(self) -> bool {
        match self {
            Material::DiffuseLight(d) => d.emit.pinned(),
            _ => true,
        }
    }

    pub fn emitted(&self, u: i64, v: i64, p: &Vec3) -> (res: Vec3)
        requires
            self.wf(),
            fx_wf(u),
            fx_wf(v),
            p.wf(),
        ensures
            self.emit_pinned() ==> res == self.spec_emitted(u, v, *p),
            res.wf(),
    {
        match self {
            Material::DiffuseLight(d) => d.emit.value(u, v, p),
            _ => Vec3::new(0, 0, 0),
        }
    }

    /// Whether this material never scatters (pure light sources).
    pub open spec fn never_scatters(self) -> bool {
        self is DiffuseLight
    }

    /// Decide whether and how the hit re-emits a ray. The scattered ray
    /// always starts at the hit point with the incoming ray's time; its
    /// direction is characterized exactly as a function of some in-range
    /// draw; attenuations from pinned textures are pinned too.
    pub fn scatter(&self, r_in: &Ray, rec: &HitRecord, rng: &mut Rng) -> (res: Option<(Vec3, Ray)>)
        requires
            self.wf(),
            r_in.wf(),
            rec.wf(),
        ensures
            self.never_scatters() ==> res is None,
            self.scatter_pinned() ==> (res, final(rng).state) == spec_scatter(
                *self,
                *r_in,
                *rec,
                old(rng).state,
            ),
            match res {
                Some(pair) => pair.0.wf() && pair.1.wf() && pair.1.origin == rec.p && pair.1.tm
                    == r_in.tm,
                None => true,
            },
            match *self {
                Material::Lambertian(l) => res is Some && (l.albedo.pinned() ==> res->Some_0.0
                    == l.albedo.spec_value(rec.u, rec.v, rec.p)) && (exists|w: Vec3|
                    w.wf() && w.spec_length_squared() < FX_ONE && #[trigger] res->Some_0.1.dir
                        == spec_lambert_dir(rec.normal, w.spec_unit_vector())),
                Material::Metal(m) => (match res {
                    Some(pair) => pair.0 == m.albedo && (exists|w: Vec3|
                        w.wf() && w.spec_length_squared() < FX_ONE && #[trigger] pair.1.dir
                            == spec_metal_dir(r_in.dir, rec.normal, m.fuzz, w)) && pair.1.dir.spec_dot(
                        rec.normal,
                    ) > 0,
                    None => exists|w: Vec3|
                        w.wf() && w.spec_length_squared() < FX_ONE && (#[trigger] spec_metal_dir(
                            r_in.dir,
                            rec.normal,
                            m.fuzz,
                            w,
                        )).spec_dot(rec.normal) <= 0,
                }),
                Material::Dielectric(d) => res is Some && res->Some_0.0 == (Vec3 {
                    x: FX_ONE,
                    y: FX_ONE,
                    z: FX_ONE,
                }) && (exists|draw: i64|
                    0 <= draw < FX_ONE && #[trigger] res->Some_0.1.dir == spec_dielectric_dir(
                        d.ir,
                        r_in.dir,
                        *rec,
                        draw,
                    )),
                Material::DiffuseLight(_) => res is None,
                Material::Isotropic(i) => res is Some && (i.albedo.pinned() ==> res->Some_0.0
                    == i.albedo.spec_value(rec.u, rec.v, rec.p)) && (exists|w: Vec3|
                    w.wf() && w.spec_length_squared() < FX_ONE && #[trigger] res->Some_0.1.dir
                        == w),
            },
    {
        match self {
            Material::Lambertian(l) => {
                let w = Vec3::random_in_unit_sphere(rng);
                let uw = w.unit_vector();
                let sum = rec.normal.add(&uw);
                let scatter_direction = if sum.near_zero() {
                    rec.normal
                } else {
                    sum
                };
                let scattered = Ray::new(&rec.p, &scatter_direction, r_in.tm);
                let attenuation = l.albedo.value(rec.u, rec.v, &rec.p);
                proof {
                    assert(exists|w0: Vec3|
                        w0.wf() && w0.spec_length_squared() < FX_ONE && #[trigger] scattered.dir
                            == spec_lambert_dir(rec.normal, w0.spec_unit_vector())) by {
                        assert(w.wf() && w.spec_length_squared() < FX_ONE && scattered.dir
                            == spec_lambert_dir(rec.normal, w.spec_unit_vector()));
                    }
                }
                Some((attenuation, scattered))
            },
            Material::Metal(m) => {
                let reflected = r_in.dir.unit_vector().reflect(&rec.normal);
                let w = Vec3::random_in_unit_sphere(rng);
                let dir = reflected.add(&w.scale(m.fuzz));
                let scattered = Ray::new(&rec.p, &dir, r_in.tm);
                let attenuation = m.albedo;
                if scattered.dir.dot(&rec.normal) > 0 {
                    proof {
                        assert(exists|w0: Vec3|
                            w0.wf() && w0.spec_length_squared() < FX_ONE && #[trigger] scattered.dir
                                == spec_metal_dir(r_in.dir, rec.normal, m.fuzz, w0)) by {
                            assert(w.wf() && w.spec_length_squared() < FX_ONE && scattered.dir
                                == spec_metal_dir(r_in.dir, rec.normal, m.fuzz, w));
                        }
                    }
                    Some((attenuation, scattered))
                } else {
                    proof {
                        assert(exists|w0: Vec3|
                            w0.wf() && w0.spec_length_squared() < FX_ONE && (#[trigger] spec_metal_dir(
                                r_in.dir,
                                rec.normal,
                                m.fuzz,
                                w0,
                            )).spec_dot(rec.normal) <= 0) by {
                            assert(w.wf() && w.spec_length_squared() < FX_ONE && spec_metal_dir(
                                r_in.dir,
                                rec.normal,
                                m.fuzz,
                                w,
                            ).spec_dot(rec.normal) <= 0);
                        }
                    }
                    None
                }
            },
            Material::Dielectric(d) => {
                let attenuation = Vec3::new(FX_ONE, FX_ONE, FX_ONE);
                let refraction_ratio = if rec.front_face {
                    fx_div(FX_ONE, d.ir)
                } else {
                    d.ir
                };
                let unit_direction = r_in.dir.unit_vector();
                let cos_theta = fx_min(unit_direction.neg().dot(&rec.normal), FX_ONE);
                let sin_theta = fx_sqrt(fx_abs(fx_sub(FX_ONE, fx_mul(cos_theta, cos_theta))));
                let cannot_refract = fx_mul(refraction_ratio, sin_theta) > FX_ONE;
                let draw = rng.next_unit();
                let direction = if refraction_ratio == FX_ONE {
                    // Equal indices bend nothing: a unit ratio always
                    // refracts, whatever the reflectance draw says.
                    unit_direction.refract(&rec.normal, refraction_ratio)
                } else if cannot_refract || Dielectric::reflectance(
                    cos_theta,
                    refraction_ratio,
                ) > draw {
                    unit_direction.reflect(&rec.normal)
                } else {
                    unit_direction.refract(&rec.normal, refraction_ratio)
                };
                let scattered = Ray::new(&rec.p, &direction, r_in.tm);
                proof {
                    assert(exists|d0: i64|
                        0 <= d0 < FX_ONE && #[trigger] scattered.dir == spec_dielectric_dir(
                            d.ir,
                            r_in.dir,
                            *rec,
                            d0,
                        )) by {
                        assert(0 <= draw < FX_ONE && scattered.dir == spec_dielectric_dir(
                            d.ir,
                            r_in.dir,
                            *rec,
                            draw,
                        ));
                    }
                }
                Some((attenuation, scattered))
            },
            Material::DiffuseLight(_) => None,
            Material::Isotropic(i) => {
                let w = Vec3::random_in_unit_sphere(rng);
                let scattered = Ray::new(&rec.p, &w, r_in.tm);
                let attenuation = i.albedo.value(rec.u, rec.v, &rec.p);
                proof {
                    assert(exists|w0: Vec3|
                        w0.wf() && w0.spec_length_squared() < FX_ONE && #[trigger] scattered.dir
                            == w0) by {
                        assert(w.wf() && w.spec_length_squared() < FX_ONE && scattered.dir == w);
                    }
                }
                Some((attenuation, scattered))
            },
        }
    }
}

/// A perfectly sharp metal (zero roughness) reflects exactly about the
/// normal: whatever sphere sample perturbs the bounce, the scattered
/// direction is the reflection of the unit incoming direction.
pub proof fn lemma_metal_sharp_reflects(din: Vec3, normal: Vec3, w: Vec3)
    requires
        din.wf(),
        normal.wf(),
        w.wf(),
    ensures
        spec_metal_dir(din, normal, 0, w) == din.spec_unit_vector().spec_reflect(normal),
{
    let reflected = din.spec_unit_vector().spec_reflect(normal);
    assert(w.spec_scale(0) == Vec3::spec_zero()) by {
        crate::fixed::lemma_fxmul_zero(w.x as int);
        crate::fixed::lemma_fxmul_zero(w.y as int);
        crate::fixed::lemma_fxmul_zero(w.z as int);
    }
    assert(reflected.wf());
    assert(reflected.spec_add(Vec3::spec_zero()) == reflected);
}

/// A dielectric with index of refraction one always refracts, whatever the
/// reflectance draw and from either side of the surface.
pub proof fn lemma_dielectric_unit_index_refracts(din: Vec3, rec: HitRecord, draw: i64)
    ensures
        spec_dielectric_dir(FX_ONE, din, rec, draw) == din.spec_unit_vector().spec_refract(
            rec.normal,
            FX_ONE,
        ),
{
    lemma_unit_refraction_ratio(rec.front_face);
}

/// The refraction ratio of a unit index of refraction is one on both sides
/// of a surface.
proof fn lemma_unit_refraction_ratio(front_face: bool)
    ensures
        spec_refraction_ratio(FX_ONE, front_face) == FX_ONE as int,
{
    if front_face {
        vstd::arithmetic::div_mod::lemma_div_multiples_vanish(FX_ONE as int, FX_ONE as int);
        assert(fxdiv(FX_ONE as int, FX_ONE as int) == sat(
            fdiv(FX_ONE as int * FX_ONE as int, FX_ONE as int),
        ));
    }
}

/// A head-on hit on a dielectric of unit index refracts into a ray exactly
/// collinear with the incoming one, whatever the reflectance draw.
pub proof fn lemma_dielectric_head_on_collinear(din: Vec3, rec: HitRecord, draw: i64)
    requires
        din.wf(),
        rec.normal == din.spec_unit_vector().spec_neg(),
        din.spec_unit_vector().spec_neg().spec_dot(rec.normal) >= FX_ONE,
        0 <= draw < FX_ONE,
    ensures
        spec_dielectric_dir(FX_ONE, din, rec, draw) == din.spec_unit_vector(),
{
    lemma_unit_refraction_ratio(rec.front_face);
    let unit = din.spec_unit_vector();
    let n = rec.normal;
    assert(unit.wf()) by {
        assert(fx_wf(unit.x) && fx_wf(unit.y) && fx_wf(unit.z));
    }
    let cos_theta = fxmin(unit.spec_neg().spec_dot(n) as int, FX_ONE as int) as i64;
    assert(cos_theta == FX_ONE);
    // Schlick's reflectance vanishes at unit index and head-on incidence.
    assert(Dielectric::spec_reflectance(FX_ONE as int, FX_ONE as int) == 0) by {
        assert(fxsub(FX_ONE as int, FX_ONE as int) == 0);
        assert(fxdiv(0, fxadd(FX_ONE as int, FX_ONE as int)) == 0) by {
            assert(fdiv(0, 2 * FX_ONE as int) == 0);
        }
        crate::fixed::lemma_fxmul_zero(0);
        crate::fixed::lemma_fxmul_zero(fxsub(FX_ONE as int, 0));
        assert(fxmul(fxsub(FX_ONE as int, 0), 0) == 0);
    }
    // No total internal reflection at unit index and unit cosine.
    assert(fxmul(FX_ONE as int, fxsqrt(fxabs(fxsub(FX_ONE as int, fxmul(FX_ONE as int, FX_ONE as int)))))
        <= FX_ONE as int) by {
        vstd::arithmetic::div_mod::lemma_div_multiples_vanish(FX_ONE as int, FX_ONE as int);
        assert(fxmul(FX_ONE as int, FX_ONE as int) == FX_ONE as int);
        assert(fxsub(FX_ONE as int, FX_ONE as int) == 0);
        assert(fxsqrt(0) == 0) by {
            crate::fixed::lemma_sqrt_floor(0);
            assert(crate::fixed::sqrt_floor(0) == 0);
        }
        crate::fixed::lemma_fxmul_zero(FX_ONE as int);
    }
    // The refracted direction collapses to the unit incoming direction.
    assert(n.spec_scale(FX_ONE) == n) by {
        lemma_scale_one(n);
    }
    assert(unit.spec_add(n) == Vec3::spec_zero()) by {
        assert(n.x == -unit.x && n.y == -unit.y && n.z == -unit.z);
        assert(fxadd(unit.x as int, n.x as int) == 0);
        assert(fxadd(unit.y as int, n.y as int) == 0);
        assert(fxadd(unit.z as int, n.z as int) == 0);
    }
    assert(Vec3::spec_zero().spec_scale(FX_ONE) == Vec3::spec_zero()) by {
        lemma_scale_one(Vec3::spec_zero());
    }
    let perp = unit.spec_add(n.spec_scale(cos_theta)).spec_scale(FX_ONE);
    assert(perp == Vec3::spec_zero());
    assert(perp.spec_length_squared() == 0) by {
        crate::fixed::lemma_fxmul_zero(0);
        assert(fxadd(0, 0) == 0);
    }
    assert(fxsub(FX_ONE as int, 0) == FX_ONE as int);
    assert(fxabs(FX_ONE as int) == FX_ONE as int);
    assert(fxsqrt(FX_ONE as int) == FX_ONE as int) by {
        crate::fixed::lemma_sqrt_floor(FX_ONE as int * FX_ONE as int);
        assert((FX_ONE as int) * (FX_ONE as int) <= FX_ONE as int * FX_ONE as int);
        assert(crate::fixed::sqrt_floor(FX_ONE as int * FX_ONE as int) == FX_ONE as int) by {
            crate::fixed::lemma_sqrt_square(FX_ONE as int);
        }
    }
    assert(n.spec_scale((-FX_ONE) as i64) == unit) by {
        lemma_scale_neg_one(n);
        assert(-n.x == unit.x && -n.y == unit.y && -n.z == unit.z);
    }
    assert(perp.spec_add(unit) == unit) by {
        assert(fxadd(0, unit.x as int) == unit.x as int);
        assert(fxadd(0, unit.y as int) == unit.y as int);
        assert(fxadd(0, unit.z as int) == unit.z as int);
    }
}

/// Scaling by one is the identity on well-formed vectors.
proof fn lemma_scale_one(v: Vec3)
    requires
        v.wf(),
    ensures
        v.spec_scale(FX_ONE) == v,
{
    vstd::arithmetic::div_mod::lemma_div_multiples_vanish(v.x as int, FX_ONE as int);
    vstd::arithmetic::div_mod::lemma_div_multiples_vanish(v.y as int, FX_ONE as int);
    vstd::arithmetic::div_mod::lemma_div_multiples_vanish(v.z as int, FX_ONE as int);
    assert(v.x as int * FX_ONE as int == FX_ONE as int * v.x as int) by (nonlinear_arith);
    assert(v.y as int * FX_ONE as int == FX_ONE as int * v.y as int) by (nonlinear_arith);
    assert(v.z as int * FX_ONE as int == FX_ONE as int * v.z as int) by (nonlinear_arith);
}

/// Scaling by minus one negates every component of a well-formed vector.
proof fn lemma_scale_neg_one(v: Vec3)
    requires
        v.wf(),
    ensures
        v.spec_scale((-FX_ONE) as i64) == v.spec_neg(),
{
    crate::fixed::lemma_fdiv_signs(v.x as int * -(FX_ONE as int), FX_ONE as int);
    crate::fixed::lemma_fdiv_signs(v.y as int * -(FX_ONE as int), FX_ONE as int);
    crate::fixed::lemma_fdiv_signs(v.z as int * -(FX_ONE as int), FX_ONE as int);
    lemma_scale_one(v);
    assert(fxmul(v.x as int, -(FX_ONE as int)) == -(v.x as int)) by {
        lemma_mul_neg_one(v.x as int);
    }
    assert(fxmul(v.y as int, -(FX_ONE as int)) == -(v.y as int)) by {
        lemma_mul_neg_one(v.y as int);
    }
    assert(fxmul(v.z as int, -(FX_ONE as int)) == -(v.z as int)) by {
        lemma_mul_neg_one(v.z as int);
    }
}

proof fn lemma_mul_neg_one(a: int)
    requires
        -(crate::fixed::FX_MAX as int) <= a <= crate::fixed::FX_MAX as int,
    ensures
        fxmul(a, -(FX_ONE as int)) == -a,
{
    let s = FX_ONE as int;
    assert(a * (-s) == -(a * s)) by (nonlinear_arith);
    if a >= 0 {
        assert(a * s >= 0) by (nonlinear_arith)
            requires
                a >= 0,
                s > 0,
        ;
        crate::fixed::lemma_neg_div(a * s, s);
        vstd::arithmetic::div_mod::lemma_mod_multiples_basic(a, s);
        assert(a * s == s * a) by (nonlinear_arith);
        vstd::arithmetic::div_mod::lemma_div_multiples_vanish(a, s);
    } else {
        assert(-(a * s) == (-a) * s) by (nonlinear_arith);
        assert((-a) * s == s * (-a)) by (nonlinear_arith);
        vstd::arithmetic::div_mod::lemma_div_multiples_vanish(-a, s);
    }
}



} // verus!
