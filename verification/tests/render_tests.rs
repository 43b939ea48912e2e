//! Materials, textures, the integrator, the camera and color output.

use pathtracer::camera::Camera;
use pathtracer::color::Color;
use pathtracer::constant_medium::ConstantMedium;
use pathtracer::fixed::{FX_MAX, FX_ONE};
use pathtracer::hit::{HitRecord, Hittable, HittableList};
use pathtracer::material::{
    Dielectric, DiffuseLight, Isotropic, Lambertian, Material, Metal,
};
use pathtracer::perlin::Perlin;
use pathtracer::ray::Ray;
use pathtracer::ray_color;
use pathtracer::rng::Rng;
use pathtracer::sphere::Sphere;
use pathtracer::texture::{CheckerTexture, ImageTexture, NoiseTexture, SolidColor, Texture};
use pathtracer::trig::{fx_cos_deg, fx_ln_unit, fx_sin_deg};
use pathtracer::vec3::Vec3;

fn fx(whole: i64) -> i64 {
    whole * FX_ONE
}

fn head_on_record() -> HitRecord {
    HitRecord {
        p: Vec3::new(0, 0, fx(-1)),
        normal: Vec3::new(0, 0, FX_ONE),
        mat: 0,
        t: FX_ONE,
        u: 0,
        v: 0,
        front_face: true,
    }
}

/// At depth zero the integrator contributes black, whatever the scene.
#[test]
fn radiance_depth_zero_is_black() {
    let world = Hittable::Sphere(Sphere::new(Vec3::new(0, 0, fx(-2)), fx(1), 0));
    let mats = vec![Material::Lambertian(Lambertian::new(&Vec3::new(32768, 32768, 32768)))];
    let background = Vec3::new(32768, 45875, FX_ONE);
    let r = Ray::new(&Vec3::new(0, 0, 0), &Vec3::new(0, 0, -FX_ONE), 0);
    let mut rng = Rng::new(1);
    let c = ray_color(&r, &background, &world, &mats, 0, &mut rng);
    assert!(c == Vec3::new(0, 0, 0));
}

/// A ray that hits nothing contributes exactly the background color.
#[test]
fn radiance_miss_is_background() {
    let world = Hittable::Sphere(Sphere::new(Vec3::new(0, 0, fx(-200)), fx(1), 0));
    let mats = vec![Material::Lambertian(Lambertian::new(&Vec3::new(32768, 32768, 32768)))];
    let background = Vec3::new(32768, 45875, FX_ONE);
    let r = Ray::new(&Vec3::new(0, 0, 0), &Vec3::new(0, FX_ONE, 0), 0);
    let mut rng = Rng::new(1);
    let c = ray_color(&r, &background, &world, &mats, 50, &mut rng);
    assert!(c == background);
}

/// A light hit directly, with no further bounce, contributes exactly its
/// emitted color.
#[test]
fn radiance_light_is_emitted() {
    let world = Hittable::Sphere(Sphere::new(Vec3::new(0, 0, fx(-2)), fx(1), 0));
    let mats = vec![Material::DiffuseLight(DiffuseLight::new_with_color(Vec3::new(
        fx(4),
        fx(4),
        fx(4),
    )))];
    let background = Vec3::new(0, 0, 0);
    let r = Ray::new(&Vec3::new(0, 0, 0), &Vec3::new(0, 0, -FX_ONE), 0);
    let mut rng = Rng::new(1);
    let c = ray_color(&r, &background, &world, &mats, 50, &mut rng);
    assert!(c == Vec3::new(fx(4), fx(4), fx(4)));
}

/// A sharp metal reflects exactly about the normal.
#[test]
fn metal_sharp_reflection_exact() {
    let m = Material::Metal(Metal::new(&Vec3::new(52428, 52428, 58982), 0));
    let rec = head_on_record();
    let r_in = Ray::new(&Vec3::new(0, 0, 0), &Vec3::new(0, 0, -FX_ONE), 0);
    let mut rng = Rng::new(9);
    let (att, sc) = m.scatter(&r_in, &rec, &mut rng).expect("must scatter");
    assert!(att == Vec3::new(52428, 52428, 58982));
    assert!(sc.dir == Vec3::new(0, 0, FX_ONE));
    assert!(sc.origin == rec.p);
}

/// A metal scatter pointing into the surface is rejected.
#[test]
fn metal_grazing_absorbed() {
    let m = Material::Metal(Metal::new(&Vec3::new(52428, 52428, 58982), 0));
    let mut rec = head_on_record();
    rec.normal = Vec3::new(0, 0, -FX_ONE);
    let r_in = Ray::new(&Vec3::new(0, 0, 0), &Vec3::new(0, 0, -FX_ONE), 0);
    let mut rng = Rng::new(9);
    assert!(m.scatter(&r_in, &rec, &mut rng).is_none());
}

/// A dielectric with unit index refracts a head-on ray into a collinear one,
/// with fully transparent attenuation, for any draw.
#[test]
fn dielectric_unit_index_collinear() {
    let m = Material::Dielectric(Dielectric::new(FX_ONE));
    let rec = head_on_record();
    let r_in = Ray::new(&Vec3::new(0, 0, 0), &Vec3::new(0, 0, -FX_ONE), 0);
    let mut seed: u64 = 0;
    while seed < 32 {
        let mut rng = Rng::new(seed);
        let (att, sc) = m.scatter(&r_in, &rec, &mut rng).expect("must scatter");
        assert!(att == Vec3::new(FX_ONE, FX_ONE, FX_ONE));
        assert!(sc.dir == Vec3::new(0, 0, -FX_ONE));
        seed += 1;
    }
}

/// A light never scatters.
#[test]
fn diffuse_light_never_scatters() {
    let m = Material::DiffuseLight(DiffuseLight::new_with_color(Vec3::new(fx(4), fx(4), fx(4))));
    let rec = head_on_record();
    let r_in = Ray::new(&Vec3::new(0, 0, 0), &Vec3::new(0, 0, -FX_ONE), 0);
    let mut rng = Rng::new(1);
    assert!(m.scatter(&r_in, &rec, &mut rng).is_none());
}

/// A diffuse surface always scatters, from the hit point, attenuated by its
/// texture.
#[test]
fn lambertian_always_scatters() {
    let m = Material::Lambertian(Lambertian::new(&Vec3::new(32768, 16384, 8192)));
    let rec = head_on_record();
    let r_in = Ray::new(&Vec3::new(0, 0, 0), &Vec3::new(0, 0, -FX_ONE), 0);
    let mut rng = Rng::new(77);
    let (att, sc) = m.scatter(&r_in, &rec, &mut rng).expect("must scatter");
    assert!(att == Vec3::new(32768, 16384, 8192));
    assert!(sc.origin == rec.p);
    assert_eq!(sc.time(), 0);
}

/// A medium whose boundary the ray misses reports no hit; one whose boundary
/// it crosses scatters somewhere inside the crossing interval.
#[test]
fn constant_medium_behavior() {
    let mut mats: Vec<Material> = Vec::new();
    let boundary = Hittable::Sphere(Sphere::new(Vec3::new(0, 0, fx(-10)), fx(2), 0));
    let medium = Hittable::ConstantMedium(ConstantMedium::new(
        Box::new(boundary),
        fx(1),
        Vec3::new(FX_ONE, FX_ONE, FX_ONE),
        &mut mats,
    ));
    assert_eq!(mats.len(), 1);
    let miss = Ray::new(&Vec3::new(0, 0, 0), &Vec3::new(0, FX_ONE, 0), 0);
    let mut rng = Rng::new(11);
    assert!(medium.hit(&miss, 65, FX_MAX, &mut rng).is_none());
    let through = Ray::new(&Vec3::new(0, 0, 0), &Vec3::new(0, 0, -FX_ONE), 0);
    let mut any_hit = false;
    let mut seed: u64 = 0;
    while seed < 64 {
        let mut rng2 = Rng::new(seed);
        if let Some(rec) = medium.hit(&through, 65, FX_MAX, &mut rng2) {
            assert!(rec.t >= fx(8) && rec.t <= fx(12));
            assert!(rec.front_face);
            assert_eq!(rec.mat, 0);
            any_hit = true;
        }
        seed += 1;
    }
    assert!(any_hit);
}

/// Solid, checker and image textures evaluate exactly.
#[test]
fn texture_values() {
    let solid = Texture::SolidColor(SolidColor::new_with_values(fx(1), 32768, 0));
    assert!(solid.value(0, 0, &Vec3::new(0, 0, 0)) == Vec3::new(fx(1), 32768, 0));

    let checker = Texture::CheckerTexture(CheckerTexture::new_with_color(
        &Vec3::new(FX_ONE, 0, 0),
        &Vec3::new(0, FX_ONE, 0),
    ));
    // At the origin every sine is zero, which selects the even color.
    assert!(checker.value(0, 0, &Vec3::new(0, 0, 0)) == Vec3::new(FX_ONE, 0, 0));

    let image = Texture::ImageTexture(ImageTexture::new(vec![10, 20, 30], 1, 1));
    let texel = image.value(0, 0, &Vec3::new(0, 0, 0));
    assert!(texel == Vec3::new(10 * 257, 20 * 257, 30 * 257));

    let empty = Texture::ImageTexture(ImageTexture::new(Vec::new(), 0, 0));
    assert!(empty.value(0, 0, &Vec3::new(0, 0, 0)) == Vec3::new(0, FX_ONE, FX_ONE));
}

/// Noise evaluation is deterministic in the tables and stays in range.
#[test]
fn noise_texture_deterministic() {
    let mut rng = Rng::new(2024);
    let noise = Texture::NoiseTexture(NoiseTexture::new(fx(4), Perlin::new(&mut rng)));
    let p = Vec3::new(fx(1) / 3, fx(2) / 7, fx(-3) / 5);
    let a = noise.value(0, 0, &p);
    let b = noise.value(0, 0, &p);
    assert!(a == b);
}

/// The color line: full red resolves to 255, a quarter green to 128 after
/// gamma correction, zero to 0.
#[test]
fn color_repr_line() {
    let c = Vec3::new(FX_ONE, FX_ONE / 4, 0);
    let line = c.as_color_repr(1);
    assert_eq!(line.as_str(), "255 128 0\n");
}

/// Averaging over samples divides the accumulated color down.
#[test]
fn color_repr_scales_by_samples() {
    let c = Vec3::new(fx(4), 0, 0);
    let line = c.as_color_repr(4);
    assert_eq!(line.as_str(), "255 0 0\n");
}

/// The same seed replays the same draws.
#[test]
fn rng_deterministic() {
    let mut a = Rng::new(123);
    let mut b = Rng::new(123);
    let mut i = 0;
    while i < 16 {
        assert_eq!(a.next_unit(), b.next_unit());
        i += 1;
    }
    let u = a.next_unit();
    assert!(0 <= u && u < FX_ONE);
}

/// With a closed shutter interval and no aperture, camera rays start at the
/// camera origin at the shutter time.
#[test]
fn camera_pinhole_ray() {
    let cam = Camera::new(
        &Vec3::new(0, 0, 0),
        &Vec3::new(0, 0, -FX_ONE),
        &Vec3::new(0, FX_ONE, 0),
        fx(90),
        FX_ONE,
        0,
        fx(1),
        0,
        0,
    );
    let mut rng = Rng::new(8);
    let r = cam.get_ray(32768, 32768, &mut rng);
    assert!(r.origin == Vec3::new(0, 0, 0));
    assert_eq!(r.time(), 0);
}

/// An isotropic phase function scatters from the hit point with its texture.
#[test]
fn isotropic_scatters_from_point() {
    let m = Material::Isotropic(Isotropic::new_with_color(Vec3::new(16384, 16384, 16384)));
    let rec = head_on_record();
    let r_in = Ray::new(&Vec3::new(0, 0, 0), &Vec3::new(0, 0, -FX_ONE), 0);
    let mut rng = Rng::new(5);
    let (att, sc) = m.scatter(&r_in, &rec, &mut rng).expect("must scatter");
    assert!(att == Vec3::new(16384, 16384, 16384));
    assert!(sc.origin == rec.p);
}

/// The integrator composes emission and attenuation: a mirror bounce into a
/// light gathers the light's color through the metal's attenuation.
#[test]
fn radiance_one_bounce_through_mirror() {
    let mut list = HittableList::new();
    // A sharp mirror facing the ray, and a light placed where the
    // reflection goes.
    list.add(Hittable::Sphere(Sphere::new(Vec3::new(0, 0, fx(-2)), fx(1), 0)));
    list.add(Hittable::Sphere(Sphere::new(Vec3::new(0, 0, fx(4)), fx(1), 1)));
    let world = Hittable::List(list);
    let mats = vec![
        Material::Metal(Metal::new(&Vec3::new(32768, 32768, 32768), 0)),
        Material::DiffuseLight(DiffuseLight::new_with_color(Vec3::new(fx(2), fx(2), fx(2)))),
    ];
    let background = Vec3::new(0, 0, 0);
    let r = Ray::new(&Vec3::new(0, 0, 0), &Vec3::new(0, 0, -FX_ONE), 0);
    let mut rng = Rng::new(31);
    let c = ray_color(&r, &background, &world, &mats, 5, &mut rng);
    // Half of (2,2,2) through the mirror's attenuation of one half.
    assert!(c == Vec3::new(FX_ONE, FX_ONE, FX_ONE));
}

/// Sine and cosine in degrees are exact at quadrant turns.
#[test]
fn trig_quadrants_exact() {
    assert_eq!(fx_sin_deg(0), 0);
    assert_eq!(fx_cos_deg(0), FX_ONE);
    assert_eq!(fx_sin_deg(fx(90)), FX_ONE);
    assert_eq!(fx_cos_deg(fx(90)), 0);
    assert_eq!(fx_sin_deg(fx(180)), 0);
    assert_eq!(fx_cos_deg(fx(180)), -FX_ONE);
    assert_eq!(fx_sin_deg(fx(270)), -FX_ONE);
    assert_eq!(fx_cos_deg(fx(270)), 0);
    assert_eq!(fx_sin_deg(fx(360)), 0);
    assert_eq!(fx_cos_deg(fx(360)), FX_ONE);
}

/// Negative accumulated components clamp to zero in the output line.
#[test]
fn color_repr_clamps_negative() {
    let c = Vec3::new(-FX_ONE, 0, FX_ONE);
    let line = c.as_color_repr(1);
    assert_eq!(line.as_str(), "0 0 255
");
}

/// Bounded draws stay below their bound.
#[test]
fn rng_below_bound() {
    let mut rng = Rng::new(9001);
    let mut i: usize = 0;
    while i < 32 {
        assert!(rng.next_below(3) < 3);
        i += 1;
    }
}

/// The free-flight logarithm is nonpositive on the unit interval and close
/// to the true value at one half.
#[test]
fn ln_unit_value() {
    let half = fx_ln_unit(FX_ONE / 2);
    assert!(half < 0);
    // ln(1/2) is about -0.6931; the series lands within a few steps of it.
    assert!((half - (-45426)).abs() < 16);
    assert!(fx_ln_unit(1) < half);
}

/// A dielectric with unit index refracts even at grazing incidence, where
/// Schlick's approximation would otherwise often reflect: equal indices bend
/// nothing, whatever the draw.
#[test]
fn dielectric_unit_index_grazing_refracts() {
    let m = Material::Dielectric(Dielectric::new(FX_ONE));
    let mut rec = head_on_record();
    rec.normal = Vec3::new(FX_ONE, 0, 0);
    let r_in = Ray::new(&Vec3::new(0, 0, 0), &Vec3::new(0, 0, -FX_ONE), 0);
    let mut seed: u64 = 0;
    while seed < 32 {
        let mut rng = Rng::new(seed);
        let (att, sc) = m.scatter(&r_in, &rec, &mut rng).expect("must scatter");
        assert!(att == Vec3::new(FX_ONE, FX_ONE, FX_ONE));
        assert!(sc.dir == Vec3::new(0, 0, -FX_ONE));
        seed += 1;
    }
}

/// The medium's answer is a function of the seed: replaying the same state
/// replays the same scatter.
#[test]
fn constant_medium_replays_by_seed() {
    let mut mats: Vec<Material> = Vec::new();
    let boundary = Hittable::Sphere(Sphere::new(Vec3::new(0, 0, fx(-10)), fx(2), 0));
    let medium = Hittable::ConstantMedium(ConstantMedium::new(
        Box::new(boundary),
        fx(1),
        Vec3::new(FX_ONE, FX_ONE, FX_ONE),
        &mut mats,
    ));
    let through = Ray::new(&Vec3::new(0, 0, 0), &Vec3::new(0, 0, -FX_ONE), 0);
    let mut seed: u64 = 0;
    while seed < 16 {
        let mut a = Rng::new(seed);
        let mut b = Rng::new(seed);
        let ra = medium.hit(&through, 65, FX_MAX, &mut a);
        let rb = medium.hit(&through, 65, FX_MAX, &mut b);
        assert!(ra == rb);
        assert_eq!(a.state, b.state);
        seed += 1;
    }
}

/// The integrator's answer is a function of the seed: replaying the same
/// state on a scattering scene replays the same color and leaves the same
/// state behind.
#[test]
fn radiance_replays_by_seed() {
    let mut list = HittableList::new();
    list.add(Hittable::Sphere(Sphere::new(Vec3::new(0, 0, fx(-2)), fx(1), 0)));
    list.add(Hittable::Sphere(Sphere::new(Vec3::new(0, 0, fx(4)), fx(1), 1)));
    let world = Hittable::List(list);
    let mats = vec![
        Material::Lambertian(Lambertian::new(&Vec3::new(32768, 32768, 32768))),
        Material::DiffuseLight(DiffuseLight::new_with_color(Vec3::new(fx(2), fx(2), fx(2)))),
    ];
    let background = Vec3::new(16384, 16384, 16384);
    let r = Ray::new(&Vec3::new(0, 0, 0), &Vec3::new(0, 0, -FX_ONE), 0);
    let mut a = Rng::new(977);
    let mut b = Rng::new(977);
    let ca = ray_color(&r, &background, &world, &mats, 8, &mut a);
    let cb = ray_color(&r, &background, &world, &mats, 8, &mut b);
    assert!(ca == cb);
    assert_eq!(a.state, b.state);
}
