//! Geometry: boxes, spheres, rectangles, transforms, and the hierarchy
//! against the linear aggregate.

use pathtracer::aabb::Aabb;
use pathtracer::box_shape::BoxShape;
use pathtracer::bvh::BvhNode;
use pathtracer::fixed::{FX_MAX, FX_ONE};
use pathtracer::hit::{Hittable, HittableList};
use pathtracer::ray::Ray;
use pathtracer::rect::XyRect;
use pathtracer::rng::Rng;
use pathtracer::rotate::RotateY;
use pathtracer::sphere::Sphere;
use pathtracer::translate::Translate;
use pathtracer::vec3::Vec3;

fn fx(whole: i64) -> i64 {
    whole * FX_ONE
}

/// The merge of two boxes is the same either way around and contains both.
#[test]
fn aabb_merge_commutes_and_contains() {
    let a = Aabb::new(Vec3::new(fx(-1), fx(0), fx(2)), Vec3::new(fx(1), fx(3), fx(4)));
    let b = Aabb::new(Vec3::new(fx(0), fx(-2), fx(1)), Vec3::new(fx(2), fx(1), fx(5)));
    let ab = a.surrounding_box(&b);
    let ba = b.surrounding_box(&a);
    assert!(ab == ba);
    assert!(ab.minimum == Vec3::new(fx(-1), fx(-2), fx(1)));
    assert!(ab.maximum == Vec3::new(fx(2), fx(3), fx(5)));
    assert!(ab.minimum.x() <= a.minimum.x() && a.maximum.x() <= ab.maximum.x());
    assert!(ab.minimum.y() <= b.minimum.y() && b.maximum.y() <= ab.maximum.y());
}

/// Merging is associative.
#[test]
fn aabb_merge_associative() {
    let a = Aabb::new(Vec3::new(fx(-1), fx(0), fx(0)), Vec3::new(fx(1), fx(1), fx(1)));
    let b = Aabb::new(Vec3::new(fx(0), fx(-1), fx(0)), Vec3::new(fx(2), fx(1), fx(2)));
    let c = Aabb::new(Vec3::new(fx(-3), fx(0), fx(-1)), Vec3::new(fx(0), fx(4), fx(0)));
    let left = a.surrounding_box(&b.surrounding_box(&c));
    let right = a.surrounding_box(&b).surrounding_box(&c);
    assert!(left == right);
}

/// A unit sphere at (0,0,-1) with radius one half, probed from the origin
/// toward it, is hit at one half, at point (0,0,-1/2), with outward normal
/// (0,0,1).
#[test]
fn sphere_front_hit_exact() {
    let s = Sphere::new(Vec3::new(0, 0, -FX_ONE), FX_ONE / 2, 0);
    let r = Ray::new(&Vec3::new(0, 0, 0), &Vec3::new(0, 0, -FX_ONE), 0);
    let rec = s.hit(&r, 65, FX_MAX).expect("must hit");
    assert_eq!(rec.t, FX_ONE / 2);
    assert!(rec.p == Vec3::new(0, 0, -FX_ONE / 2));
    assert!(rec.normal == Vec3::new(0, 0, FX_ONE));
    assert!(rec.front_face);
}

/// A ray aimed from outside straight at a sphere's center hits at the
/// center distance minus the radius: distance two, radius one, so the hit
/// parameter is one half and the hit point one unit before the center.
#[test]
fn sphere_aimed_hit_distance_minus_radius() {
    let o = Vec3::new(fx(3), fx(-2), fx(7));
    let center = Vec3::new(fx(3) + fx(2), fx(-2), fx(7));
    let s = Sphere::new(center, fx(1), 0);
    let dir = center.sub(&o);
    let r = Ray::new(&o, &dir, 0);
    let rec = s.hit(&r, 0, FX_MAX).expect("must hit");
    // t * distance == distance - radius, in scale units.
    assert_eq!(rec.t * 2, FX_ONE);
    assert!(rec.p == Vec3::new(fx(4), fx(-2), fx(7)));
}

/// A ray parallel to a rectangle's plane reports no hit instead of faulting.
#[test]
fn rect_parallel_ray_misses() {
    let q = XyRect::new(fx(-1), fx(1), fx(-1), fx(1), fx(-2), 0);
    let r = Ray::new(&Vec3::new(0, 0, 0), &Vec3::new(FX_ONE, 0, 0), 0);
    assert!(q.hit(&r, 65, FX_MAX).is_none());
}

/// A rectangle hit reports normalized in-plane coordinates.
#[test]
fn rect_hit_uv() {
    let q = XyRect::new(fx(-1), fx(1), fx(-1), fx(1), fx(-2), 0);
    let r = Ray::new(&Vec3::new(0, 0, 0), &Vec3::new(0, 0, -FX_ONE), 0);
    let rec = q.hit(&r, 65, FX_MAX).expect("must hit");
    assert_eq!(rec.t, fx(2));
    assert_eq!(rec.u, FX_ONE / 2);
    assert_eq!(rec.v, FX_ONE / 2);
    assert!(rec.normal == Vec3::new(0, 0, FX_ONE));
}

/// Translating a sphere and undoing the displacement on the hit reproduces
/// the hit on the untranslated sphere.
#[test]
fn translate_round_trip() {
    let base = Hittable::Sphere(Sphere::new(Vec3::new(0, 0, fx(-3)), fx(1), 0));
    let off = Vec3::new(fx(5), fx(1), 0);
    let moved = Hittable::Translate(Translate::new(Box::new(base), &off));
    let direct = Sphere::new(Vec3::new(0, 0, fx(-3)), fx(1), 0);
    let r = Ray::new(&Vec3::new(fx(5), fx(1), 0), &Vec3::new(0, 0, -FX_ONE), 0);
    let mut rng = Rng::new(7);
    let w = moved.hit(&r, 65, FX_MAX, &mut rng).expect("must hit");
    let inner_ray = Ray::new(&Vec3::new(0, 0, 0), &Vec3::new(0, 0, -FX_ONE), 0);
    let c = direct.hit(&inner_ray, 65, FX_MAX);
    let c = match c {
        Some(rec) => rec,
        None => panic!("child must hit"),
    };
    assert_eq!(w.t, fx(2));
    assert_eq!(w.t, c.t);
    assert!(w.p.sub(&off) == Vec3::new(0, 0, fx(-2)));
    assert!(w.normal == c.normal);
}

/// A full-turn rotation answers exactly as its child.
#[test]
fn rotate_full_turn_is_identity() {
    let child = Hittable::BoxShape(BoxShape::new(
        &Vec3::new(fx(-1), fx(-1), fx(-4)),
        &Vec3::new(fx(1), fx(1), fx(-2)),
        0,
    ));
    let child_copy = Hittable::BoxShape(BoxShape::new(
        &Vec3::new(fx(-1), fx(-1), fx(-4)),
        &Vec3::new(fx(1), fx(1), fx(-2)),
        0,
    ));
    let turned = Hittable::RotateY(RotateY::new(Box::new(child), 360 * FX_ONE));
    let r = Ray::new(&Vec3::new(0, 0, 0), &Vec3::new(0, 0, -FX_ONE), 0);
    let mut rng = Rng::new(3);
    let a = turned.hit(&r, 65, FX_MAX, &mut rng);
    let b = child_copy.hit(&r, 65, FX_MAX, &mut rng);
    assert!(a == b);
}

/// A hierarchy built from an aggregate reports the same nearest hit as the
/// aggregate queried linearly.
#[test]
fn bvh_matches_linear_scan() {
    let mut list = HittableList::new();
    let mut linear = HittableList::new();
    let mut i: i64 = -3;
    while i <= 3 {
        let s = Sphere::new(Vec3::new(fx(2 * i), fx(0), fx(-6)), fx(1), (i + 3) as usize);
        list.add(Hittable::Sphere(s));
        let s2 = Sphere::new(Vec3::new(fx(2 * i), fx(0), fx(-6)), fx(1), (i + 3) as usize);
        linear.add(Hittable::Sphere(s2));
        i += 1;
    }
    let mut rng = Rng::new(42);
    let tree = Hittable::Bvh(BvhNode::new_with_list(list, 0, FX_ONE, &mut rng));
    let flat = Hittable::List(linear);
    let mut probe: i64 = -3;
    while probe <= 3 {
        let origin = Vec3::new(fx(2 * probe), fx(0), fx(0));
        let dirs = [
            Vec3::new(0, 0, -FX_ONE),
            Vec3::new(FX_ONE / 4, 0, -FX_ONE),
            Vec3::new(-FX_ONE / 4, FX_ONE / 8, -FX_ONE),
            Vec3::new(0, FX_ONE, 0),
        ];
        for d in dirs.iter() {
            let r = Ray::new(&origin, d, 0);
            let a = tree.hit(&r, 65, FX_MAX, &mut rng);
            let b = flat.hit(&r, 65, FX_MAX, &mut rng);
            assert!(a == b);
        }
        probe += 1;
    }
}

/// The box composite delegates to its six faces: a straight-on probe hits
/// the near face.
#[test]
fn box_shape_near_face() {
    let b = Hittable::BoxShape(BoxShape::new(
        &Vec3::new(fx(-1), fx(-1), fx(-4)),
        &Vec3::new(fx(1), fx(1), fx(-2)),
        0,
    ));
    let r = Ray::new(&Vec3::new(0, 0, 0), &Vec3::new(0, 0, -FX_ONE), 0);
    let mut rng = Rng::new(5);
    let rec = b.hit(&r, 65, FX_MAX, &mut rng).expect("must hit");
    assert_eq!(rec.t, fx(2));
    assert!(rec.normal == Vec3::new(0, 0, FX_ONE));
}
