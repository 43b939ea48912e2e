//! Vector arithmetic, in the fixed-point scale: one real unit is
//! `FX_ONE` (65536) raw steps.

use pathtracer::fixed::FX_ONE;
use pathtracer::vec3::Vec3;

#[test]
fn test_default_vec3() {
    let a = Vec3::default();
    assert_eq!(0, a.x());
    assert_eq!(0, a.y());
    assert_eq!(0, a.z());
}

#[test]
fn test_vec3() {
    let a = Vec3::new(FX_ONE, 2 * FX_ONE, 3 * FX_ONE);
    assert_eq!(FX_ONE, a.x());
    assert_eq!(2 * FX_ONE, a.y());
    assert_eq!(3 * FX_ONE, a.z());
    assert_eq!(14 * FX_ONE, a.length_squared());
    // The floor of sqrt(14) in the fixed scale.
    assert_eq!(245213, a.length());
}

#[test]
fn test_vec3_neg() {
    let mut a = Vec3::new(FX_ONE, 2 * FX_ONE, 3 * FX_ONE);
    a = a.neg();
    assert_eq!(-FX_ONE, a.x());
    assert_eq!(-2 * FX_ONE, a.y());
    assert_eq!(-3 * FX_ONE, a.z());
}

#[test]
fn test_vec3_addassign_vec3() {
    let mut a = Vec3::new(FX_ONE, 2 * FX_ONE, 3 * FX_ONE);
    let b = Vec3::new(4 * FX_ONE, 5 * FX_ONE, 6 * FX_ONE);
    a = a.add(&b);
    assert_eq!(5 * FX_ONE, a.x());
    assert_eq!(7 * FX_ONE, a.y());
    assert_eq!(9 * FX_ONE, a.z());

    let mut a = Vec3::new(FX_ONE, 2 * FX_ONE, 3 * FX_ONE);
    let b = Vec3::new(4 * FX_ONE, 5 * FX_ONE, 6 * FX_ONE);
    a = a.add(&b);
    assert_eq!(5 * FX_ONE, a.x());
    assert_eq!(7 * FX_ONE, a.y());
    assert_eq!(9 * FX_ONE, a.z());
}

#[test]
fn test_vec3_subassign_vec3() {
    let mut a = Vec3::new(FX_ONE, 2 * FX_ONE, 3 * FX_ONE);
    let b = Vec3::new(4 * FX_ONE, 5 * FX_ONE, 6 * FX_ONE);
    a = a.sub(&b);
    assert_eq!(-3 * FX_ONE, a.x());
    assert_eq!(-3 * FX_ONE, a.y());
    assert_eq!(-3 * FX_ONE, a.z());

    let mut a = Vec3::new(FX_ONE, 2 * FX_ONE, 3 * FX_ONE);
    let b = Vec3::new(4 * FX_ONE, 5 * FX_ONE, 6 * FX_ONE);
    a = a.sub(&b);
    assert_eq!(-3 * FX_ONE, a.x());
    assert_eq!(-3 * FX_ONE, a.y());
    assert_eq!(-3 * FX_ONE, a.z());
}

#[test]
fn test_vec3_multiplyassign_vec3() {
    let mut a = Vec3::new(FX_ONE, 2 * FX_ONE, 3 * FX_ONE);
    let b = Vec3::new(4 * FX_ONE, 5 * FX_ONE, 6 * FX_ONE);
    a = a.mul(&b);
    assert_eq!(4 * FX_ONE, a.x());
    assert_eq!(10 * FX_ONE, a.y());
    assert_eq!(18 * FX_ONE, a.z());

    let mut a = Vec3::new(FX_ONE, 2 * FX_ONE, 3 * FX_ONE);
    let b = Vec3::new(4 * FX_ONE, 5 * FX_ONE, 6 * FX_ONE);
    a = a.mul(&b);
    assert_eq!(4 * FX_ONE, a.x());
    assert_eq!(10 * FX_ONE, a.y());
    assert_eq!(18 * FX_ONE, a.z());
}

#[test]
fn test_vec3_divideassign_vec3() {
    let a = Vec3::new(FX_ONE, 2 * FX_ONE, 3 * FX_ONE);
    let mut b = Vec3::new(4 * FX_ONE, 5 * FX_ONE, 6 * FX_ONE);
    b = b.div(&a);
    assert_eq!(4 * FX_ONE, b.x());
    // Five halves, exactly representable in the fixed scale.
    assert_eq!(5 * FX_ONE / 2, b.y());
    assert_eq!(2 * FX_ONE, b.z());

    let a = Vec3::new(FX_ONE, 2 * FX_ONE, 3 * FX_ONE);
    let mut b = Vec3::new(4 * FX_ONE, 5 * FX_ONE, 6 * FX_ONE);
    b = b.div(&a);
    assert_eq!(4 * FX_ONE, b.x());
    assert_eq!(5 * FX_ONE / 2, b.y());
    assert_eq!(2 * FX_ONE, b.z());
}

#[test]
fn test_vec3_multiplyassign_f64() {
    let mut a = Vec3::new(FX_ONE, 2 * FX_ONE, 3 * FX_ONE);
    let b = 2 * FX_ONE;
    a = a.scale(b);
    assert_eq!(2 * FX_ONE, a.x());
    assert_eq!(4 * FX_ONE, a.y());
    assert_eq!(6 * FX_ONE, a.z());
}

#[test]
fn test_vec3_divideassign_f64() {
    let mut a = Vec3::new(FX_ONE, 2 * FX_ONE, 3 * FX_ONE);
    let b = 2 * FX_ONE;
    a = a.div_scalar(b);
    assert_eq!(FX_ONE / 2, a.x());
    assert_eq!(FX_ONE, a.y());
    assert_eq!(3 * FX_ONE / 2, a.z());
}
