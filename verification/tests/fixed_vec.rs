//! Scalar and vector arithmetic on concrete values.

use raytrace::fixed::{clamp, div_ceil, div_floor, div_trunc, fdiv, fmul, isqrt, SCALE};
use raytrace::vec3::{near_zero, reflect, refract, Vec3};

const S: i64 = SCALE;

#[test]
fn fixed_products_and_quotients() {
    // 1.5 * 2.0 == 3.0
    assert_eq!(fmul(3 * S / 2, 2 * S), 3 * S);
    // (-1.5) * 2.0 == -3.0
    assert_eq!(fmul(-3 * S / 2, 2 * S), -3 * S);
    // 1.0 / 4.0 == 0.25
    assert_eq!(fdiv(S, 4 * S), S / 4);
    // truncation is toward zero on both sides
    assert_eq!(div_trunc(7, 2), 3);
    assert_eq!(div_trunc(-7, 2), -3);
    assert_eq!(div_floor(-7, 2), -4);
    assert_eq!(div_ceil(-7, 2), -3);
    assert_eq!(div_ceil(7, 2), 4);
}

#[test]
fn integer_square_roots() {
    assert_eq!(isqrt(0), 0);
    assert_eq!(isqrt(15), 3);
    assert_eq!(isqrt(16), 4);
    assert_eq!(isqrt((S as u128) * (S as u128)), S as u128);
    // sqrt(4.0) == 2.0 at fixed scale: isqrt(4 * S * S) = 2 * S
    assert_eq!(isqrt(4 * (S as u128) * (S as u128)), 2 * S as u128);
}

#[test]
fn clamp_behaviour() {
    assert_eq!(clamp(5, 0, 3), 3);
    assert_eq!(clamp(-5, 0, 3), 0);
    assert_eq!(clamp(2, 0, 3), 2);
}

#[test]
fn dot_cross_and_length() {
    let a = Vec3::new(S, 0, 0);
    let b = Vec3::new(0, S, 0);
    assert_eq!(a.dot(&b), 0);
    assert_eq!(a.dot(&a), S);
    let c = a.cross(&b);
    assert_eq!(c, Vec3::new(0, 0, S));
    assert_eq!(a.length(), S);
    let d = Vec3::new(3 * S, 4 * S, 0);
    assert_eq!(d.length(), 5 * S);
}

#[test]
fn normalize_gives_unit_length() {
    let d = Vec3::new(3 * S, 4 * S, 0);
    let u = d.normalize();
    // exactly (0.6, 0.8, 0)
    assert_eq!(u.x, 3 * S / 5);
    assert_eq!(u.y, 4 * S / 5);
    assert_eq!(u.z, 0);
    // zero stays zero
    let z = Vec3::new(0, 0, 0).normalize();
    assert_eq!(z, Vec3::new(0, 0, 0));
}

#[test]
fn near_zero_is_exact_zero() {
    assert!(near_zero(&Vec3::new(0, 0, 0)));
    assert!(!near_zero(&Vec3::new(1, 0, 0)));
}

#[test]
fn reflect_about_axis() {
    // reflecting (1, -1, 0) about the y axis gives (1, 1, 0)
    let v = Vec3::new(S, -S, 0);
    let n = Vec3::new(0, S, 0);
    let r = reflect(&v, &n);
    assert_eq!(r, Vec3::new(S, S, 0));
}

#[test]
fn refract_with_unit_ratio_is_undeviated() {
    // with an index ratio of one the direction passes through (nearly)
    // unchanged; fixed-point rounding allows a few steps of error
    let v = Vec3::new(0, -3 * S / 5, -4 * S / 5);
    let n = Vec3::new(0, S, 0);
    let r = refract(&v, &n, S);
    let tol = 16;
    assert!((r.x - v.x).abs() <= tol, "x deviated: {} vs {}", r.x, v.x);
    assert!((r.y - v.y).abs() <= tol, "y deviated: {} vs {}", r.y, v.y);
    assert!((r.z - v.z).abs() <= tol, "z deviated: {} vs {}", r.z, v.z);
}
