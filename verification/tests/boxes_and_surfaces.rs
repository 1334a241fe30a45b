//! Bounding boxes, the sphere hit, and the moving sphere on concrete scenes.

use raytrace::aabb::Aabb;
use raytrace::fixed::SCALE;
use raytrace::material::{Lambertian, Material};
use raytrace::moving_sphere::MovingSphere;
use raytrace::ray::Ray;
use raytrace::sphere::Sphere;
use raytrace::vec3::Vec3;
use std::rc::Rc;

const S: i64 = SCALE;

fn gray() -> Rc<Material> {
    Rc::new(Material::Lambertian(Lambertian::new(Vec3::new(S / 2, S / 2, S / 2))))
}

#[test]
fn union_is_idempotent() {
    let a = Aabb::new(Vec3::new(-S, -S, -S), Vec3::new(S, 2 * S, S));
    let u = Aabb::surrounding_box(a, a);
    assert_eq!(u.min(), a.min());
    assert_eq!(u.max(), a.max());
}

#[test]
fn union_contains_both_operands() {
    let a = Aabb::new(Vec3::new(-S, 0, 0), Vec3::new(S, S, S));
    let b = Aabb::new(Vec3::new(0, -2 * S, 0), Vec3::new(3 * S, S / 2, 2 * S));
    let u = Aabb::surrounding_box(a, b);
    for (inner, name) in [(a, "a"), (b, "b")] {
        assert!(u.min().x <= inner.min().x, "{}", name);
        assert!(u.min().y <= inner.min().y, "{}", name);
        assert!(u.min().z <= inner.min().z, "{}", name);
        assert!(u.max().x >= inner.max().x, "{}", name);
        assert!(u.max().y >= inner.max().y, "{}", name);
        assert!(u.max().z >= inner.max().z, "{}", name);
    }
}

#[test]
fn union_is_commutative() {
    let a = Aabb::new(Vec3::new(-S, 0, 0), Vec3::new(S, S, S));
    let b = Aabb::new(Vec3::new(0, -2 * S, 0), Vec3::new(3 * S, S / 2, 2 * S));
    let u = Aabb::surrounding_box(a, b);
    let v = Aabb::surrounding_box(b, a);
    assert_eq!(u.min(), v.min());
    assert_eq!(u.max(), v.max());
}

#[test]
fn box_hit_and_miss() {
    let b = Aabb::new(Vec3::new(-S, -S, -S), Vec3::new(S, S, S));
    let through = Ray::new(Vec3::new(0, 0, -4 * S), Vec3::new(0, 0, S), 0);
    assert!(b.hit(&through, 0, 100 * S));
    let past = Ray::new(Vec3::new(3 * S, 0, -4 * S), Vec3::new(0, 0, S), 0);
    assert!(!b.hit(&past, 0, 100 * S));
    // interval too short to reach the box
    assert!(!b.hit(&through, 0, 2 * S));
}

#[test]
fn sphere_hit_point_is_on_the_sphere() {
    let sp = Sphere::new(Vec3::new(0, 0, 0), S, gray());
    let r = Ray::new(Vec3::new(0, 0, -3 * S), Vec3::new(0, 0, S), 0);
    let rec = sp.hit(&r, 1, 100 * S).expect("must hit");
    // nearest root is at t = 2
    assert!((rec.t - 2 * S).abs() <= 4, "t = {}", rec.t);
    // |hit point - center| is the radius, within tolerance
    let d = rec.p.minus(&Vec3::new(0, 0, 0));
    let err = (d.length() - S).abs();
    assert!(err <= 8, "radius error {}", err);
    // the (corrected) normal opposes the ray
    assert!(r.direction().dot_wide(&rec.normal) <= 0);
    assert!(rec.front_face);
    // normal is a unit vector within tolerance
    assert!((rec.normal.length() - S).abs() <= 8);
    // surface coordinates are in range
    assert!(0 <= rec.uv.0 && rec.uv.0 <= S);
    assert!(0 <= rec.uv.1 && rec.uv.1 <= S);
}

#[test]
fn sphere_hit_from_inside_flips_the_normal() {
    let sp = Sphere::new(Vec3::new(0, 0, 0), S, gray());
    let r = Ray::new(Vec3::new(0, 0, 0), Vec3::new(0, 0, S), 0);
    let rec = sp.hit(&r, 1, 100 * S).expect("must hit");
    assert!(!rec.front_face);
    // the outward normal points with the ray, the corrected one against it
    assert!(r.direction().dot_wide(&rec.normal) <= 0);
}

#[test]
fn sphere_miss_outside_interval() {
    let sp = Sphere::new(Vec3::new(0, 0, 0), S, gray());
    let r = Ray::new(Vec3::new(0, 0, -3 * S), Vec3::new(0, 0, S), 0);
    assert!(sp.hit(&r, 1, S).is_none());
    let away = Ray::new(Vec3::new(0, 0, -3 * S), Vec3::new(0, 0, -S), 0);
    assert!(away.direction().z < 0 && sp.hit(&away, 1, 100 * S).is_none());
}

#[test]
fn sphere_bounding_box_pads_the_radius() {
    let sp = Sphere::new(Vec3::new(0, 0, 0), S, gray());
    let b = sp.bounding_box(0, S).expect("spheres always have a box");
    assert!(b.min().x <= -S && b.max().x >= S);
    assert!(b.min().x >= -S - 300 && b.max().x <= S + 300);
}

#[test]
fn moving_sphere_interpolates_between_keyframes() {
    let ms = MovingSphere::new(
        Vec3::new(0, 0, 0),
        Vec3::new(S, 0, 0),
        0,
        S,
        S / 4,
        gray(),
    );
    assert_eq!(ms.center(0), Vec3::new(0, 0, 0));
    assert_eq!(ms.center(S), Vec3::new(S, 0, 0));
    let mid = ms.center(S / 2);
    assert!((mid.x - S / 2).abs() <= 2 && mid.y == 0 && mid.z == 0);
}

#[test]
fn moving_sphere_hit_uses_the_ray_time() {
    let ms = MovingSphere::new(
        Vec3::new(-2 * S, 0, 0),
        Vec3::new(2 * S, 0, 0),
        0,
        S,
        S / 2,
        gray(),
    );
    // at time 0 the sphere is on the left: a ray down the z axis misses
    let r0 = Ray::new(Vec3::new(0, 0, -3 * S), Vec3::new(0, 0, S), 0);
    assert!(ms.hit(&r0, 1, 100 * S).is_none());
    // at the midpoint time it is centered and the same ray hits
    let r1 = Ray::new(Vec3::new(0, 0, -3 * S), Vec3::new(0, 0, S), S / 2);
    assert!(ms.hit(&r1, 1, 100 * S).is_some());
}
