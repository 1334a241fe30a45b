//! Scattering models and the camera on concrete values.

use rand::rngs::SmallRng;
use rand::SeedableRng;
use raytrace::fixed::SCALE;
use raytrace::hittable::HitRecord;
use raytrace::material::{Dielectric, Lambertian, Material, Metal};
use raytrace::camera::Camera;
use raytrace::ray::Ray;
use raytrace::sphere::Sphere;
use raytrace::vec3::{near_zero, Vec3};
use std::rc::Rc;

const S: i64 = SCALE;

fn rng() -> SmallRng {
    SmallRng::seed_from_u64(7)
}

fn head_on_record() -> (Ray, HitRecord) {
    let sp = Sphere::new(
        Vec3::new(0, 0, 0),
        S,
        Rc::new(Material::Lambertian(Lambertian::new(Vec3::new(S / 2, S / 2, S / 2)))),
    );
    let r = Ray::new(Vec3::new(0, 0, -3 * S), Vec3::new(0, 0, S), 0);
    let rec = sp.hit(&r, 1, 100 * S).expect("must hit");
    (r, rec)
}

#[test]
fn lambertian_never_scatters_a_zero_direction() {
    let (r, rec) = head_on_record();
    let lam = Lambertian::new(Vec3::new(S / 2, S / 2, S / 2));
    let mut g = rng();
    for _ in 0..200 {
        let (scattered, att) = lam.scatter(&r, &rec, &mut g).expect("always scatters");
        assert!(!near_zero(&scattered.direction()));
        assert_eq!(scattered.origin(), rec.p);
        assert_eq!(att, Vec3::new(S / 2, S / 2, S / 2));
    }
}

#[test]
fn metal_zero_fuzz_reflects_exactly_and_absorbs_tangent_rays() {
    let (r, rec) = head_on_record();
    let metal = Metal::new(Vec3::new(S, S, S), 0);
    let mut g = rng();
    let (scattered, att) = metal.scatter(&r, &rec, &mut g).expect("head-on reflects");
    // reflection of (0, 0, 1) about (0, 0, -1) is (0, 0, -1)
    assert_eq!(scattered.direction(), Vec3::new(0, 0, -S));
    assert_eq!(att, Vec3::new(S, S, S));

    // an exactly tangent incoming ray reflects into the tangent plane and is
    // absorbed (dot with the normal is zero)
    let tangent_rec = HitRecord {
        p: Vec3::new(0, 0, -S),
        normal: Vec3::new(0, 0, -S),
        t: S,
        uv: (0, 0),
        front_face: true,
        material: Rc::new(Material::Metal(Metal::new(Vec3::new(S, S, S), 0))),
    };
    let tangent_ray = Ray::new(Vec3::new(-S, 0, -S), Vec3::new(S, 0, 0), 0);
    assert!(metal.scatter(&tangent_ray, &tangent_rec, &mut g).is_none());
}

#[test]
fn metal_clamps_fuzz() {
    let m = Metal::new(Vec3::new(S, S, S), 3 * S);
    assert_eq!(m.fuzz, S);
    let m2 = Metal::new(Vec3::new(S, S, S), -5);
    assert_eq!(m2.fuzz, 0);
}

#[test]
fn dielectric_always_scatters_white() {
    let (r, rec) = head_on_record();
    let glass = Dielectric::new(3 * S / 2);
    let mut g = rng();
    for _ in 0..100 {
        let (scattered, att) = glass.scatter(&r, &rec, &mut g).expect("always scatters");
        assert_eq!(att, Vec3::new(S, S, S));
        assert_eq!(scattered.origin(), rec.p);
    }
}

#[test]
fn camera_zero_aperture_rays_start_at_the_eye() {
    let cam = Camera::new(
        Vec3::new(0, 0, 0),
        Vec3::new(0, 0, -S),
        Vec3::new(0, S, 0),
        90 * S,
        3 * S / 2,
        0,
        S,
    );
    let mut g = rng();
    for (s, t) in [(0, 0), (S / 2, S / 2), (S, S), (S / 4, 3 * S / 4)] {
        let ray = cam.get_ray(s, t, 0, S, &mut g);
        assert_eq!(ray.origin(), Vec3::new(0, 0, 0));
        assert!(0 <= ray.time() && ray.time() < S);
    }
}

#[test]
fn camera_with_aperture_jitters_within_the_lens() {
    let cam = Camera::new(
        Vec3::new(0, 0, 0),
        Vec3::new(0, 0, -S),
        Vec3::new(0, S, 0),
        90 * S,
        3 * S / 2,
        S / 2,
        S,
    );
    let mut g = rng();
    for _ in 0..20 {
        let ray = cam.get_ray(S / 2, S / 2, 0, S, &mut g);
        let o = ray.origin();
        // within the lens radius (a quarter unit) around the eye
        assert!(o.x.abs() <= S / 4 + 2 && o.y.abs() <= S / 4 + 2);
    }
}
