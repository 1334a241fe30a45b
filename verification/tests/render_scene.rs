//! Aggregates, acceleration, textures and the end-to-end render.

use rand::rngs::SmallRng;
use rand::SeedableRng;
use raytrace::bvh::BvhNode;
use raytrace::camera::Camera;
use raytrace::color::write_color;
use raytrace::fixed::SCALE;
use raytrace::hittable::Hittable;
use raytrace::hittable_list::HittableList;
use raytrace::integrator::{ray_color, ray_color_bvh};
use raytrace::material::{Lambertian, Material, Metal};
use raytrace::moving_sphere::MovingSphere;
use raytrace::ray::Ray;
use raytrace::sphere::Sphere;
use raytrace::texture::{Checker, Image, SolidColor, Texture};
use raytrace::vec3::Vec3;
use std::rc::Rc;

const S: i64 = SCALE;

fn gray() -> Rc<Material> {
    Rc::new(Material::Lambertian(Lambertian::new(Vec3::new(S / 2, S / 2, S / 2))))
}

fn sample_scene() -> HittableList {
    let mut world = HittableList::new();
    world.add(Hittable::Sphere(Sphere::new(Vec3::new(0, 0, -4 * S), S, gray())));
    world.add(Hittable::Sphere(Sphere::new(Vec3::new(2 * S, 0, -5 * S), S / 2, gray())));
    world.add(Hittable::Sphere(Sphere::new(
        Vec3::new(-2 * S, S, -6 * S),
        S,
        Rc::new(Material::Metal(Metal::new(Vec3::new(S, S, S), 0))),
    )));
    world.add(Hittable::Sphere(Sphere::new(Vec3::new(0, -101 * S, -4 * S), 100 * S, gray())));
    world.add(Hittable::MovingSphere(MovingSphere::new(
        Vec3::new(S, S, -3 * S),
        Vec3::new(S, 2 * S, -3 * S),
        0,
        S,
        S / 4,
        gray(),
    )));
    world
}

#[test]
fn bvh_reports_exactly_what_the_list_reports() {
    let world = sample_scene();
    let mut g = SmallRng::seed_from_u64(11);
    let bvh = BvhNode::new(&world, 0, S, &mut g).expect("nonempty scene");
    let mut misses = 0;
    let mut hits = 0;
    for ix in -8i64..=8 {
        for iy in -8i64..=8 {
            let r = Ray::new(
                Vec3::new(0, 0, 2 * S),
                Vec3::new(ix * S / 8, iy * S / 8, -S),
                (((ix + 8) * 4096) % (S + 1)).max(0),
            );
            for (t0, t1) in [(1, 1000 * S), (66, 3 * S), (0, 7 * S)] {
                let a = world.hit(&r, t0, t1);
                let b = bvh.hit(&r, t0, t1);
                match (a, b) {
                    (None, None) => misses += 1,
                    (Some(ra), Some(rb)) => {
                        assert_eq!(ra.t, rb.t, "different t for ray {:?}", r);
                        hits += 1;
                    },
                    (a, b) => panic!(
                        "list and tree disagree: {:?} vs {:?}",
                        a.map(|x| x.t),
                        b.map(|x| x.t)
                    ),
                }
            }
        }
    }
    assert!(hits > 20, "the grid should hit the scene often (got {hits})");
    assert!(misses > 20);
}

#[test]
fn bvh_of_an_empty_list_is_a_construction_failure() {
    let world = HittableList::new();
    let mut g = SmallRng::seed_from_u64(3);
    assert!(BvhNode::new(&world, 0, S, &mut g).is_none());
}

#[test]
fn list_bounding_box_covers_all_members() {
    let world = sample_scene();
    let b = world.bounding_box(0, S).expect("nonempty");
    assert!(b.min().y <= -201 * S);
    assert!(b.max().y >= 2 * S);
    assert!(b.min().z <= -7 * S);
}

#[test]
fn ray_color_with_zero_depth_is_black() {
    let world = sample_scene();
    let mut g = SmallRng::seed_from_u64(5);
    for dir in [Vec3::new(0, 0, -S), Vec3::new(S, S, S), Vec3::new(0, -S, 0)] {
        let r = Ray::new(Vec3::new(0, 0, 2 * S), dir, 0);
        assert_eq!(ray_color(&r, &world, 0, &mut g), Vec3::new(0, 0, 0));
    }
}

#[test]
fn ray_color_miss_blends_the_sky_gradient() {
    let world = HittableList::new();
    let mut g = SmallRng::seed_from_u64(5);
    // straight up: t = 1, pure sky blue (0.5, 0.7, 1.0)
    let up = ray_color(&Ray::new(Vec3::new(0, 0, 0), Vec3::new(0, S, 0), 0), &world, 4, &mut g);
    assert!((up.x - S / 2).abs() <= 8 && (up.y - 45875).abs() <= 8 && (up.z - S).abs() <= 8);
    // straight down: t = 0, white
    let down = ray_color(&Ray::new(Vec3::new(0, 0, 0), Vec3::new(0, -S, 0), 0), &world, 4, &mut g);
    assert!((down.x - S).abs() <= 8 && (down.y - S).abs() <= 8 && (down.z - S).abs() <= 8);
}


#[test]
fn integrators_agree_between_list_and_tree() {
    // hits provably agree, and each scatter draws the same random values in
    // the same order, so identically seeded paths give identical colors
    let world = sample_scene();
    let mut gb = SmallRng::seed_from_u64(17);
    let bvh = BvhNode::new(&world, 0, S, &mut gb).expect("nonempty scene");
    for seed in 0..6u64 {
        for ix in -2i64..=2 {
            for iy in -2i64..=2 {
                let r = Ray::new(
                    Vec3::new(0, 0, 2 * S),
                    Vec3::new(ix * S / 2, iy * S / 2, -S),
                    ((seed as i64) * 9001) % (S + 1),
                );
                let mut g1 = SmallRng::seed_from_u64(seed);
                let mut g2 = SmallRng::seed_from_u64(seed);
                let a = ray_color(&r, &world, 6, &mut g1);
                let b = ray_color_bvh(&r, &bvh, 6, &mut g2);
                assert_eq!(a, b, "paths diverged for ray {:?}", r);
            }
        }
    }
}

#[test]
fn checker_texture_alternates() {
    let odd = Rc::new(Texture::SolidColor(SolidColor::new(0, 0, 0)));
    let even = Rc::new(Texture::SolidColor(SolidColor::new(S, S, S)));
    let checker = Texture::Checker(Checker::new(odd, even));
    // sin(10 * 0.05) > 0 in all three axes: even cell
    let a = checker.value(0, 0, &Vec3::new(3277, 3277, 3277));
    assert_eq!(a, Vec3::new(S, S, S));
    // flipping one axis sign flips the cell
    let b = checker.value(0, 0, &Vec3::new(-3277, 3277, 3277));
    assert_eq!(b, Vec3::new(0, 0, 0));
}

#[test]
fn image_texture_reads_the_right_pixel() {
    // a 2x2 image, 3 bytes per pixel: row 0 = red, green; row 1 = blue, white
    let data = vec![255, 0, 0, 0, 255, 0, 0, 0, 255, 255, 255, 255];
    let img = Image::new(data, 2, 2, 6, 3).expect("valid dimensions");
    let tex = Texture::Image(img);
    // u = 0, v = 1 addresses the top-left pixel (v is flipped): red
    let c = tex.value(0, S, &Vec3::new(0, 0, 0));
    assert_eq!(c, Vec3::new(S, 0, 0));
    // u = 1, v = 0 addresses the bottom-right pixel: white
    let c2 = tex.value(S, 0, &Vec3::new(0, 0, 0));
    assert_eq!(c2, Vec3::new(S, S, S));
}

#[test]
fn image_with_wrong_dimensions_is_rejected() {
    let data = vec![0u8; 10];
    assert!(Image::new(data, 2, 2, 6, 3).is_none());
}

#[test]
fn write_color_scales_and_clamps() {
    // a full-white pixel accumulated over one sample maps to 255
    assert_eq!(write_color(&Vec3::new(S, S, S), 1), (255, 255, 255));
    // 0.25 averages then takes the square root: 0.5 -> 128
    assert_eq!(write_color(&Vec3::new(S / 4, 0, 0), 1), (128, 0, 0));
    // four samples of 1.0 average back to 1.0
    assert_eq!(write_color(&Vec3::new(4 * S, 4 * S, 4 * S), 4), (255, 255, 255));
}

#[test]
fn render_shows_a_darker_sphere_against_the_sky() {
    // a single diffuse gray unit sphere dead ahead, lit by the sky alone
    let mut world = HittableList::new();
    world.add(Hittable::Sphere(Sphere::new(Vec3::new(0, 0, -2 * S), S, gray())));
    let cam = Camera::new(
        Vec3::new(0, 0, 0),
        Vec3::new(0, 0, -S),
        Vec3::new(0, S, 0),
        90 * S,
        S,
        0,
        S,
    );
    let mut g = SmallRng::seed_from_u64(42);
    let n: i64 = 11;
    let spp = 4u32;
    let mut brightness = |px: i64, py: i64| -> u32 {
        let mut acc = Vec3::new(0, 0, 0);
        for _ in 0..spp {
            let s = px * S / (n - 1);
            let t = py * S / (n - 1);
            let ray = cam.get_ray(s, t, 0, S, &mut g);
            let c = ray_color(&ray, &world, 8, &mut g);
            acc = Vec3::new(acc.x + c.x, acc.y + c.y, acc.z + c.z);
        }
        let (r, gb, b) = write_color(&acc, spp);
        assert!(r <= 255 && gb <= 255 && b <= 255);
        r as u32 + gb as u32 + b as u32
    };
    let center = brightness(n / 2, n / 2);
    let sky = brightness(0, n - 1);
    assert!(
        center < sky,
        "sphere silhouette ({center}) should be darker than the sky ({sky})"
    );
}
