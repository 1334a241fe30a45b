//! A small Monte-Carlo ray tracer whose geometry is verified.
//!
//! All scene arithmetic is done in fixed-point: a scalar `x: i64` stands for
//! the real number `x / SCALE`.  Working over integers keeps every geometric
//! decision (interval tests, box pruning, nearest-hit selection) exact, which
//! is what makes the central theorem of this crate provable: a bounding-volume
//! hierarchy reports exactly the same nearest intersection as a flat scan of
//! the same surfaces.

pub mod aabb;
pub mod bvh;
pub mod camera;
pub mod color;
pub mod fixed;
pub mod hittable;
pub mod hittable_list;
pub mod integrator;
pub mod material;
pub mod moving_sphere;
pub mod sphere;
pub mod ray;
pub mod texture;
pub mod trig;
pub mod util;
pub mod vec3;
