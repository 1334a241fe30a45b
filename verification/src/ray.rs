//! Rays: an origin, a direction (not necessarily unit length) and a time
//! sample in `[0, 1]` used for motion interpolation.

use crate::fixed::{tdiv, SCALE};
use crate::vec3::{bounded, lemma_mul_bound, lemma_tdiv_range, spec_unit, v_fits, vec3i, Vec3};
use vstd::prelude::*;

verus! {

#[derive(Clone, Copy, PartialEq, Eq, Structural, Debug)]
pub struct Ray {
    pub orig: Vec3,
    pub dir: Vec3,
    pub time: i64,
}

/// The point reached after parameter `t`: `orig + t * dir`, with the product
/// brought back to coordinate scale by one truncating division.
pub open spec fn spec_at(r: Ray, t: int) -> Vec3 {
    vec3i(
        r.orig.x + tdiv(t * (r.dir.x as int), 65536),
        r.orig.y + tdiv(t * (r.dir.y as int), 65536),
        r.orig.z + tdiv(t * (r.dir.z as int), 65536),
    )
}

impl Ray {
    pub fn new(orig: Vec3, dir: Vec3, time: i64) -> (r: Ray)
        ensures
            r == (Ray { orig, dir, time }),
    {
        Ray { orig, dir, time }
    }

    pub fn at(&self, t: i64) -> (r: Vec3)
        requires
            v_fits(self.orig),
            v_fits(self.dir),
            -0x8000_0000_0000 <= t <= 0x8000_0000_0000,
        ensures
            r == spec_at(*self, t as int),
    {
        proof {
            lemma_mul_bound(t as int, self.dir.x as int, 0x8000_0000_0000, 0x4000_0000);
            lemma_mul_bound(t as int, self.dir.y as int, 0x8000_0000_0000, 0x4000_0000);
            lemma_mul_bound(t as int, self.dir.z as int, 0x8000_0000_0000, 0x4000_0000);
            lemma_tdiv_range(t * (self.dir.x as int), 0x2_0000_0000_0000_0000_0000, 65536);
            lemma_tdiv_range(t * (self.dir.y as int), 0x2_0000_0000_0000_0000_0000, 65536);
            lemma_tdiv_range(t * (self.dir.z as int), 0x2_0000_0000_0000_0000_0000, 65536);
        }
        let x = self.orig.x + crate::fixed::div_trunc((t as i128) * (self.dir.x as i128), 65536)
            as i64;
        let y = self.orig.y + crate::fixed::div_trunc((t as i128) * (self.dir.y as i128), 65536)
            as i64;
        let z = self.orig.z + crate::fixed::div_trunc((t as i128) * (self.dir.z as i128), 65536)
            as i64;
        Vec3 { x, y, z }
    }

    /// The normalized direction.
    pub fn unit_direction(&self) -> (r: Vec3)
        requires
            bounded(self.dir, 0x4000_0000_0000),
        ensures
            r == spec_unit(self.dir),
            bounded(r, SCALE as int),
    {
        self.dir.normalize()
    }

    pub fn origin(&self) -> (r: Vec3)
        ensures
            r == self.orig,
    {
        self.orig
    }

    pub fn direction(&self) -> (r: Vec3)
        ensures
            r == self.dir,
    {
        self.dir
    }

    pub fn time(&self) -> (r: i64)
        ensures
            r == self.time,
    {
        self.time
    }
}

} // verus!
