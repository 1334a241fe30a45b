//! The camera: maps normalized image-plane coordinates, a lens sample and a
//! time sample to a world-space ray.

use crate::fixed::{div_trunc, fmul, fmul_spec, spec_clamp, tdiv, SCALE};
use crate::ray::Ray;
use crate::trig::{spec_tan, tan_fx, PI_FX};
use crate::util::random_i64_range;
use crate::vec3::{
    bounded, random_in_unit_disk, spec_cross, spec_minus, spec_unit, v_fits, vec3i, Vec3,
};
use rand::rngs::SmallRng;
use vstd::prelude::*;

verus! {

pub struct Camera {
    pub origin: Vec3,
    pub lower_left_corner: Vec3,
    pub horizontal: Vec3,
    pub vertical: Vec3,
    pub w: Vec3,
    pub u: Vec3,
    pub v: Vec3,
    pub lens_radius: i64,
}

/// Field bounds that keep every ray the camera emits within usable
/// coordinates.
pub open spec fn cam_wf(c: Camera) -> bool {
    &&& bounded(c.origin, 0x1000_0000)
    &&& bounded(c.lower_left_corner, 0x1000_0000)
    &&& bounded(c.horizontal, 0x400_0000)
    &&& bounded(c.vertical, 0x400_0000)
    &&& bounded(c.u, 2 * SCALE as int)
    &&& bounded(c.v, 2 * SCALE as int)
    &&& 0 <= c.lens_radius <= 16 * SCALE as int
}

/// A component scaled by a fixed factor, clamped into `[-m, m]`.
pub open spec fn spec_scale_clamp(s: int, x: int, m: int) -> int {
    spec_clamp(fmul_spec(s, x), -m, m)
}

/// The half-angle tangent of the vertical field of view (degrees), clamped
/// into `[0, 16]`.
pub open spec fn spec_half_tan(vfov: int) -> int {
    spec_clamp(spec_tan(tdiv(fmul_spec(vfov, PI_FX as int), 360)), 0, 16int * 65536)
}

/// The direction of the ray through plane point `(s, t)` from an origin `o`:
/// `lower_left + s*horizontal + t*vertical - o`.
pub open spec fn spec_cam_dir(c: Camera, s: int, t: int, o: Vec3) -> Vec3 {
    vec3i(
        c.lower_left_corner.x + fmul_spec(s, c.horizontal.x as int) + fmul_spec(t, c.vertical.x as int) - o.x,
        c.lower_left_corner.y + fmul_spec(s, c.horizontal.y as int) + fmul_spec(t, c.vertical.y as int) - o.y,
        c.lower_left_corner.z + fmul_spec(s, c.horizontal.z as int) + fmul_spec(t, c.vertical.z as int) - o.z,
    )
}

/// Scale and clamp, componentwise.
fn scale_clamp(v: &Vec3, s: i64, m: i64) -> (r: Vec3)
    requires
        0 < m,
    ensures
        r.x == spec_scale_clamp(s as int, v.x as int, m as int),
        r.y == spec_scale_clamp(s as int, v.y as int, m as int),
        r.z == spec_scale_clamp(s as int, v.z as int, m as int),
        bounded(r, m as int),
{
    proof {
        crate::vec3::lemma_mul_bound(s as int, v.x as int, 0x8000_0000_0000_0000, 0x8000_0000_0000_0000);
        crate::vec3::lemma_mul_bound(s as int, v.y as int, 0x8000_0000_0000_0000, 0x8000_0000_0000_0000);
        crate::vec3::lemma_mul_bound(s as int, v.z as int, 0x8000_0000_0000_0000, 0x8000_0000_0000_0000);
    }
    let x = clamp128(div_trunc((s as i128) * (v.x as i128), SCALE as i128), m);
    let y = clamp128(div_trunc((s as i128) * (v.y as i128), SCALE as i128), m);
    let z = clamp128(div_trunc((s as i128) * (v.z as i128), SCALE as i128), m);
    Vec3 { x, y, z }
}

/// Clamp a wide value into `[-m, m]`.
fn clamp128(x: i128, m: i64) -> (r: i64)
    requires
        0 < m,
    ensures
        r == spec_clamp(x as int, -(m as int), m as int),
{
    if x < -(m as i128) {
        -m
    } else if x > m as i128 {
        m
    } else {
        x as i64
    }
}

impl Camera {
    /// Derive the orthonormal basis and viewport geometry.  Every derived
    /// vector is clamped into the ranges of `cam_wf`, so construction is
    /// total and the camera always emits usable rays.
    pub fn new(
        lookfrom: Vec3,
        lookat: Vec3,
        vup: Vec3,
        vfov: i64,
        aspect_ratio: i64,
        aperture: i64,
        focus_dist: i64,
    ) -> (c: Camera)
        requires
            bounded(lookfrom, 0x1000_0000),
            v_fits(lookat),
            v_fits(vup),
            0 <= vfov <= 180 * SCALE as int,
            0 < aspect_ratio <= 16 * SCALE as int,
            0 <= aperture,
            0 < focus_dist <= 0x400_0000,
        ensures
            cam_wf(c),
            c.origin == lookfrom,
            c.lens_radius == spec_clamp(tdiv(aperture as int, 2), 0, 16 * SCALE as int),
            c.w == spec_unit(spec_minus(lookfrom, lookat)),
            c.u == spec_unit(spec_cross(vup, spec_unit(spec_minus(lookfrom, lookat)))),
            c.v == spec_cross(c.w, c.u),
            ({
                let h = spec_half_tan(vfov as int);
                let fw = fmul_spec(focus_dist as int, fmul_spec(aspect_ratio as int, 2 * h));
                let fh = fmul_spec(focus_dist as int, 2 * h);
                &&& c.horizontal.x == spec_scale_clamp(fw, c.u.x as int, 0x400_0000)
                &&& c.horizontal.y == spec_scale_clamp(fw, c.u.y as int, 0x400_0000)
                &&& c.horizontal.z == spec_scale_clamp(fw, c.u.z as int, 0x400_0000)
                &&& c.vertical.x == spec_scale_clamp(fh, c.v.x as int, 0x400_0000)
                &&& c.vertical.y == spec_scale_clamp(fh, c.v.y as int, 0x400_0000)
                &&& c.vertical.z == spec_scale_clamp(fh, c.v.z as int, 0x400_0000)
                &&& c.lower_left_corner.x == spec_clamp(
                    c.origin.x - spec_scale_clamp(32768, c.horizontal.x as int, 0x200_0000)
                        - spec_scale_clamp(32768, c.vertical.x as int, 0x200_0000)
                        - spec_scale_clamp(focus_dist as int, c.w.x as int, 0x400_0000),
                    -0x1000_0000,
                    0x1000_0000,
                )
                &&& c.lower_left_corner.y == spec_clamp(
                    c.origin.y - spec_scale_clamp(32768, c.horizontal.y as int, 0x200_0000)
                        - spec_scale_clamp(32768, c.vertical.y as int, 0x200_0000)
                        - spec_scale_clamp(focus_dist as int, c.w.y as int, 0x400_0000),
                    -0x1000_0000,
                    0x1000_0000,
                )
                &&& c.lower_left_corner.z == spec_clamp(
                    c.origin.z - spec_scale_clamp(32768, c.horizontal.z as int, 0x200_0000)
                        - spec_scale_clamp(32768, c.vertical.z as int, 0x200_0000)
                        - spec_scale_clamp(focus_dist as int, c.w.z as int, 0x400_0000),
                    -0x1000_0000,
                    0x1000_0000,
                )
            }),
            aperture == 0 ==> c.lens_radius == 0,
    {
        proof {
            crate::vec3::lemma_fmul_bound(vfov as int, PI_FX as int, 11796480, 205887);
        }
        let rad2 = fmul(vfov, PI_FX);
        proof {
            crate::vec3::lemma_tdiv_range(rad2 as int, 37059660, 360);
        }
        let theta_half = div_trunc(rad2 as i128, 360) as i64;
        let h = crate::fixed::clamp(tan_fx(theta_half), 0, 16 * SCALE);
        let viewport_height = 2 * h;
        proof {
            crate::vec3::lemma_fmul_bound(
                aspect_ratio as int,
                viewport_height as int,
                1048576,
                2097152,
            );
        }
        let viewport_width = fmul(aspect_ratio, viewport_height);
        let w = lookfrom.minus(&lookat).normalize();
        proof {
            crate::vec3::lemma_fmul_bound(vup.y as int, w.z as int, 0x4000_0000, 65536);
            crate::vec3::lemma_fmul_bound(vup.z as int, w.y as int, 0x4000_0000, 65536);
            crate::vec3::lemma_fmul_bound(vup.z as int, w.x as int, 0x4000_0000, 65536);
            crate::vec3::lemma_fmul_bound(vup.x as int, w.z as int, 0x4000_0000, 65536);
            crate::vec3::lemma_fmul_bound(vup.x as int, w.y as int, 0x4000_0000, 65536);
            crate::vec3::lemma_fmul_bound(vup.y as int, w.x as int, 0x4000_0000, 65536);
        }
        let u = vup.cross(&w).normalize();
        let v = w.cross(&u);
        proof {
            crate::vec3::lemma_fmul_bound(w.y as int, u.z as int, 65536, 65536);
            crate::vec3::lemma_fmul_bound(w.z as int, u.y as int, 65536, 65536);
            crate::vec3::lemma_fmul_bound(w.z as int, u.x as int, 65536, 65536);
            crate::vec3::lemma_fmul_bound(w.x as int, u.z as int, 65536, 65536);
            crate::vec3::lemma_fmul_bound(w.x as int, u.y as int, 65536, 65536);
            crate::vec3::lemma_fmul_bound(w.y as int, u.x as int, 65536, 65536);
        }
        let origin = lookfrom;
        proof {
            crate::vec3::lemma_fmul_bound(focus_dist as int, viewport_width as int, 0x400_0000, 0x2_0000_0000);
            crate::vec3::lemma_fmul_bound(focus_dist as int, viewport_height as int, 0x400_0000, 2097152);
        }
        let fw = fmul(focus_dist, viewport_width);
        let fh = fmul(focus_dist, viewport_height);
        let horizontal = scale_clamp(&u, fw, 0x400_0000);
        let vertical = scale_clamp(&v, fh, 0x400_0000);
        let half_h = scale_clamp(&horizontal, 32768, 0x200_0000);
        let half_v = scale_clamp(&vertical, 32768, 0x200_0000);
        let fwv = scale_clamp(&w, focus_dist, 0x400_0000);
        let llx = clamp128(
            origin.x as i128 - half_h.x as i128 - half_v.x as i128 - fwv.x as i128,
            0x1000_0000,
        );
        let lly = clamp128(
            origin.y as i128 - half_h.y as i128 - half_v.y as i128 - fwv.y as i128,
            0x1000_0000,
        );
        let llz = clamp128(
            origin.z as i128 - half_h.z as i128 - half_v.z as i128 - fwv.z as i128,
            0x1000_0000,
        );
        let lens_radius = crate::fixed::clamp(div_trunc(aperture as i128, 2) as i64, 0, 16 * SCALE);
        proof {
            crate::fixed::lemma_tdiv_bounds(aperture as int, 2);
        }
        Camera {
            origin,
            lower_left_corner: Vec3 { x: llx, y: lly, z: llz },
            horizontal,
            vertical,
            w,
            u,
            v,
            lens_radius,
        }
    }

    /// The ray through normalized image coordinates `(s, t)`, jittered on
    /// the lens disk and given a time drawn from `[time_lo, time_hi)`.  The
    /// origin strays from the eye by at most four lens radii per component
    /// (the lens sample blended through the two basis vectors); with a zero
    /// lens radius (aperture zero) the ray starts exactly at the eye.
    pub fn get_ray(&self, s: i64, t: i64, time_lo: i64, time_hi: i64, rng: &mut SmallRng) -> (res:
        Ray)
        requires
            cam_wf(*self),
            0 <= s <= SCALE,
            0 <= t <= SCALE,
        ensures
            v_fits(res.orig),
            v_fits(res.dir),
            res.dir == spec_cam_dir(*self, s as int, t as int, res.orig),
            -(4 * self.lens_radius as int) <= res.orig.x - self.origin.x <= 4
                * self.lens_radius as int,
            -(4 * self.lens_radius as int) <= res.orig.y - self.origin.y <= 4
                * self.lens_radius as int,
            -(4 * self.lens_radius as int) <= res.orig.z - self.origin.z <= 4
                * self.lens_radius as int,
            self.lens_radius == 0 ==> res.orig == self.origin,
            time_lo < time_hi ==> time_lo <= res.time < time_hi,
            time_lo >= time_hi ==> res.time == time_lo,
    {
        let d = random_in_unit_disk(rng);
        proof {
            crate::vec3::lemma_fmul_bound(self.lens_radius as int, d.x as int, 1048576, 65536);
            crate::vec3::lemma_fmul_bound(self.lens_radius as int, d.y as int, 1048576, 65536);
        }
        let rdx = fmul(self.lens_radius, d.x);
        let rdy = fmul(self.lens_radius, d.y);
        proof {
            lemma_lens_offset(self.lens_radius as int, d.x as int, self.u.x as int);
            lemma_lens_offset(self.lens_radius as int, d.x as int, self.u.y as int);
            lemma_lens_offset(self.lens_radius as int, d.x as int, self.u.z as int);
            lemma_lens_offset(self.lens_radius as int, d.y as int, self.v.x as int);
            lemma_lens_offset(self.lens_radius as int, d.y as int, self.v.y as int);
            lemma_lens_offset(self.lens_radius as int, d.y as int, self.v.z as int);
            crate::vec3::lemma_fmul_bound(rdx as int, self.u.x as int, 1048576, 131072);
            crate::vec3::lemma_fmul_bound(rdx as int, self.u.y as int, 1048576, 131072);
            crate::vec3::lemma_fmul_bound(rdx as int, self.u.z as int, 1048576, 131072);
            crate::vec3::lemma_fmul_bound(rdy as int, self.v.x as int, 1048576, 131072);
            crate::vec3::lemma_fmul_bound(rdy as int, self.v.y as int, 1048576, 131072);
            crate::vec3::lemma_fmul_bound(rdy as int, self.v.z as int, 1048576, 131072);
        }
        let ox = self.origin.x + fmul(rdx, self.u.x) + fmul(rdy, self.v.x);
        let oy = self.origin.y + fmul(rdx, self.u.y) + fmul(rdy, self.v.y);
        let oz = self.origin.z + fmul(rdx, self.u.z) + fmul(rdy, self.v.z);
        let orig = Vec3 { x: ox, y: oy, z: oz };
        proof {
            if self.lens_radius == 0 {
                assert(rdx == 0 && rdy == 0);
                crate::fixed::lemma_fmul_zero(self.u.x as int);
                crate::fixed::lemma_fmul_zero(self.u.y as int);
                crate::fixed::lemma_fmul_zero(self.u.z as int);
                crate::fixed::lemma_fmul_zero(self.v.x as int);
                crate::fixed::lemma_fmul_zero(self.v.y as int);
                crate::fixed::lemma_fmul_zero(self.v.z as int);
                assert(orig == self.origin);
            }
            crate::vec3::lemma_fmul_bound(s as int, self.horizontal.x as int, 65536, 0x400_0000);
            crate::vec3::lemma_fmul_bound(s as int, self.horizontal.y as int, 65536, 0x400_0000);
            crate::vec3::lemma_fmul_bound(s as int, self.horizontal.z as int, 65536, 0x400_0000);
            crate::vec3::lemma_fmul_bound(t as int, self.vertical.x as int, 65536, 0x400_0000);
            crate::vec3::lemma_fmul_bound(t as int, self.vertical.y as int, 65536, 0x400_0000);
            crate::vec3::lemma_fmul_bound(t as int, self.vertical.z as int, 65536, 0x400_0000);
        }
        let dx = self.lower_left_corner.x + fmul(s, self.horizontal.x) + fmul(t, self.vertical.x)
            - ox;
        let dy = self.lower_left_corner.y + fmul(s, self.horizontal.y) + fmul(t, self.vertical.y)
            - oy;
        let dz = self.lower_left_corner.z + fmul(s, self.horizontal.z) + fmul(t, self.vertical.z)
            - oz;
        let time = if time_lo < time_hi {
            random_i64_range(rng, time_lo, time_hi)
        } else {
            time_lo
        };
        Ray { orig, dir: Vec3 { x: dx, y: dy, z: dz }, time }
    }
}

/// A lens sample scaled by the radius stays within the radius, and blending
/// it through a basis component bounded by two units stays within twice the
/// radius.
proof fn lemma_lens_offset(lr: int, dc: int, uc: int)
    requires
        0 <= lr,
        -65536 <= dc <= 65536,
        -131072 <= uc <= 131072,
    ensures
        -lr <= fmul_spec(lr, dc) <= lr,
        -(2 * lr) <= fmul_spec(fmul_spec(lr, dc), uc) <= 2 * lr,
{
    assert(-(lr * 65536) <= lr * dc <= lr * 65536) by (nonlinear_arith)
        requires
            0 <= lr,
            -65536 <= dc <= 65536,
    ;
    crate::fixed::lemma_tdiv_monotone(lr * dc, lr * 65536, 65536);
    crate::fixed::lemma_tdiv_monotone(-(lr * 65536), lr * dc, 65536);
    crate::fixed::lemma_tdiv_multiple(lr, 65536);
    crate::fixed::lemma_tdiv_multiple(-lr, 65536);
    assert(-(lr * 65536) == (-lr) * 65536) by (nonlinear_arith);
    let m = fmul_spec(lr, dc);
    assert(-((2 * lr) * 65536) <= m * uc <= (2 * lr) * 65536) by (nonlinear_arith)
        requires
            -lr <= m <= lr,
            -131072 <= uc <= 131072,
    ;
    crate::fixed::lemma_tdiv_monotone(m * uc, (2 * lr) * 65536, 65536);
    crate::fixed::lemma_tdiv_monotone(-((2 * lr) * 65536), m * uc, 65536);
    crate::fixed::lemma_tdiv_multiple(2 * lr, 65536);
    crate::fixed::lemma_tdiv_multiple(-(2 * lr), 65536);
    assert(-((2 * lr) * 65536) == (-(2 * lr)) * 65536) by (nonlinear_arith);
}

} // verus!
