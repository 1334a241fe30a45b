//! A sphere whose center moves linearly between two keyframes, for motion
//! blur.

use crate::aabb::{contains, spec_union, Aabb};
use crate::fixed::{lemma_tdiv_monotone, lemma_tdiv_multiple, tdiv, SCALE};
use crate::hittable::{
    ball_fits, hit_quad, spec_ball_box, spec_quad_hit_t, HitRecord,
};
use crate::material::{mat_wf, Material};
use crate::ray::Ray;
use crate::sphere::Sphere;
use crate::vec3::{v_fits, vec3i, Vec3};
use std::rc::Rc;
use vstd::prelude::*;

verus! {

pub struct MovingSphere {
    pub center0: Vec3,
    pub center1: Vec3,
    pub time0: i64,
    pub time1: i64,
    pub radius: i64,
    pub material: Rc<Material>,
}

impl MovingSphere {
    /// Both keyframe boxes fit, the keyframe interval is a proper subrange
    /// of the shutter scale, and the material is valid.
    pub open spec fn wf(self) -> bool {
        &&& ball_fits(self.center0, self.radius as int)
        &&& ball_fits(self.center1, self.radius as int)
        &&& 0 <= self.time0 < self.time1 <= SCALE
        &&& mat_wf(*self.material)
    }

    /// The interpolated center at a time: `c0 + ((t - t0)/(t1 - t0))(c1 - c0)`.
    pub open spec fn spec_center(self, time: int) -> Vec3 {
        let frac = tdiv((time - self.time0) * 65536, self.time1 - self.time0);
        vec3i(
            self.center0.x + tdiv(frac * (self.center1.x - self.center0.x), 65536),
            self.center0.y + tdiv(frac * (self.center1.y - self.center0.y), 65536),
            self.center0.z + tdiv(frac * (self.center1.z - self.center0.z), 65536),
        )
    }

    /// The hit parameter at the momentary center for the ray's time.
    pub open spec fn spec_hit_t(self, ray: Ray, t0: int, t1: int) -> Option<int> {
        let c = self.spec_center(ray.time as int);
        spec_quad_hit_t(c, self.radius as int, spec_ball_box(c, self.radius as int), ray, t0, t1)
    }

    /// The union of the keyframe-interval boxes at two times.
    pub open spec fn spec_box_over(self, lo: int, hi: int) -> Aabb {
        spec_union(
            spec_ball_box(self.spec_center(lo), self.radius as int),
            spec_ball_box(self.spec_center(hi), self.radius as int),
        )
    }

    pub fn new(
        center0: Vec3,
        center1: Vec3,
        time0: i64,
        time1: i64,
        radius: i64,
        material: Rc<Material>,
    ) -> (r: MovingSphere)
        ensures
            r.center0 == center0,
            r.center1 == center1,
            r.time0 == time0,
            r.time1 == time1,
            r.radius == radius,
            r.material == material,
    {
        MovingSphere { center0, center1, time0, time1, radius, material }
    }

    /// The interpolated center; see `spec_center`.
    pub fn center(&self, time: i64) -> (r: Vec3)
        requires
            self.wf(),
            self.time0 <= time <= self.time1,
        ensures
            r == self.spec_center(time as int),
            ball_fits(r, self.radius as int),
    {
        proof {
            lemma_frac_range(*self, time as int);
            lemma_center_within(*self, time as int);
            let frac = tdiv((time - self.time0) * 65536, self.time1 - self.time0);
            lemma_component_within(frac, self.center0.x as int, self.center1.x as int);
            lemma_component_within(frac, self.center0.y as int, self.center1.y as int);
            lemma_component_within(frac, self.center0.z as int, self.center1.z as int);
            crate::vec3::lemma_mul_bound(frac, self.center1.x - self.center0.x, 65536, 0x8000_0000);
            crate::vec3::lemma_mul_bound(frac, self.center1.y - self.center0.y, 65536, 0x8000_0000);
            crate::vec3::lemma_mul_bound(frac, self.center1.z - self.center0.z, 65536, 0x8000_0000);
        }
        let dt = self.time1 - self.time0;
        let frac = crate::fixed::div_trunc((time - self.time0) as i128 * 65536, dt as i128)
            as i64;
        let x = self.center0.x + crate::fixed::div_trunc(
            frac as i128 * (self.center1.x - self.center0.x) as i128,
            65536,
        ) as i64;
        let y = self.center0.y + crate::fixed::div_trunc(
            frac as i128 * (self.center1.y - self.center0.y) as i128,
            65536,
        ) as i64;
        let z = self.center0.z + crate::fixed::div_trunc(
            frac as i128 * (self.center1.z - self.center0.z) as i128,
            65536,
        ) as i64;
        Vec3 { x, y, z }
    }

    /// The nearest intersection with the sphere at the ray's own time.
    pub fn hit(&self, r: &Ray, t_min: i64, t_max: i64) -> (res: Option<HitRecord>)
        requires
            self.wf(),
            v_fits(r.orig),
            v_fits(r.dir),
            self.time0 <= r.time <= self.time1,
        ensures
            res is Some <==> self.spec_hit_t(*r, t_min as int, t_max as int) is Some,
            res matches Some(rec) ==> {
                &&& self.spec_hit_t(*r, t_min as int, t_max as int) == Some(rec.t as int)
                &&& t_min < rec.t < t_max
                &&& rec.p == crate::ray::spec_at(*r, rec.t as int)
                &&& rec.material == self.material
                &&& crate::hittable::rec_wf(rec)
                &&& ({
                    let c = self.spec_center(r.time as int);
                    let outward = crate::hittable::spec_outward(
                        c,
                        self.radius as int,
                        *r,
                        rec.t as int,
                    );
                    &&& rec.front_face == (crate::vec3::dot_wide(r.dir, outward) < 0)
                    &&& rec.normal == (if rec.front_face {
                        outward
                    } else {
                        crate::vec3::spec_negate(outward)
                    })
                    &&& rec.uv.0 == crate::hittable::spec_get_uv(outward).0
                    &&& rec.uv.1 == crate::hittable::spec_get_uv(outward).1
                    &&& ({
                        let slack = self.radius + crate::hittable::spec_ball_pad(
                            self.radius as int,
                        ) + 1;
                        &&& -slack <= rec.p.x - c.x <= slack
                        &&& -slack <= rec.p.y - c.y <= slack
                        &&& -slack <= rec.p.z - c.z <= slack
                    })
                })
            },
    {
        let c = self.center(r.time);
        let bbox = Sphere::make_box(&c, self.radius);
        hit_quad(&c, self.radius, &bbox, &self.material, r, t_min, t_max)
    }

    /// The box covering the sphere between two times of its keyframe range:
    /// the union of the momentary boxes at the two ends.
    pub fn bounding_box(&self, time0: i64, time1: i64) -> (res: Option<Aabb>)
        requires
            self.wf(),
            self.time0 <= time0 <= time1 <= self.time1,
        ensures
            res == Some(self.spec_box_over(time0 as int, time1 as int)),
    {
        let c0 = self.center(time0);
        let c1 = self.center(time1);
        let b0 = Sphere::make_box(&c0, self.radius);
        let b1 = Sphere::make_box(&c1, self.radius);
        Some(Aabb::surrounding_box(b0, b1))
    }
}

/// For a fraction between two others, the interpolated offset lies between
/// the two interpolated offsets, whatever the sign of the span.
proof fn lemma_interp_between(f1: int, f: int, f2: int, delta: int)
    requires
        f1 <= f <= f2,
    ensures
        delta >= 0 ==> tdiv(f1 * delta, 65536) <= tdiv(f * delta, 65536) <= tdiv(
            f2 * delta,
            65536,
        ),
        delta < 0 ==> tdiv(f2 * delta, 65536) <= tdiv(f * delta, 65536) <= tdiv(
            f1 * delta,
            65536,
        ),
{
    if delta >= 0 {
        assert(f1 * delta <= f * delta <= f2 * delta) by (nonlinear_arith)
            requires
                f1 <= f <= f2,
                delta >= 0,
        ;
        lemma_tdiv_monotone(f1 * delta, f * delta, 65536);
        lemma_tdiv_monotone(f * delta, f2 * delta, 65536);
    } else {
        assert(f2 * delta <= f * delta <= f1 * delta) by (nonlinear_arith)
            requires
                f1 <= f <= f2,
                delta < 0,
        ;
        lemma_tdiv_monotone(f2 * delta, f * delta, 65536);
        lemma_tdiv_monotone(f * delta, f1 * delta, 65536);
    }
}

/// Within the keyframe range the fraction lies in `[0, 1]`.
proof fn lemma_frac_range(ms: MovingSphere, time: int)
    requires
        ms.wf(),
        ms.time0 <= time <= ms.time1,
    ensures
        0 <= tdiv((time - ms.time0) * 65536, ms.time1 - ms.time0) <= 65536,
{
    let dt = ms.time1 - ms.time0;
    assert(0 <= (time - ms.time0) * 65536 <= dt * 65536) by (nonlinear_arith)
        requires
            0 <= time - ms.time0 <= dt,
    ;
    lemma_tdiv_monotone(0, (time - ms.time0) * 65536, dt);
    lemma_tdiv_monotone((time - ms.time0) * 65536, dt * 65536, dt);
    lemma_tdiv_multiple(65536, dt);
    assert(dt * 65536 == 65536 * dt);
}

/// Within the keyframe range each component of the momentary center lies
/// between the two keyframe components, so its padded box still fits.
pub proof fn lemma_center_within(ms: MovingSphere, time: int)
    requires
        ms.wf(),
        ms.time0 <= time <= ms.time1,
    ensures
        ball_fits(ms.spec_center(time), ms.radius as int),
        ({
            let c = ms.spec_center(time);
            &&& (ms.center0.x <= c.x <= ms.center1.x) || (ms.center1.x <= c.x <= ms.center0.x)
            &&& (ms.center0.y <= c.y <= ms.center1.y) || (ms.center1.y <= c.y <= ms.center0.y)
            &&& (ms.center0.z <= c.z <= ms.center1.z) || (ms.center1.z <= c.z <= ms.center0.z)
        }),
        ({
            let frac = tdiv((time - ms.time0) * 65536, ms.time1 - ms.time0);
            &&& ms.spec_center(time).x as int == ms.center0.x + tdiv(
                frac * (ms.center1.x - ms.center0.x),
                65536,
            )
            &&& ms.spec_center(time).y as int == ms.center0.y + tdiv(
                frac * (ms.center1.y - ms.center0.y),
                65536,
            )
            &&& ms.spec_center(time).z as int == ms.center0.z + tdiv(
                frac * (ms.center1.z - ms.center0.z),
                65536,
            )
        }),
{
    lemma_frac_range(ms, time);
    let frac = tdiv((time - ms.time0) * 65536, ms.time1 - ms.time0);
    lemma_component_within(frac, ms.center0.x as int, ms.center1.x as int);
    lemma_component_within(frac, ms.center0.y as int, ms.center1.y as int);
    lemma_component_within(frac, ms.center0.z as int, ms.center1.z as int);
}

/// A fraction of the way from `a` to `b` lands between `a` and `b`.
proof fn lemma_component_within(frac: int, a: int, b: int)
    requires
        0 <= frac <= 65536,
    ensures
        a <= b ==> a <= a + tdiv(frac * (b - a), 65536) <= b,
        b <= a ==> b <= a + tdiv(frac * (b - a), 65536) <= a,
{
    lemma_interp_between(0, frac, 65536, b - a);
    lemma_tdiv_multiple(b - a, 65536);
    assert(0 * (b - a) == 0 && 65536 * (b - a) == (b - a) * 65536) by (nonlinear_arith);
    assert(tdiv(0, 65536) == 0);
}

/// Between two query times inside the keyframe range, the momentary box at
/// any intermediate time is contained in the union of the boxes at the two
/// ends: what makes the reported bounding box sound for every ray time it
/// covers.
pub proof fn lemma_box_covers(ms: MovingSphere, lo: int, time: int, hi: int)
    requires
        ms.wf(),
        ms.time0 <= lo <= time <= hi <= ms.time1,
    ensures
        contains(
            ms.spec_box_over(lo, hi),
            spec_ball_box(ms.spec_center(time), ms.radius as int),
        ),
{
    lemma_frac_range(ms, lo);
    lemma_frac_range(ms, time);
    lemma_frac_range(ms, hi);
    lemma_center_within(ms, lo);
    lemma_center_within(ms, time);
    lemma_center_within(ms, hi);
    let dt = ms.time1 - ms.time0;
    let flo = tdiv((lo - ms.time0) * 65536, dt);
    let ft = tdiv((time - ms.time0) * 65536, dt);
    let fhi = tdiv((hi - ms.time0) * 65536, dt);
    assert((lo - ms.time0) * 65536 <= (time - ms.time0) * 65536 <= (hi - ms.time0) * 65536)
        by (nonlinear_arith)
        requires
            lo <= time <= hi,
    ;
    lemma_tdiv_monotone((lo - ms.time0) * 65536, (time - ms.time0) * 65536, dt);
    lemma_tdiv_monotone((time - ms.time0) * 65536, (hi - ms.time0) * 65536, dt);
    lemma_interp_between(flo, ft, fhi, ms.center1.x - ms.center0.x);
    lemma_interp_between(flo, ft, fhi, ms.center1.y - ms.center0.y);
    lemma_interp_between(flo, ft, fhi, ms.center1.z - ms.center0.z);
}

} // verus!
