//! The sphere primitive.

use crate::aabb::Aabb;
use crate::hittable::{
    ball_fits, hit_quad, spec_ball_box, spec_ball_pad, spec_quad_hit_t, HitRecord,
};
use crate::material::{mat_wf, Material};
use crate::ray::Ray;
use crate::vec3::{v_fits, Vec3};
use std::rc::Rc;
use vstd::prelude::*;

verus! {

pub struct Sphere {
    pub center: Vec3,
    pub radius: i64,
    pub material: Rc<Material>,
}

impl Sphere {
    /// The padded box fits the coordinate range and the material is valid.
    pub open spec fn wf(self) -> bool {
        &&& ball_fits(self.center, self.radius as int)
        &&& mat_wf(*self.material)
    }

    /// The box this sphere reports, at any time.
    pub open spec fn spec_box(self) -> Aabb {
        spec_ball_box(self.center, self.radius as int)
    }

    /// The hit parameter this sphere reports within `(t0, t1)`.
    pub open spec fn spec_hit_t(self, ray: Ray, t0: int, t1: int) -> Option<int> {
        spec_quad_hit_t(self.center, self.radius as int, self.spec_box(), ray, t0, t1)
    }

    pub fn new(center: Vec3, radius: i64, material: Rc<Material>) -> (r: Sphere)
        ensures
            r.center == center,
            r.radius == radius,
            r.material == material,
    {
        Sphere { center, radius, material }
    }

    /// Compute the padded box.
    pub(crate) fn make_box(center: &Vec3, radius: i64) -> (r: Aabb)
        requires
            ball_fits(*center, radius as int),
        ensures
            r == spec_ball_box(*center, radius as int),
    {
        let pad = radius + crate::fixed::div_trunc(radius as i128, 256) as i64 + 2;
        Aabb {
            minimum: Vec3 { x: center.x - pad, y: center.y - pad, z: center.z - pad },
            maximum: Vec3 { x: center.x + pad, y: center.y + pad, z: center.z + pad },
        }
    }

    /// The nearest intersection strictly inside `(t_min, t_max)`, exactly as
    /// `spec_hit_t` describes it.
    pub fn hit(&self, r: &Ray, t_min: i64, t_max: i64) -> (res: Option<HitRecord>)
        requires
            self.wf(),
            v_fits(r.orig),
            v_fits(r.dir),
        ensures
            res is Some <==> self.spec_hit_t(*r, t_min as int, t_max as int) is Some,
            res matches Some(rec) ==> {
                &&& self.spec_hit_t(*r, t_min as int, t_max as int) == Some(rec.t as int)
                &&& t_min < rec.t < t_max
                &&& rec.p == crate::ray::spec_at(*r, rec.t as int)
                &&& rec.material == self.material
                &&& crate::hittable::rec_wf(rec)
                &&& ({
                    let outward = crate::hittable::spec_outward(
                        self.center,
                        self.radius as int,
                        *r,
                        rec.t as int,
                    );
                    &&& rec.front_face == (crate::vec3::dot_wide(r.dir, outward) < 0)
                    &&& rec.normal == (if rec.front_face {
                        outward
                    } else {
                        crate::vec3::spec_negate(outward)
                    })
                    &&& rec.uv.0 == crate::hittable::spec_get_uv(outward).0
                    &&& rec.uv.1 == crate::hittable::spec_get_uv(outward).1
                })
                &&& ({
                    let slack = self.radius + spec_ball_pad(self.radius as int) + 1;
                    &&& -slack <= rec.p.x - self.center.x <= slack
                    &&& -slack <= rec.p.y - self.center.y <= slack
                    &&& -slack <= rec.p.z - self.center.z <= slack
                })
            },
    {
        let bbox = Sphere::make_box(&self.center, self.radius);
        hit_quad(&self.center, self.radius, &bbox, &self.material, r, t_min, t_max)
    }

    /// Spheres do not move: the box is time independent.
    pub fn bounding_box(&self, time0: i64, time1: i64) -> (res: Option<Aabb>)
        requires
            self.wf(),
        ensures
            res == Some(self.spec_box()),
    {
        Some(Sphere::make_box(&self.center, self.radius))
    }
}

} // verus!
