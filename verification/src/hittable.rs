//! Hit records: what an intersection test reports to the integrator.

use crate::aabb::{in_slab, spec_box_hit, Aabb};
use crate::fixed::{fdiv_spec, spec_isqrt, tdiv, SCALE};
use crate::material::{mat_wf, Material};
use crate::ray::{spec_at, Ray};
use crate::trig::{acos_fx, atan2_fx, spec_acos, spec_atan2, PI_FX, TWO_PI_FX};
use crate::vec3::{bounded, dot_wide, spec_minus, spec_near_zero, spec_negate, v_fits, vec3i,
    Vec3};
use crate::moving_sphere::MovingSphere;
use crate::sphere::Sphere;
use std::rc::Rc;
use vstd::prelude::*;

verus! {

/// Relies on `Rc::clone`: it returns a new handle to the same allocation,
/// hence to the same value.
#[verifier::external_body]
pub(crate) fn rc_clone_material(v: &Rc<Material>) -> (res: Rc<Material>)
    ensures
        res == *v,
{
    Rc::clone(v)
}

pub struct HitRecord {
    pub p: Vec3,
    pub normal: Vec3,
    pub t: i64,
    pub uv: (i64, i64),
    pub front_face: bool,
    pub material: Rc<Material>,
}

/// What every record handed to the integrator satisfies: the hit point is a
/// usable coordinate, the corrected normal is a roughly-unit nonzero vector,
/// the surface coordinates are in `[0, 1]`, and the material is valid.
pub open spec fn rec_wf(rec: HitRecord) -> bool {
    &&& v_fits(rec.p)
    &&& bounded(rec.normal, 8 * SCALE as int)
    &&& !spec_near_zero(rec.normal)
    &&& 0 <= rec.uv.0 <= SCALE
    &&& 0 <= rec.uv.1 <= SCALE
    &&& mat_wf(*rec.material)
}

impl HitRecord {
    /// Build a record at parameter `t`, flipping the outward normal onto the
    /// side the ray came from.
    pub fn new(t: i64, r: &Ray, normal: Vec3, material: Rc<Material>, uv: (i64, i64)) -> (res:
        HitRecord)
        requires
            v_fits(r.orig),
            v_fits(r.dir),
            -0x8000_0000_0000 <= t <= 0x8000_0000_0000,
            bounded(normal, 0x2000_0000_0000_0000),
        ensures
            res.t == t,
            res.uv == uv,
            res.material == material,
            res.p == spec_at(*r, t as int),
            res.front_face == (dot_wide(r.dir, normal) < 0),
            res.normal == if res.front_face {
                normal
            } else {
                spec_negate(normal)
            },
    {
        let d = r.dir.dot_wide(&normal);
        let (normal, front_face) = if d < 0 {
            (normal, true)
        } else {
            (normal.negate(), false)
        };
        HitRecord { p: r.at(t), normal, t, uv, front_face, material }
    }
}


/// The box slack of a ball: hit points are rounded, so the box a sphere
/// reports is padded by a couple of steps plus a small fraction of the
/// radius.
pub open spec fn spec_ball_pad(radius: int) -> int {
    radius / 256 + 2
}

/// The padded axis-aligned box of a ball.
pub open spec fn spec_ball_box(center: Vec3, radius: int) -> Aabb {
    let pad = radius + spec_ball_pad(radius);
    Aabb {
        minimum: vec3i(center.x - pad, center.y - pad, center.z - pad),
        maximum: vec3i(center.x + pad, center.y + pad, center.z + pad),
    }
}

/// The padded box of the ball stays within usable coordinates.
pub open spec fn ball_fits(center: Vec3, radius: int) -> bool {
    &&& v_fits(center)
    &&& 1 <= radius
    &&& -0x4000_0000 <= center.x - (radius + spec_ball_pad(radius))
    &&& center.x + (radius + spec_ball_pad(radius)) <= 0x4000_0000
    &&& -0x4000_0000 <= center.y - (radius + spec_ball_pad(radius))
    &&& center.y + (radius + spec_ball_pad(radius)) <= 0x4000_0000
    &&& -0x4000_0000 <= center.z - (radius + spec_ball_pad(radius))
    &&& center.z + (radius + spec_ball_pad(radius)) <= 0x4000_0000
}

/// The outward normal at the (rounded) point of parameter `t`: the offset
/// from the center divided by the radius.
pub open spec fn spec_outward(center: Vec3, radius: int, ray: Ray, t: int) -> Vec3 {
    let p = spec_at(ray, t);
    vec3i(
        fdiv_spec(p.x - center.x, radius),
        fdiv_spec(p.y - center.y, radius),
        fdiv_spec(p.z - center.z, radius),
    )
}

/// A candidate root is accepted when the exact ray position at it lies in
/// the padded box and its outward normal does not round to zero.
pub open spec fn quad_accept(center: Vec3, radius: int, bbox: Aabb, ray: Ray, t: int) -> bool {
    &&& in_slab(bbox, ray.orig, ray.dir, t)
    &&& !spec_near_zero(spec_outward(center, radius, ray, t))
}

/// The parameter at which a ray first meets the ball of the given center and
/// radius within the open interval `(t0, t1)`, if it does: the quadratic
/// `|orig + t*dir - center|^2 = radius^2` is solved exactly over the wide
/// integers, the nearer root is preferred, and the chosen root must be
/// accepted (see `quad_accept`).
pub open spec fn spec_quad_hit_t(
    center: Vec3,
    radius: int,
    bbox: Aabb,
    ray: Ray,
    t0: int,
    t1: int,
) -> Option<int> {
    let oc = spec_minus(ray.orig, center);
    let a2 = dot_wide(ray.dir, ray.dir);
    if a2 == 0 {
        None
    } else {
        let hb = dot_wide(oc, ray.dir);
        let c2 = dot_wide(oc, oc) - radius * radius;
        let disc = hb * hb - a2 * c2;
        if disc < 0 {
            None
        } else {
            let sq = spec_isqrt(disc);
            let r1 = tdiv((-hb - sq) * 65536, a2);
            let r2 = tdiv((-hb + sq) * 65536, a2);
            if t0 < r1 && r1 < t1 {
                if quad_accept(center, radius, bbox, ray, r1) {
                    Some(r1)
                } else {
                    None
                }
            } else if t0 < r2 && r2 < t1 {
                if quad_accept(center, radius, bbox, ray, r2) {
                    Some(r2)
                } else {
                    None
                }
            } else {
                None
            }
        }
    }
}

/// The two candidate roots are ordered: the one using `-sq` is nearer.
proof fn lemma_roots_ordered(hb: int, sq: int, a2: int)
    requires
        a2 >= 1,
        sq >= 0,
    ensures
        tdiv((-hb - sq) * 65536, a2) <= tdiv((-hb + sq) * 65536, a2),
{
    assert((-hb - sq) * 65536 <= (-hb + sq) * 65536) by (nonlinear_arith)
        requires
            sq >= 0,
    ;
    crate::fixed::lemma_tdiv_monotone((-hb - sq) * 65536, (-hb + sq) * 65536, a2);
}

/// A reported parameter lies strictly inside the interval, inside the padded
/// box, and therefore witnesses a box hit.
pub proof fn lemma_quad_hit_in_box(
    center: Vec3,
    radius: int,
    bbox: Aabb,
    ray: Ray,
    t0: int,
    t1: int,
)
    ensures
        spec_quad_hit_t(center, radius, bbox, ray, t0, t1) matches Some(t) ==> {
            &&& t0 < t < t1
            &&& in_slab(bbox, ray.orig, ray.dir, t)
            &&& spec_box_hit(bbox, ray.orig, ray.dir, t0, t1)
        },
{
    if spec_quad_hit_t(center, radius, bbox, ray, t0, t1) is Some {
        let t = spec_quad_hit_t(center, radius, bbox, ray, t0, t1)->0;
        crate::aabb::lemma_box_hit_witness(bbox, ray.orig, ray.dir, t0, t1, t);
    }
}

/// Narrowing the upper bound of the interval filters the result: a hit
/// closer than the new bound is kept, anything else becomes a miss.  This is
/// what lets an aggregate shrink the interval as it scans.
pub proof fn lemma_quad_hit_narrow(
    center: Vec3,
    radius: int,
    bbox: Aabb,
    ray: Ray,
    t0: int,
    t1: int,
    t1p: int,
)
    requires
        t1p <= t1,
    ensures
        match spec_quad_hit_t(center, radius, bbox, ray, t0, t1) {
            Some(t) => spec_quad_hit_t(center, radius, bbox, ray, t0, t1p) == (if t < t1p {
                Some(t)
            } else {
                None
            }),
            None => spec_quad_hit_t(center, radius, bbox, ray, t0, t1p) is None,
        },
{
    let oc = spec_minus(ray.orig, center);
    let a2 = dot_wide(ray.dir, ray.dir);
    if a2 != 0 {
        let hb = dot_wide(oc, ray.dir);
        let c2 = dot_wide(oc, oc) - radius * radius;
        let disc = hb * hb - a2 * c2;
        if disc >= 0 {
            crate::vec3::lemma_square_sum_nonneg(ray.dir);
            crate::fixed::lemma_isqrt_bounds(disc);
            lemma_roots_ordered(hb, spec_isqrt(disc), a2);
        }
    }
}


/// Exact membership of the ray position at `t` in the box.
fn slab_check(b: &Aabb, r: &Ray, t: i64) -> (res: bool)
    ensures
        res == in_slab(*b, r.orig, r.dir, t as int),
{
    let t1: i128 = t as i128;
    proof {
        crate::vec3::lemma_mul_bound(t as int, r.dir.x as int, 0x8000_0000_0000_0000, 0x8000_0000_0000_0000);
        crate::vec3::lemma_mul_bound(t as int, r.dir.y as int, 0x8000_0000_0000_0000, 0x8000_0000_0000_0000);
        crate::vec3::lemma_mul_bound(t as int, r.dir.z as int, 0x8000_0000_0000_0000, 0x8000_0000_0000_0000);
    }
    let px: i128 = (r.orig.x as i128) * 65536 + t1 * (r.dir.x as i128);
    let py: i128 = (r.orig.y as i128) * 65536 + t1 * (r.dir.y as i128);
    let pz: i128 = (r.orig.z as i128) * 65536 + t1 * (r.dir.z as i128);
    (b.minimum.x as i128) * 65536 <= px && px <= (b.maximum.x as i128) * 65536
        && (b.minimum.y as i128) * 65536 <= py && py <= (b.maximum.y as i128) * 65536
        && (b.minimum.z as i128) * 65536 <= pz && pz <= (b.maximum.z as i128) * 65536
}

/// Spherical surface coordinates of a point of the unit sphere.
pub open spec fn spec_get_uv(p: Vec3) -> (int, int) {
    let theta = spec_acos(-(p.y as int));
    let phi = spec_atan2(-(p.z as int), p.x as int) + PI_FX as int;
    (tdiv(phi * 65536, TWO_PI_FX as int), tdiv(theta * 65536, PI_FX as int))
}

/// Surface coordinates from the outward normal, both in `[0, 1]`.
fn get_uv(p: &Vec3) -> (res: (i64, i64))
    requires
        bounded(*p, 0x2000_0000),
    ensures
        res.0 == spec_get_uv(*p).0,
        res.1 == spec_get_uv(*p).1,
        0 <= res.0 <= SCALE,
        0 <= res.1 <= SCALE,
{
    let theta = acos_fx(-p.y);
    let phi = atan2_fx(-p.z, p.x) + PI_FX;
    proof {
        lemma_angle_fraction(phi as int, TWO_PI_FX as int);
        lemma_angle_fraction(theta as int, PI_FX as int);
    }
    let u = crate::fixed::div_trunc(phi as i128 * 65536, TWO_PI_FX as i128) as i64;
    let v = crate::fixed::div_trunc(theta as i128 * 65536, PI_FX as i128) as i64;
    (u, v)
}

/// An angle within `[0, span]` maps to a fraction within `[0, 1]`.
proof fn lemma_angle_fraction(angle: int, span: int)
    requires
        1 <= span,
        0 <= angle <= span,
    ensures
        0 <= tdiv(angle * 65536, span) <= 65536,
{
    assert(0 <= angle * 65536 <= span * 65536) by (nonlinear_arith)
        requires
            0 <= angle <= span,
    ;
    crate::fixed::lemma_tdiv_monotone(0, angle * 65536, span);
    crate::fixed::lemma_tdiv_monotone(angle * 65536, span * 65536, span);
    crate::fixed::lemma_tdiv_multiple(65536, span);
    assert(span * 65536 == 65536 * span);
}

/// Solve the quadratic hit of a ball against a ray and build the record;
/// this is the shared core of the sphere and the moving sphere.  The result
/// agrees with `spec_quad_hit_t` in every part.
pub fn hit_quad(
    center: &Vec3,
    radius: i64,
    bbox: &Aabb,
    material: &Rc<Material>,
    ray: &Ray,
    t_min: i64,
    t_max: i64,
) -> (res: Option<HitRecord>)
    requires
        ball_fits(*center, radius as int),
        *bbox == spec_ball_box(*center, radius as int),
        v_fits(ray.orig),
        v_fits(ray.dir),
        mat_wf(**material),
    ensures
        ({
            let spec = spec_quad_hit_t(
                *center,
                radius as int,
                *bbox,
                *ray,
                t_min as int,
                t_max as int,
            );
            &&& (res is Some <==> spec is Some)
            &&& (res matches Some(rec) ==> {
                &&& spec == Some(rec.t as int)
                &&& t_min < rec.t < t_max
                &&& rec.p == spec_at(*ray, rec.t as int)
                &&& rec.material == *material
                &&& rec_wf(rec)
                &&& ({
                    let outward = spec_outward(*center, radius as int, *ray, rec.t as int);
                    &&& rec.front_face == (dot_wide(ray.dir, outward) < 0)
                    &&& rec.normal == (if rec.front_face {
                        outward
                    } else {
                        spec_negate(outward)
                    })
                    &&& rec.uv.0 == spec_get_uv(outward).0
                    &&& rec.uv.1 == spec_get_uv(outward).1
                })
                &&& ({
                    let slack = radius + spec_ball_pad(radius as int) + 1;
                    &&& -slack <= rec.p.x - center.x <= slack
                    &&& -slack <= rec.p.y - center.y <= slack
                    &&& -slack <= rec.p.z - center.z <= slack
                })
            })
        }),
{
    let ghost spec = spec_quad_hit_t(
        *center,
        radius as int,
        *bbox,
        *ray,
        t_min as int,
        t_max as int,
    );
    let oc = ray.orig.minus(center);
    let a2: i128 = ray.dir.dot_wide(&ray.dir);
    proof {
        crate::vec3::lemma_square_sum_nonneg(ray.dir);
    }
    if a2 == 0 {
        return None;
    }
    proof {
        crate::vec3::lemma_mul_bound(oc.x as int, ray.dir.x as int, 0x8000_0000, 0x4000_0000);
        crate::vec3::lemma_mul_bound(oc.y as int, ray.dir.y as int, 0x8000_0000, 0x4000_0000);
        crate::vec3::lemma_mul_bound(oc.z as int, ray.dir.z as int, 0x8000_0000, 0x4000_0000);
        crate::vec3::lemma_mul_bound(oc.x as int, oc.x as int, 0x8000_0000, 0x8000_0000);
        crate::vec3::lemma_mul_bound(oc.y as int, oc.y as int, 0x8000_0000, 0x8000_0000);
        crate::vec3::lemma_mul_bound(oc.z as int, oc.z as int, 0x8000_0000, 0x8000_0000);
        crate::vec3::lemma_mul_bound(radius as int, radius as int, 0x4000_0000, 0x4000_0000);
        crate::vec3::lemma_mul_bound(ray.dir.x as int, ray.dir.x as int, 0x4000_0000, 0x4000_0000);
        crate::vec3::lemma_mul_bound(ray.dir.y as int, ray.dir.y as int, 0x4000_0000, 0x4000_0000);
        crate::vec3::lemma_mul_bound(ray.dir.z as int, ray.dir.z as int, 0x4000_0000, 0x4000_0000);
    }
    let hb: i128 = oc.dot_wide(&ray.dir);
    let c2: i128 = oc.dot_wide(&oc) - (radius as i128) * (radius as i128);
    proof {
        crate::vec3::lemma_mul_bound(hb as int, hb as int, 0x6000_0000_0000_0000, 0x6000_0000_0000_0000);
        crate::vec3::lemma_mul_bound(a2 as int, c2 as int, 0x3000_0000_0000_0000, 0xE000_0000_0000_0000);
    }
    let disc: i128 = hb * hb - a2 * c2;
    if disc < 0 {
        return None;
    }
    proof {
        crate::fixed::lemma_isqrt_bounds(disc as int);
        crate::vec3::lemma_root_bound(disc as int, 0x1_0000_0000_0000_0000);
    }
    let sq: i128 = crate::fixed::isqrt(disc as u128) as i128;
    proof {
        crate::vec3::lemma_mul_bound(
            (-hb - sq) as int,
            65536,
            0x2_0000_0000_0000_0000,
            65536,
        );
        crate::vec3::lemma_mul_bound(
            (-hb + sq) as int,
            65536,
            0x2_0000_0000_0000_0000,
            65536,
        );
    }
    let r1: i128 = crate::fixed::div_trunc((-hb - sq) * 65536, a2);
    let r2: i128 = crate::fixed::div_trunc((-hb + sq) * 65536, a2);
    let root: i64 = if (t_min as i128) < r1 && r1 < (t_max as i128) {
        r1 as i64
    } else if (t_min as i128) < r2 && r2 < (t_max as i128) {
        r2 as i64
    } else {
        return None;
    };
    if !slab_check(bbox, ray, root) {
        return None;
    }
    proof {
        lemma_root_small(*center, radius as int, *bbox, *ray, root as int);
    }
    let p = ray.at(root);
    proof {
        lemma_point_in_box(*center, radius as int, *bbox, *ray, root as int);
    }
    let ox = crate::fixed::fdiv(p.x - center.x, radius);
    let oy = crate::fixed::fdiv(p.y - center.y, radius);
    let oz = crate::fixed::fdiv(p.z - center.z, radius);
    let outward = Vec3 { x: ox, y: oy, z: oz };
    if outward.x == 0 && outward.y == 0 && outward.z == 0 {
        return None;
    }
    let uv = get_uv(&outward);
    Some(HitRecord::new(root, ray, outward, crate::hittable::rc_clone_material(material), uv))
}

/// A root that passes the slab test is small: some direction component is
/// nonzero, and the product `root * d` is confined by the box.
proof fn lemma_root_small(center: Vec3, radius: int, bbox: Aabb, ray: Ray, t: int)
    requires
        ball_fits(center, radius),
        bbox == spec_ball_box(center, radius),
        v_fits(ray.orig),
        v_fits(ray.dir),
        dot_wide(ray.dir, ray.dir) != 0,
        in_slab(bbox, ray.orig, ray.dir, t),
    ensures
        -0x8000_0000_0000 <= t <= 0x8000_0000_0000,
{
    crate::vec3::lemma_square_sum_nonneg(ray.dir);
    if ray.dir.x != 0 {
        lemma_confined(t, ray.dir.x as int, bbox.minimum.x - ray.orig.x, bbox.maximum.x - ray.orig.x);
    } else if ray.dir.y != 0 {
        lemma_confined(t, ray.dir.y as int, bbox.minimum.y - ray.orig.y, bbox.maximum.y - ray.orig.y);
    } else {
        assert(ray.dir.z != 0) by {
            if ray.dir.z == 0 {
                assert(dot_wide(ray.dir, ray.dir) == 0) by (nonlinear_arith)
                    requires
                        ray.dir.x as int == 0,
                        ray.dir.y as int == 0,
                        ray.dir.z as int == 0,
                        dot_wide(ray.dir, ray.dir) == (ray.dir.x as int) * (ray.dir.x as int) + (
                        ray.dir.y as int) * (ray.dir.y as int) + (ray.dir.z as int) * (ray.dir.z
                            as int),
                ;
            }
        }
        lemma_confined(t, ray.dir.z as int, bbox.minimum.z - ray.orig.z, bbox.maximum.z - ray.orig.z);
    }
}

/// If `lo * 65536 <= t * d <= hi * 65536` with `d` a nonzero coordinate and
/// `lo`, `hi` coordinates, then `t` is at most a coordinate scaled by
/// `65536`.
proof fn lemma_confined(t: int, d: int, lo: int, hi: int)
    requires
        d != 0,
        -0x8000_0000 <= lo,
        hi <= 0x8000_0000,
        lo * 65536 <= t * d <= hi * 65536,
    ensures
        -0x8000_0000_0000 <= t <= 0x8000_0000_0000,
{
    assert(-0x8000_0000_0000 <= t * d <= 0x8000_0000_0000);
    assert(-0x8000_0000_0000 <= t <= 0x8000_0000_0000) by (nonlinear_arith)
        requires
            d <= -1 || 1 <= d,
            -0x8000_0000_0000 <= t * d <= 0x8000_0000_0000,
    ;
}

/// Inside the slab, the rounded hit point stays a usable coordinate and the
/// outward normal is bounded.
proof fn lemma_point_in_box(center: Vec3, radius: int, bbox: Aabb, ray: Ray, t: int)
    requires
        ball_fits(center, radius),
        bbox == spec_ball_box(center, radius),
        v_fits(ray.orig),
        v_fits(ray.dir),
        in_slab(bbox, ray.orig, ray.dir, t),
    ensures
        v_fits(spec_at(ray, t)),
        ({
            let p = spec_at(ray, t);
            let ok = radius + spec_ball_pad(radius) + 1;
            &&& -ok <= p.x - center.x <= ok
            &&& -ok <= p.y - center.y <= ok
            &&& -ok <= p.z - center.z <= ok
            &&& bounded(spec_outward(center, radius, ray, t), 8int * 65536)
        }),
{
    lemma_axis_point(center.x as int, radius, ray.orig.x as int, ray.dir.x as int, t,
        bbox.minimum.x as int, bbox.maximum.x as int);
    lemma_axis_point(center.y as int, radius, ray.orig.y as int, ray.dir.y as int, t,
        bbox.minimum.y as int, bbox.maximum.y as int);
    lemma_axis_point(center.z as int, radius, ray.orig.z as int, ray.dir.z as int, t,
        bbox.minimum.z as int, bbox.maximum.z as int);
}

/// One axis of `lemma_point_in_box`: the rounded coordinate lands within
/// one step of the slab, and dividing the offset by the radius stays within
/// eight units.
proof fn lemma_axis_point(c: int, radius: int, o: int, d: int, t: int, mn: int, mx: int)
    requires
        1 <= radius,
        mn == c - (radius + spec_ball_pad(radius)),
        mx == c + (radius + spec_ball_pad(radius)),
        -0x4000_0000 <= mn,
        mx <= 0x4000_0000,
        mn * 65536 <= o * 65536 + t * d <= mx * 65536,
    ensures
        mn - 1 <= o + tdiv(t * d, 65536) <= mx + 1,
        ({
            let pc = o + tdiv(t * d, 65536) - c;
            let ok = radius + spec_ball_pad(radius) + 1;
            &&& -ok <= pc <= ok
            &&& -(8 * 65536) <= tdiv(pc * 65536, radius) <= 8 * 65536
        }),
{
    crate::fixed::lemma_tdiv_close(t * d, 65536);
    crate::fixed::lemma_mul_le(tdiv(t * d, 65536), t * d, 1);
    assert((mn - o) * 65536 <= t * d <= (mx - o) * 65536) by (nonlinear_arith)
        requires
            mn * 65536 <= o * 65536 + t * d <= mx * 65536,
    ;
    lemma_rounded_between(t * d, (mn - o), (mx - o));
    let pc = o + tdiv(t * d, 65536) - c;
    let pad = spec_ball_pad(radius);
    assert(-(radius + pad + 1) <= pc <= radius + pad + 1);
    lemma_outward_bound(pc, radius);
}

/// Rounding a product confined between two multiples of the scale stays
/// within one step of those multiples.
proof fn lemma_rounded_between(x: int, lo: int, hi: int)
    requires
        lo * 65536 <= x <= hi * 65536,
    ensures
        lo - 1 <= tdiv(x, 65536) <= hi + 1,
{
    crate::fixed::lemma_tdiv_monotone(lo * 65536, x, 65536);
    crate::fixed::lemma_tdiv_monotone(x, hi * 65536, 65536);
    crate::fixed::lemma_tdiv_multiple(lo, 65536);
    crate::fixed::lemma_tdiv_multiple(hi, 65536);
}

/// An offset within `radius + pad + 1` divided by the radius stays within
/// eight units.
proof fn lemma_outward_bound(pc: int, radius: int)
    requires
        1 <= radius,
        -(radius + spec_ball_pad(radius) + 1) <= pc <= radius + spec_ball_pad(radius) + 1,
    ensures
        -(8 * 65536) <= tdiv(pc * 65536, radius) <= 8 * 65536,
{
    let pad = spec_ball_pad(radius);
    vstd::arithmetic::div_mod::lemma_div_nonincreasing(radius, 256);
    vstd::arithmetic::div_mod::lemma_div_pos_is_pos(radius, 256);
    assert((radius + pad + 1) * 65536 <= (8 * 65536) * radius) by (nonlinear_arith)
        requires
            1 <= radius,
            0 <= pad <= radius + 2,
    ;
    assert(pc * 65536 <= (radius + pad + 1) * 65536 && -((radius + pad + 1) * 65536) <= pc
        * 65536) by (nonlinear_arith)
        requires
            -(radius + pad + 1) <= pc <= radius + pad + 1,
    ;
    crate::fixed::lemma_tdiv_monotone(pc * 65536, (8 * 65536) * radius, radius);
    crate::fixed::lemma_tdiv_monotone(-((8 * 65536) * radius), pc * 65536, radius);
    crate::fixed::lemma_tdiv_multiple(8int * 65536, radius);
    crate::fixed::lemma_tdiv_multiple(-(8 * 65536), radius);
    assert(-((8 * 65536) * radius) == (-(8 * 65536)) * radius) by (nonlinear_arith);
}


/// A surface of the scene: the closed set of primitive variants.
pub enum Hittable {
    Sphere(Sphere),
    MovingSphere(MovingSphere),
}

pub open spec fn h_wf(h: Hittable) -> bool {
    match h {
        Hittable::Sphere(s) => s.wf(),
        Hittable::MovingSphere(m) => m.wf(),
    }
}

/// The surface can answer a hit at this ray time: a moving sphere only
/// interpolates within its keyframe range.
pub open spec fn h_time_ok(h: Hittable, time: int) -> bool {
    match h {
        Hittable::Sphere(_) => true,
        Hittable::MovingSphere(m) => m.time0 <= time <= m.time1,
    }
}

/// The surface can report a box over this time span.
pub open spec fn h_range_ok(h: Hittable, time0: int, time1: int) -> bool {
    match h {
        Hittable::Sphere(_) => true,
        Hittable::MovingSphere(m) => m.time0 <= time0 && time1 <= m.time1,
    }
}

/// The hit parameter a surface reports within `(t0, t1)`.
pub open spec fn spec_h_hit_t(h: Hittable, ray: Ray, t0: int, t1: int) -> Option<int> {
    match h {
        Hittable::Sphere(s) => s.spec_hit_t(ray, t0, t1),
        Hittable::MovingSphere(m) => m.spec_hit_t(ray, t0, t1),
    }
}

/// The box a surface reports over a time span.
pub open spec fn spec_h_box(h: Hittable, time0: int, time1: int) -> Aabb {
    match h {
        Hittable::Sphere(s) => s.spec_box(),
        Hittable::MovingSphere(m) => m.spec_box_over(time0, time1),
    }
}

/// A copy of a surface: plain fields are copied and the material handle is
/// cloned, so the copy is the same value.
pub fn clone_hittable(h: &Hittable) -> (r: Hittable)
    ensures
        r == *h,
{
    match h {
        Hittable::Sphere(s) => Hittable::Sphere(
            Sphere { center: s.center, radius: s.radius, material: rc_clone_material(&s.material) },
        ),
        Hittable::MovingSphere(m) => Hittable::MovingSphere(
            MovingSphere {
                center0: m.center0,
                center1: m.center1,
                time0: m.time0,
                time1: m.time1,
                radius: m.radius,
                material: rc_clone_material(&m.material),
            },
        ),
    }
}

impl Hittable {
    /// The nearest intersection strictly inside `(t_min, t_max)`.
    pub fn hit(&self, r: &Ray, t_min: i64, t_max: i64) -> (res: Option<HitRecord>)
        requires
            h_wf(*self),
            h_time_ok(*self, r.time as int),
            v_fits(r.orig),
            v_fits(r.dir),
        ensures
            res is Some <==> spec_h_hit_t(*self, *r, t_min as int, t_max as int) is Some,
            res matches Some(rec) ==> {
                &&& spec_h_hit_t(*self, *r, t_min as int, t_max as int) == Some(rec.t as int)
                &&& t_min < rec.t < t_max
                &&& rec_wf(rec)
            },
    {
        match self {
            Hittable::Sphere(s) => s.hit(r, t_min, t_max),
            Hittable::MovingSphere(m) => m.hit(r, t_min, t_max),
        }
    }

    /// The box covering the surface over the time span.
    pub fn box_for(&self, time0: i64, time1: i64) -> (res: Aabb)
        requires
            h_wf(*self),
            h_range_ok(*self, time0 as int, time1 as int),
            time0 <= time1,
        ensures
            res == spec_h_box(*self, time0 as int, time1 as int),
    {
        match self {
            Hittable::Sphere(s) => Sphere::make_box(&s.center, s.radius),
            Hittable::MovingSphere(m) => {
                let c0 = m.center(time0);
                let c1 = m.center(time1);
                Aabb::surrounding_box(
                    Sphere::make_box(&c0, m.radius),
                    Sphere::make_box(&c1, m.radius),
                )
            },
        }
    }

    /// The smallest box the surface reports over the time span, or none if
    /// it has no well-defined box (never the case for these primitives).
    pub fn bounding_box(&self, time0: i64, time1: i64) -> (res: Option<Aabb>)
        requires
            h_wf(*self),
            h_range_ok(*self, time0 as int, time1 as int),
            time0 <= time1,
        ensures
            res == Some(spec_h_box(*self, time0 as int, time1 as int)),
    {
        Some(self.box_for(time0, time1))
    }
}

/// The corrected normal of a hit record points against the ray it answers:
/// flipping the outward normal onto the approach side makes its product with
/// the direction non-positive, and the uncorrected outward normal points
/// with the ray exactly on back-face hits.
pub proof fn lemma_corrected_normal(dir: Vec3, outward: Vec3)
    requires
        bounded(outward, 0x2000_0000_0000_0000),
    ensures
        ({
            let front = dot_wide(dir, outward) < 0;
            let normal = if front {
                outward
            } else {
                spec_negate(outward)
            };
            &&& dot_wide(dir, normal) <= 0
            &&& !front ==> dot_wide(dir, outward) >= 0
        }),
{
    let n = spec_negate(outward);
    assert(dot_wide(dir, n) == -dot_wide(dir, outward)) by (nonlinear_arith)
        requires
            n.x as int == -(outward.x as int),
            n.y as int == -(outward.y as int),
            n.z as int == -(outward.z as int),
            dot_wide(dir, n) == (dir.x as int) * (n.x as int) + (dir.y as int) * (n.y as int) + (
            dir.z as int) * (n.z as int),
            dot_wide(dir, outward) == (dir.x as int) * (outward.x as int) + (dir.y as int) * (
            outward.y as int) + (dir.z as int) * (outward.z as int),
    ;
}

/// The box of a ball whose padded extent fits the coordinate range fits it.
pub proof fn lemma_ball_box_fits(center: Vec3, radius: int)
    requires
        ball_fits(center, radius),
    ensures
        spec_ball_box(center, radius).fits(),
{
}

/// The box a valid surface reports fits the coordinate range.
pub proof fn lemma_h_box_fits(h: Hittable, time0: int, time1: int)
    requires
        h_wf(h),
        h_range_ok(h, time0, time1),
        time0 <= time1,
    ensures
        spec_h_box(h, time0, time1).fits(),
{
    match h {
        Hittable::Sphere(s) => {
            lemma_ball_box_fits(s.center, s.radius as int);
        },
        Hittable::MovingSphere(m) => {
            crate::moving_sphere::lemma_center_within(m, time0);
            crate::moving_sphere::lemma_center_within(m, time1);
            lemma_ball_box_fits(m.spec_center(time0), m.radius as int);
            lemma_ball_box_fits(m.spec_center(time1), m.radius as int);
            crate::aabb::lemma_union_fits(
                spec_ball_box(m.spec_center(time0), m.radius as int),
                spec_ball_box(m.spec_center(time1), m.radius as int),
            );
        },
    }
}

/// A reported hit parameter of a surface lies in the interval and inside the
/// box the surface reports over any time span covering the ray time.
pub proof fn lemma_h_hit_in_box(h: Hittable, ray: Ray, t0: int, t1: int, time0: int, time1: int)
    requires
        h_wf(h),
        h_range_ok(h, time0, time1),
        time0 <= ray.time <= time1,
    ensures
        spec_h_hit_t(h, ray, t0, t1) matches Some(t) ==> {
            &&& t0 < t < t1
            &&& in_slab(spec_h_box(h, time0, time1), ray.orig, ray.dir, t)
        },
{
    match h {
        Hittable::Sphere(s) => {
            lemma_quad_hit_in_box(s.center, s.radius as int, s.spec_box(), ray, t0, t1);
        },
        Hittable::MovingSphere(m) => {
            let c = m.spec_center(ray.time as int);
            lemma_quad_hit_in_box(
                c,
                m.radius as int,
                spec_ball_box(c, m.radius as int),
                ray,
                t0,
                t1,
            );
            if spec_h_hit_t(h, ray, t0, t1) is Some {
                let t = spec_h_hit_t(h, ray, t0, t1)->0;
                crate::moving_sphere::lemma_box_covers(m, time0, ray.time as int, time1);
                crate::aabb::lemma_contains_slab(
                    m.spec_box_over(time0, time1),
                    spec_ball_box(c, m.radius as int),
                    ray.orig,
                    ray.dir,
                    t,
                );
            }
        },
    }
}

/// Narrowing the upper interval bound filters a surface's hit, whichever
/// variant it is.
pub proof fn lemma_h_hit_narrow(h: Hittable, ray: Ray, t0: int, t1: int, t1p: int)
    requires
        t1p <= t1,
    ensures
        match spec_h_hit_t(h, ray, t0, t1) {
            Some(t) => spec_h_hit_t(h, ray, t0, t1p) == (if t < t1p {
                Some(t)
            } else {
                None
            }),
            None => spec_h_hit_t(h, ray, t0, t1p) is None,
        },
{
    match h {
        Hittable::Sphere(s) => {
            lemma_quad_hit_narrow(s.center, s.radius as int, s.spec_box(), ray, t0, t1, t1p);
        },
        Hittable::MovingSphere(m) => {
            let c = m.spec_center(ray.time as int);
            lemma_quad_hit_narrow(
                c,
                m.radius as int,
                spec_ball_box(c, m.radius as int),
                ray,
                t0,
                t1,
                t1p,
            );
        },
    }
}

} // verus!
