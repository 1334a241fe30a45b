//! The recursive Monte-Carlo integrator: one light path per call.

use crate::bvh::BvhNode;
use crate::fixed::{fmul_spec, lemma_tdiv_bounds, lemma_tdiv_monotone, lemma_tdiv_multiple, SCALE};
use crate::hittable_list::{list_time_ok, list_wf, spec_best, HittableList};
use crate::ray::Ray;
use crate::vec3::{spec_comp_mul, spec_unit, v_fits, vec3i, Vec3};
use rand::rngs::SmallRng;
use vstd::prelude::*;

verus! {

/// Where the hit interval starts: slightly above zero, so a scattered ray
/// cannot immediately re-hit its own origin surface (shadow acne).
pub const T_EPS: i64 = 66;

/// The sky gradient a missing ray returns: a vertical blend from white to
/// sky blue, driven by the normalized direction's vertical component
/// remapped from `[-1, 1]` to `[0, 1]`.
pub open spec fn spec_background(dir: Vec3) -> Vec3 {
    let tt = fmul_spec(32768, spec_unit(dir).y + 65536);
    vec3i(
        fmul_spec(65536 - tt, 65536) + fmul_spec(tt, 32768),
        fmul_spec(65536 - tt, 65536) + fmul_spec(tt, 45875),
        fmul_spec(65536 - tt, 65536) + fmul_spec(tt, 65536),
    )
}

/// The color carried by a ray: black once the bounce budget is exhausted,
/// the scattered contribution at the nearest hit, and the sky gradient on a
/// miss.  The scene is queried on exactly the interval `(T_EPS, i64::MAX)`.
/// Every channel of the result lies in `[0, 1]`; a miss returns exactly the
/// gradient; a hit returns black (absorption) or an attenuation-weighted
/// bounce, each channel at most its attenuation.
pub fn ray_color(r: &Ray, world: &HittableList, depth: u32, rng: &mut SmallRng) -> (res: Vec3)
    requires
        list_wf(world.objects@),
        list_time_ok(world.objects@, r.time as int),
        v_fits(r.orig),
        v_fits(r.dir),
    ensures
        0 <= res.x <= SCALE && 0 <= res.y <= SCALE && 0 <= res.z <= SCALE,
        depth == 0 ==> res == (Vec3 { x: 0i64, y: 0i64, z: 0i64 }),
        depth > 0 && spec_best(world.objects@, *r, T_EPS as int, i64::MAX as int) is None
            ==> res == spec_background(r.dir),
        depth > 0 && spec_best(world.objects@, *r, T_EPS as int, i64::MAX as int) is Some ==> (res
            == (Vec3 { x: 0i64, y: 0i64, z: 0i64 }) || exists|att: Vec3, bounce: Vec3|
            {
                &&& 0 <= att.x <= SCALE && 0 <= att.y <= SCALE && 0 <= att.z <= SCALE
                &&& 0 <= bounce.x <= SCALE && 0 <= bounce.y <= SCALE && 0 <= bounce.z <= SCALE
                &&& res == #[trigger] spec_comp_mul(att, bounce)
                &&& res.x <= att.x && res.y <= att.y && res.z <= att.z
            }),
    decreases depth,
{
    if depth == 0 {
        return Vec3 { x: 0, y: 0, z: 0 };
    }
    match world.hit(r, T_EPS, i64::MAX) {
        Some(rec) => {
            match rec.material.scatter(r, &rec, rng) {
                Some((scattered, attenuation)) => {
                    let bounce = ray_color(&scattered, world, depth - 1, rng);
                    proof {
                        lemma_unit_product(attenuation.x as int, bounce.x as int);
                        lemma_unit_product(attenuation.y as int, bounce.y as int);
                        lemma_unit_product(attenuation.z as int, bounce.z as int);
                    }
                    let out = attenuation.comp_mul(&bounce);
                    proof {
                        assert(0 <= attenuation.x <= SCALE && 0 <= attenuation.y <= SCALE && 0
                            <= attenuation.z <= SCALE && 0 <= bounce.x <= SCALE && 0 <= bounce.y
                            <= SCALE && 0 <= bounce.z <= SCALE && out == spec_comp_mul(
                            attenuation,
                            bounce,
                        ) && out.x <= attenuation.x && out.y <= attenuation.y && out.z
                            <= attenuation.z);
                    }
                    out
                },
                None => Vec3 { x: 0, y: 0, z: 0 },
            }
        },
        None => {
            let unit = r.unit_direction();
            proof {
                crate::vec3::lemma_fmul_bound(32768, unit.y + SCALE as int, 32768, 131072);
            }
            let tt = crate::fixed::fmul(32768, unit.y + SCALE);
            proof {
                lemma_background_range(unit.y as int);
                lemma_unit_product(tt as int, 32768);
                lemma_unit_product(tt as int, 45875);
                lemma_unit_product(SCALE as int - tt, SCALE as int);
                lemma_tdiv_multiple(SCALE as int - tt, SCALE as int);
            }
            let white_part = crate::fixed::fmul(SCALE - tt, SCALE);
            let bx = white_part + crate::fixed::fmul(tt, 32768);
            let by = white_part + crate::fixed::fmul(tt, 45875);
            let bz = white_part + crate::fixed::fmul(tt, SCALE);
            proof {
                lemma_unit_product(tt as int, SCALE as int);
                lemma_split_sum(tt as int, 32768);
                lemma_split_sum(tt as int, 45875);
                lemma_split_sum(tt as int, SCALE as int);
            }
            let out = Vec3 { x: bx, y: by, z: bz };
            proof {
                assert(out == spec_background(r.dir));
            }
            out
        },
    }
}

/// The same integrator over the acceleration structure: by the proved
/// equivalence of tree and flat-list hits, a scene and its hierarchy give a
/// path the same color at every step.
pub fn ray_color_bvh(r: &Ray, world: &BvhNode, depth: u32, rng: &mut SmallRng) -> (res: Vec3)
    requires
        world.wf(),
        world.time0 <= r.time <= world.time1,
        v_fits(r.orig),
        v_fits(r.dir),
    ensures
        0 <= res.x <= SCALE && 0 <= res.y <= SCALE && 0 <= res.z <= SCALE,
        depth == 0 ==> res == (Vec3 { x: 0i64, y: 0i64, z: 0i64 }),
        depth > 0 && spec_best(world.surfaces(), *r, T_EPS as int, i64::MAX as int) is None
            ==> res == spec_background(r.dir),
        depth > 0 && spec_best(world.surfaces(), *r, T_EPS as int, i64::MAX as int) is Some ==> (
        res == (Vec3 { x: 0i64, y: 0i64, z: 0i64 }) || exists|att: Vec3, bounce: Vec3|
            {
                &&& 0 <= att.x <= SCALE && 0 <= att.y <= SCALE && 0 <= att.z <= SCALE
                &&& 0 <= bounce.x <= SCALE && 0 <= bounce.y <= SCALE && 0 <= bounce.z <= SCALE
                &&& res == #[trigger] spec_comp_mul(att, bounce)
                &&& res.x <= att.x && res.y <= att.y && res.z <= att.z
            }),
    decreases depth,
{
    if depth == 0 {
        return Vec3 { x: 0, y: 0, z: 0 };
    }
    match world.hit(r, T_EPS, i64::MAX) {
        Some(rec) => {
            match rec.material.scatter(r, &rec, rng) {
                Some((scattered, attenuation)) => {
                    let bounce = ray_color_bvh(&scattered, world, depth - 1, rng);
                    proof {
                        lemma_unit_product(attenuation.x as int, bounce.x as int);
                        lemma_unit_product(attenuation.y as int, bounce.y as int);
                        lemma_unit_product(attenuation.z as int, bounce.z as int);
                    }
                    let out = attenuation.comp_mul(&bounce);
                    proof {
                        assert(0 <= attenuation.x <= SCALE && 0 <= attenuation.y <= SCALE && 0
                            <= attenuation.z <= SCALE && 0 <= bounce.x <= SCALE && 0 <= bounce.y
                            <= SCALE && 0 <= bounce.z <= SCALE && out == spec_comp_mul(
                            attenuation,
                            bounce,
                        ) && out.x <= attenuation.x && out.y <= attenuation.y && out.z
                            <= attenuation.z);
                    }
                    out
                },
                None => Vec3 { x: 0, y: 0, z: 0 },
            }
        },
        None => {
            let unit = r.unit_direction();
            proof {
                crate::vec3::lemma_fmul_bound(32768, unit.y + SCALE as int, 32768, 131072);
            }
            let tt = crate::fixed::fmul(32768, unit.y + SCALE);
            proof {
                lemma_background_range(unit.y as int);
                lemma_unit_product(tt as int, 32768);
                lemma_unit_product(tt as int, 45875);
                lemma_unit_product(SCALE as int - tt, SCALE as int);
                lemma_tdiv_multiple(SCALE as int - tt, SCALE as int);
            }
            let white_part = crate::fixed::fmul(SCALE - tt, SCALE);
            let bx = white_part + crate::fixed::fmul(tt, 32768);
            let by = white_part + crate::fixed::fmul(tt, 45875);
            let bz = white_part + crate::fixed::fmul(tt, SCALE);
            proof {
                lemma_unit_product(tt as int, SCALE as int);
                lemma_split_sum(tt as int, 32768);
                lemma_split_sum(tt as int, 45875);
                lemma_split_sum(tt as int, SCALE as int);
            }
            let out = Vec3 { x: bx, y: by, z: bz };
            proof {
                assert(out == spec_background(r.dir));
            }
            out
        },
    }
}

/// A product of two unit-range factors stays in the unit range.
proof fn lemma_unit_product(a: int, b: int)
    requires
        0 <= a <= SCALE,
        0 <= b <= SCALE,
    ensures
        0 <= fmul_spec(a, b) <= SCALE,
        fmul_spec(a, b) <= a,
        fmul_spec(a, b) <= b,
{
    assert(0 <= a * b && a * b <= a * 65536 && a * b <= b * 65536 && a * 65536 == 65536 * a && b
        * 65536 == 65536 * b) by (nonlinear_arith)
        requires
            0 <= a <= 65536,
            0 <= b <= 65536,
    ;
    lemma_tdiv_bounds(a * b, 65536);
    lemma_tdiv_monotone(a * b, a * 65536, 65536);
    lemma_tdiv_monotone(a * b, b * 65536, 65536);
    lemma_tdiv_multiple(a, 65536);
    lemma_tdiv_multiple(b, 65536);
}

/// The vertical blend factor of the sky gradient lies in the unit range.
proof fn lemma_background_range(uy: int)
    requires
        -(SCALE as int) <= uy <= SCALE as int,
    ensures
        0 <= fmul_spec(32768, uy + SCALE as int) <= SCALE as int,
{
    assert(0 <= 32768 * (uy + 65536) <= 65536 * 65536) by (nonlinear_arith)
        requires
            -65536 <= uy <= 65536,
    ;
    lemma_tdiv_bounds(32768 * (uy + 65536), 65536);
    lemma_tdiv_monotone(32768 * (uy + 65536), 65536int * 65536, 65536);
    lemma_tdiv_multiple(65536, 65536);
}

/// The blend of white with a color component stays in the unit range:
/// `(1 - t) + t*c <= 1`.
proof fn lemma_split_sum(tt: int, c: int)
    requires
        0 <= tt <= SCALE,
        0 <= c <= SCALE,
    ensures
        0 <= fmul_spec((SCALE as int) - tt, SCALE as int) + fmul_spec(tt, c) <= SCALE as int,
{
    lemma_tdiv_multiple((SCALE as int) - tt, SCALE as int);
    lemma_unit_product(tt, c);
}

} // verus!
