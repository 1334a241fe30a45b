//! Scattering models: how a surface turns an incoming ray into an outgoing
//! ray and an attenuation color, or absorbs it.

use crate::fixed::{fdiv_spec, fmul, fmul_spec, isqrt, spec_clamp, spec_isqrt, tdiv, SCALE};
use crate::hittable::{rec_wf, HitRecord};
use crate::ray::Ray;
use crate::texture::{color_wf, spec_texture_value, tex_wf, SolidColor, Texture};
use crate::vec3::{
    bounded, dot_wide, near_zero, random_in_unit_sphere, random_unit_vector, spec_dot,
    spec_near_zero, spec_negate, spec_plus, spec_reflect, spec_refract, spec_unit, v_fits, Vec3,
};
use rand::rngs::SmallRng;
use std::rc::Rc;
use vstd::prelude::*;

verus! {

pub enum Material {
    Lambertian(Lambertian),
    Metal(Metal),
    Dielectric(Dielectric),
}

pub struct Lambertian {
    pub albedo: Rc<Texture>,
}

pub struct Metal {
    pub albedo: Vec3,
    pub fuzz: i64,
}

pub struct Dielectric {
    pub ir: i64,
}

/// Valid material parameters: textures well formed, metal fuzz in `[0, 1]`,
/// refractive index within a physical range (one quarter to four).
pub open spec fn mat_wf(m: Material) -> bool {
    match m {
        Material::Lambertian(l) => tex_wf(*l.albedo),
        Material::Metal(mt) => color_wf(mt.albedo) && 0 <= mt.fuzz <= SCALE,
        Material::Dielectric(d) => 16384 <= d.ir <= 262144,
    }
}

/// The refraction ratio used at a hit: entering the surface divides one by
/// the index, leaving uses the index itself.
pub open spec fn spec_ratio(d: Dielectric, front_face: bool) -> int {
    if front_face {
        fdiv_spec(SCALE as int, d.ir as int)
    } else {
        d.ir as int
    }
}

/// Schlick's reflectance approximation, in fixed point.
pub open spec fn spec_reflectance(cos: int, ratio: int) -> int {
    let rf0 = fdiv_spec(65536 - ratio, 65536 + ratio);
    let r0sq = fmul_spec(rf0, rf0);
    let c1 = 65536 - cos;
    let c5 = fmul_spec(fmul_spec(fmul_spec(c1, c1), fmul_spec(c1, c1)), c1);
    r0sq + fmul_spec(65536 - r0sq, c5)
}

/// The clamped cosine between the reversed unit direction and the normal.
pub open spec fn spec_cos_in(unit: Vec3, n: Vec3) -> int {
    let c0 = spec_dot(spec_negate(unit), n);
    if c0 > 65536 {
        65536
    } else {
        c0
    }
}

/// The sine from the Pythagorean identity, clamped below at zero.
pub open spec fn spec_sin_out(cos: int) -> int {
    spec_isqrt(
        if 65536 * 65536 - cos * cos < 0 {
            0
        } else {
            65536 * 65536 - cos * cos
        },
    )
}

/// Total internal reflection: the scaled Snell sine would exceed one.
pub open spec fn spec_cannot_refract(ratio: int, sin: int) -> bool {
    ratio * sin > 65536 * 65536
}

impl Lambertian {
    pub fn new(albedo: Vec3) -> (r: Lambertian)
        ensures
            *r.albedo == Texture::SolidColor(SolidColor { color: albedo }),
    {
        Lambertian { albedo: Rc::new(Texture::SolidColor(SolidColor { color: albedo })) }
    }

    pub fn from_texture(albedo: Rc<Texture>) -> (r: Lambertian)
        ensures
            r.albedo == albedo,
    {
        Lambertian { albedo }
    }

    /// Diffuse scattering: always scatters, toward the normal perturbed by
    /// the normalization of a random point of the unit ball, with the
    /// texture's albedo as attenuation; a degenerate (zero) sum falls back
    /// to the normal itself, so the scattered direction is never zero.
    pub fn scatter(&self, r: &Ray, rec: &HitRecord, rng: &mut SmallRng) -> (res: Option<
        (Ray, Vec3),
    >)
        requires
            tex_wf(*self.albedo),
            rec_wf(*rec),
        ensures
            res is Some,
            ({
                let (sc, att) = res->0;
                &&& sc.orig == rec.p
                &&& sc.time == r.time
                &&& !spec_near_zero(sc.dir)
                &&& bounded(sc.dir, 9 * SCALE as int)
                &&& exists|p: Vec3|
                    {
                        &&& dot_wide(p, p) < (SCALE as int) * (SCALE as int)
                        &&& ({
                            let d0 = spec_plus(rec.normal, #[trigger] spec_unit(p));
                            sc.dir == if spec_near_zero(d0) {
                                rec.normal
                            } else {
                                d0
                            }
                        })
                    }
                &&& att == spec_texture_value(
                    *self.albedo,
                    rec.uv.0 as int,
                    rec.uv.1 as int,
                    rec.p,
                )
                &&& color_wf(att)
            }),
    {
        let ruv = random_unit_vector(rng);
        let dir0 = rec.normal.plus(&ruv);
        let dir = if near_zero(&dir0) {
            rec.normal
        } else {
            dir0
        };
        proof {
            let p = choose|p: Vec3|
                dot_wide(p, p) < (SCALE as int) * (SCALE as int) && ruv == #[trigger] spec_unit(
                    p,
                );
            assert(dot_wide(p, p) < (SCALE as int) * (SCALE as int) && ({
                let d0 = spec_plus(rec.normal, spec_unit(p));
                dir == if spec_near_zero(d0) {
                    rec.normal
                } else {
                    d0
                }
            }));
        }
        let att = self.albedo.value(rec.uv.0, rec.uv.1, &rec.p);
        Some((Ray::new(rec.p, dir, r.time), att))
    }
}

impl Metal {
    /// Fuzz is clamped into `[0, 1]`.
    pub fn new(albedo: Vec3, fuzz: i64) -> (r: Metal)
        ensures
            r.albedo == albedo,
            r.fuzz == spec_clamp(fuzz as int, 0, SCALE as int),
    {
        Metal { albedo, fuzz: crate::fixed::clamp(fuzz, 0, SCALE) }
    }

    /// Specular scattering: reflect the unit incoming direction about the
    /// normal, perturb by `fuzz` times a random point of the unit sphere,
    /// and absorb the ray whenever the perturbed direction does not leave
    /// the surface.  With zero fuzz the outcome is exactly the mirror
    /// reflection, accepted exactly when it leaves the surface; with any
    /// fuzz, a reflection steep enough that no perturbation can turn it
    /// inward is always accepted.
    pub fn scatter(&self, r: &Ray, rec: &HitRecord, rng: &mut SmallRng) -> (res: Option<
        (Ray, Vec3),
    >)
        requires
            color_wf(self.albedo),
            0 <= self.fuzz <= SCALE,
            rec_wf(*rec),
            v_fits(r.dir),
        ensures
            ({
                let reflected = spec_reflect(spec_unit(r.dir), rec.normal);
                &&& (res is Some ==> ({
                    let (sc, att) = res->0;
                    &&& sc.orig == rec.p
                    &&& sc.time == r.time
                    &&& dot_wide(sc.dir, rec.normal) > 0
                    &&& !spec_near_zero(sc.dir)
                    &&& bounded(sc.dir, 1541 * SCALE as int)
                    &&& att == self.albedo
                }))
                &&& (self.fuzz == 0 ==> ((res is Some <==> dot_wide(reflected, rec.normal) > 0)
                    && (res is Some ==> (res->0).0.dir == reflected)))
                &&& (dot_wide(reflected, rec.normal) > 1572864 * (self.fuzz as int) ==> res
                    is Some)
            }),
    {
        let unit = r.unit_direction();
        let reflected = crate::vec3::reflect(&unit, &rec.normal);
        let fz = random_in_unit_sphere(rng);
        proof {
            crate::vec3::lemma_fmul_bound(self.fuzz as int, fz.x as int, 65536, 65536);
            crate::vec3::lemma_fmul_bound(self.fuzz as int, fz.y as int, 65536, 65536);
            crate::vec3::lemma_fmul_bound(self.fuzz as int, fz.z as int, 65536, 65536);
        }
        let dir = reflected.plus(&fz.scale(self.fuzz));
        let keeps = dir.dot_wide(&rec.normal);
        proof {
            if self.fuzz == 0 {
                crate::fixed::lemma_fmul_zero(fz.x as int);
                crate::fixed::lemma_fmul_zero(fz.y as int);
                crate::fixed::lemma_fmul_zero(fz.z as int);
                assert(dir == spec_reflect(spec_unit(r.dir), rec.normal));
            }
            if keeps > 0 {
                lemma_positive_dot_nonzero(dir, rec.normal);
            }
            lemma_perturbation_dot(reflected, fz, self.fuzz as int, rec.normal, dir);
        }
        if keeps > 0 {
            Some((Ray::new(rec.p, dir, r.time), self.albedo))
        } else {
            None
        }
    }
}

/// The perturbed reflection keeps a positive product with the normal
/// whenever the unperturbed one exceeds what the perturbation can cancel:
/// each perturbation component is at most `fuzz`, and the normal's
/// components are at most eight units, so the product shifts by at most
/// `24 * fuzz` units.
proof fn lemma_perturbation_dot(reflected: Vec3, fz: Vec3, fuzz: int, n: Vec3, dir: Vec3)
    requires
        0 <= fuzz <= 65536,
        bounded(fz, 65536),
        bounded(n, 8int * 65536),
        bounded(reflected, 100925440),
        dir.x as int == reflected.x + crate::fixed::fmul_spec(fuzz, fz.x as int),
        dir.y as int == reflected.y + crate::fixed::fmul_spec(fuzz, fz.y as int),
        dir.z as int == reflected.z + crate::fixed::fmul_spec(fuzz, fz.z as int),
    ensures
        dot_wide(reflected, n) > 1572864 * fuzz ==> dot_wide(dir, n) > 0,
{
    lemma_fuzz_component(fuzz, fz.x as int);
    lemma_fuzz_component(fuzz, fz.y as int);
    lemma_fuzz_component(fuzz, fz.z as int);
    let px = crate::fixed::fmul_spec(fuzz, fz.x as int);
    let py = crate::fixed::fmul_spec(fuzz, fz.y as int);
    let pz = crate::fixed::fmul_spec(fuzz, fz.z as int);
    assert(dot_wide(dir, n) == dot_wide(reflected, n) + px * (n.x as int) + py * (n.y as int)
        + pz * (n.z as int)) by (nonlinear_arith)
        requires
            dir.x as int == reflected.x + px,
            dir.y as int == reflected.y + py,
            dir.z as int == reflected.z + pz,
            dot_wide(dir, n) == (dir.x as int) * (n.x as int) + (dir.y as int) * (n.y as int) + (
            dir.z as int) * (n.z as int),
            dot_wide(reflected, n) == (reflected.x as int) * (n.x as int) + (reflected.y as int)
                * (n.y as int) + (reflected.z as int) * (n.z as int),
    ;
    assert(px * (n.x as int) >= -(524288 * fuzz) && py * (n.y as int) >= -(524288 * fuzz) && pz
        * (n.z as int) >= -(524288 * fuzz)) by (nonlinear_arith)
        requires
            -fuzz <= px <= fuzz,
            -fuzz <= py <= fuzz,
            -fuzz <= pz <= fuzz,
            -524288 <= n.x as int <= 524288,
            -524288 <= n.y as int <= 524288,
            -524288 <= n.z as int <= 524288,
            0 <= fuzz,
    ;
    assert(dot_wide(dir, n) >= dot_wide(reflected, n) - 1572864 * fuzz);
}

/// A unit-ball component scaled by `fuzz` stays within `fuzz`.
proof fn lemma_fuzz_component(fuzz: int, c: int)
    requires
        0 <= fuzz,
        -65536 <= c <= 65536,
    ensures
        -fuzz <= crate::fixed::fmul_spec(fuzz, c) <= fuzz,
{
    assert(-(fuzz * 65536) <= fuzz * c <= fuzz * 65536) by (nonlinear_arith)
        requires
            0 <= fuzz,
            -65536 <= c <= 65536,
    ;
    crate::fixed::lemma_tdiv_monotone(fuzz * c, fuzz * 65536, 65536);
    crate::fixed::lemma_tdiv_monotone(-(fuzz * 65536), fuzz * c, 65536);
    crate::fixed::lemma_tdiv_multiple(fuzz, 65536);
    crate::fixed::lemma_tdiv_multiple(-fuzz, 65536);
    assert(-(fuzz * 65536) == (-fuzz) * 65536) by (nonlinear_arith);
}

/// A vector with a positive dot product cannot be zero.
proof fn lemma_positive_dot_nonzero(a: Vec3, b: Vec3)
    requires
        dot_wide(a, b) > 0,
    ensures
        !spec_near_zero(a),
{
    if spec_near_zero(a) {
        assert(dot_wide(a, b) == 0) by (nonlinear_arith)
            requires
                a.x as int == 0,
                a.y as int == 0,
                a.z as int == 0,
                dot_wide(a, b) == (a.x as int) * (b.x as int) + (a.y as int) * (b.y as int) + (
                a.z as int) * (b.z as int),
        ;
    }
}

impl Dielectric {
    pub fn new(ir: i64) -> (r: Dielectric)
        ensures
            r.ir == ir,
    {
        Dielectric { ir }
    }

    /// Schlick's approximation; see `spec_reflectance`.
    fn reflectance(cosine: i64, ref_idx: i64) -> (r: i64)
        requires
            16384 <= ref_idx <= 262144,
            -1572864 <= cosine <= 65536,
        ensures
            r == spec_reflectance(cosine as int, ref_idx as int),
    {
        proof {
            lemma_reflectance_bounds(cosine as int, ref_idx as int);
        }
        let num = SCALE - ref_idx;
        let den = SCALE + ref_idx;
        let rf0 = crate::fixed::fdiv(num, den);
        let r0sq = fmul(rf0, rf0);
        let c1 = SCALE - cosine;
        let c2 = fmul(c1, c1);
        let c4 = fmul(c2, c2);
        let c5 = fmul(c4, c1);
        r0sq + fmul(SCALE - r0sq, c5)
    }

    /// Refraction with reflection at grazing angles: always scatters, with
    /// white attenuation; the direction is the exact mirror reflection under
    /// total internal reflection or a winning Schlick draw, and the exact
    /// refracted direction otherwise.
    pub fn scatter(&self, r: &Ray, rec: &HitRecord, rng: &mut SmallRng) -> (res: Option<
        (Ray, Vec3),
    >)
        requires
            16384 <= self.ir <= 262144,
            rec_wf(*rec),
            v_fits(r.dir),
        ensures
            res is Some,
            ({
                let (sc, att) = res->0;
                let unit = spec_unit(r.dir);
                let ratio = spec_ratio(*self, rec.front_face);
                let cos = spec_cos_in(unit, rec.normal);
                let sin = spec_sin_out(cos);
                &&& sc.orig == rec.p
                &&& sc.time == r.time
                &&& att == (Vec3 { x: SCALE, y: SCALE, z: SCALE })
                &&& (sc.dir == spec_reflect(unit, rec.normal) || sc.dir == spec_refract(
                    unit,
                    rec.normal,
                    ratio,
                ))
                &&& (spec_cannot_refract(ratio, sin) ==> sc.dir == spec_reflect(
                    unit,
                    rec.normal,
                ))
                &&& v_fits(sc.dir)
            }),
    {
        proof {
            lemma_ratio_bounds(*self);
        }
        let ratio = if rec.front_face {
            crate::fixed::fdiv(SCALE, self.ir)
        } else {
            self.ir
        };
        let unit = r.unit_direction();
        let nu = unit.negate();
        let cos0 = nu.dot(&rec.normal);
        proof {
            crate::vec3::lemma_mul_bound(nu.x as int, rec.normal.x as int, 65536, 524288);
            crate::vec3::lemma_mul_bound(nu.y as int, rec.normal.y as int, 65536, 524288);
            crate::vec3::lemma_mul_bound(nu.z as int, rec.normal.z as int, 65536, 524288);
            crate::vec3::lemma_tdiv_range(dot_wide(nu, rec.normal), 103079215104, 65536);
        }
        let cos = if cos0 > SCALE {
            SCALE
        } else {
            cos0
        };
        proof {
            crate::vec3::lemma_mul_bound(cos as int, cos as int, 1572864, 1572864);
            assert((cos as int) * (cos as int) >= 0) by (nonlinear_arith);
        }
        let cc: i128 = (SCALE as i128) * (SCALE as i128) - (cos as i128) * (cos as i128);
        let s2: u128 = if cc < 0 {
            0
        } else {
            cc as u128
        };
        let sin = isqrt(s2);
        proof {
            crate::vec3::lemma_mul_bound(cos as int, cos as int, 1572864, 1572864);
            crate::fixed::lemma_isqrt_bounds(s2 as int);
            crate::vec3::lemma_root_bound(s2 as int, 65537);
        }
        proof {
            crate::vec3::lemma_mul_bound(ratio as int, sin as int, 262144, 65537);
        }
        let cannot_refract = (ratio as i128) * (sin as i128) > (SCALE as i128) * (SCALE as i128);
        let draw = crate::util::random_i64_range(rng, 0, SCALE);
        let dir = if cannot_refract || Dielectric::reflectance(cos, ratio) > draw {
            crate::vec3::reflect(&unit, &rec.normal)
        } else {
            crate::vec3::refract(&unit, &rec.normal, ratio)
        };
        Some((Ray::new(rec.p, dir, r.time), Vec3 { x: SCALE, y: SCALE, z: SCALE }))
    }
}

/// The refraction ratio stays within `[1/4, 4]`.
proof fn lemma_ratio_bounds(d: Dielectric)
    requires
        16384 <= d.ir <= 262144,
    ensures
        16384 <= spec_ratio(d, true) <= 262144,
        16384 <= spec_ratio(d, false) <= 262144,
        i64::MIN <= fdiv_spec(SCALE as int, d.ir as int) <= i64::MAX,
{
    let x = 65536int * 65536;
    vstd::arithmetic::div_mod::lemma_div_is_ordered_by_denominator(x, 16384, d.ir as int);
    vstd::arithmetic::div_mod::lemma_div_is_ordered_by_denominator(x, d.ir as int, 262144);
    assert(fdiv_spec(SCALE as int, d.ir as int) == tdiv(x, d.ir as int));
    assert(tdiv(x, d.ir as int) == x / (d.ir as int));
    assert(x / 16384 == 262144 && x / 262144 == 16384);
}

/// Intermediate sizes in the reflectance polynomial, so that every product
/// stays within `i64`.
proof fn lemma_reflectance_bounds(cos: int, ir: int)
    requires
        16384 <= ir <= 262144,
        -1572864 <= cos <= 65536,
    ensures
        ({
            let rf0 = fdiv_spec(65536 - ir, 65536 + ir);
            let r0sq = fmul_spec(rf0, rf0);
            let c1 = 65536 - cos;
            let c2 = fmul_spec(c1, c1);
            let c4 = fmul_spec(c2, c2);
            let c5 = fmul_spec(c4, c1);
            &&& -157287 <= rf0 <= 157287
            &&& 0 <= r0sq <= 377500
            &&& 0 <= c2 <= 40960000
            &&& 0 <= c4 <= 25600000000
            &&& 0 <= c5 <= 640000000000
            &&& -15625000000000000 <= fmul_spec(65536 - r0sq, c5) <= 15625000000000000
        }),
{
    let num = 65536 - ir;
    let den = 65536 + ir;
    let rf0 = fdiv_spec(num, den);
    crate::vec3::lemma_mul_bound(num, 65536, 196608, 65536);
    crate::vec3::lemma_tdiv_range(num * 65536, 12884901888, den);
    vstd::arithmetic::div_mod::lemma_div_is_ordered_by_denominator(12884901888, 81920, den);
    assert(12884901888int / 81920 == 157286);
    let r0sq = fmul_spec(rf0, rf0);
    crate::vec3::lemma_fmul_bound(rf0, rf0, 157287, 157287);
    lemma_square_fmul_nonneg(rf0);
    let c1 = 65536 - cos;
    let c2 = fmul_spec(c1, c1);
    crate::vec3::lemma_fmul_bound(c1, c1, 1638400, 1638400);
    lemma_square_fmul_nonneg(c1);
    let c4 = fmul_spec(c2, c2);
    crate::vec3::lemma_fmul_bound(c2, c2, 40960000, 40960000);
    lemma_square_fmul_nonneg(c2);
    let c5 = fmul_spec(c4, c1);
    crate::vec3::lemma_fmul_bound(c4, c1, 25600000000, 1638400);
    assert(c5 >= 0) by {
        crate::vec3::lemma_mul_bound(c4, c1, 25600000000, 1638400);
        assert(c4 * c1 >= 0) by (nonlinear_arith)
            requires
                c4 >= 0,
                c1 >= 0,
        ;
        crate::fixed::lemma_tdiv_bounds(c4 * c1, 65536);
    }
    crate::vec3::lemma_fmul_bound(65536 - r0sq, c5, 443100, 640000000000);
}

/// `fmul_spec(x, x)` is never negative.
proof fn lemma_square_fmul_nonneg(x: int)
    ensures
        fmul_spec(x, x) >= 0,
{
    assert(x * x >= 0) by (nonlinear_arith);
    crate::fixed::lemma_tdiv_bounds(x * x, 65536);
}

impl Material {
    /// Dispatch to the variant's scattering model.
    pub fn scatter(&self, r: &Ray, rec: &HitRecord, rng: &mut SmallRng) -> (res: Option<
        (Ray, Vec3),
    >)
        requires
            mat_wf(*self),
            rec_wf(*rec),
            v_fits(r.dir),
        ensures
            res is Some ==> ({
                let (sc, att) = res->0;
                &&& sc.orig == rec.p
                &&& sc.time == r.time
                &&& !spec_near_zero(sc.dir) || self is Dielectric
                &&& v_fits(sc.dir)
                &&& 0 <= att.x <= SCALE && 0 <= att.y <= SCALE && 0 <= att.z <= SCALE
            }),
            self is Lambertian ==> res is Some,
            self is Dielectric ==> res is Some,
    {
        match self {
            Material::Lambertian(l) => l.scatter(r, rec, rng),
            Material::Metal(mt) => mt.scatter(r, rec, rng),
            Material::Dielectric(d) => d.scatter(r, rec, rng),
        }
    }
}

} // verus!
