//! Three-component fixed-point vectors, used interchangeably as points,
//! directions and RGB colors.

use crate::fixed::{
    fmul_spec, isqrt, lemma_isqrt_bounds, lemma_tdiv_bounds, lemma_tdiv_monotone,
    lemma_tdiv_multiple, spec_isqrt, tdiv, COORD_MAX, SCALE,
};
use crate::util::random_i64_range;
use rand::rngs::SmallRng;
use vstd::prelude::*;

verus! {

#[derive(Clone, Copy, PartialEq, Eq, Structural, Debug)]
pub struct Vec3 {
    pub x: i64,
    pub y: i64,
    pub z: i64,
}

/// The vector with the given mathematical components.
pub open spec fn vec3i(x: int, y: int, z: int) -> Vec3 {
    Vec3 { x: x as i64, y: y as i64, z: z as i64 }
}

/// Every component lies in `[-m, m]`.
pub open spec fn bounded(v: Vec3, m: int) -> bool {
    &&& -m <= v.x as int <= m
    &&& -m <= v.y as int <= m
    &&& -m <= v.z as int <= m
}

/// The vector is a usable coordinate: each component within `COORD_MAX`.
pub open spec fn v_fits(v: Vec3) -> bool {
    bounded(v, COORD_MAX as int)
}

/// The exact (unscaled) dot product; a fixed-point value of scale `SCALE^2`.
pub open spec fn dot_wide(a: Vec3, b: Vec3) -> int {
    (a.x as int) * (b.x as int) + (a.y as int) * (b.y as int) + (a.z as int) * (b.z as int)
}

/// The fixed-point dot product.
pub open spec fn spec_dot(a: Vec3, b: Vec3) -> int {
    tdiv(dot_wide(a, b), SCALE as int)
}

pub open spec fn spec_plus(a: Vec3, b: Vec3) -> Vec3 {
    vec3i(a.x + b.x, a.y + b.y, a.z + b.z)
}

pub open spec fn spec_minus(a: Vec3, b: Vec3) -> Vec3 {
    vec3i(a.x - b.x, a.y - b.y, a.z - b.z)
}

pub open spec fn spec_negate(a: Vec3) -> Vec3 {
    vec3i(-(a.x as int), -(a.y as int), -(a.z as int))
}

/// Scaling by a fixed-point factor, component by component.
pub open spec fn spec_scale(s: int, v: Vec3) -> Vec3 {
    vec3i(fmul_spec(s, v.x as int), fmul_spec(s, v.y as int), fmul_spec(s, v.z as int))
}

/// The element-wise (Hadamard) fixed-point product.
pub open spec fn spec_comp_mul(a: Vec3, b: Vec3) -> Vec3 {
    vec3i(
        fmul_spec(a.x as int, b.x as int),
        fmul_spec(a.y as int, b.y as int),
        fmul_spec(a.z as int, b.z as int),
    )
}

pub open spec fn spec_cross(a: Vec3, b: Vec3) -> Vec3 {
    vec3i(
        fmul_spec(a.y as int, b.z as int) - fmul_spec(a.z as int, b.y as int),
        fmul_spec(a.z as int, b.x as int) - fmul_spec(a.x as int, b.z as int),
        fmul_spec(a.x as int, b.y as int) - fmul_spec(a.y as int, b.x as int),
    )
}

/// The fixed-point length: `sqrt` of the wide self-product is already at
/// scale `SCALE`.
pub open spec fn spec_length(v: Vec3) -> int {
    spec_isqrt(dot_wide(v, v))
}

/// Normalization; the zero vector is left unchanged.
pub open spec fn spec_unit(v: Vec3) -> Vec3 {
    if dot_wide(v, v) == 0 {
        Vec3 { x: 0, y: 0, z: 0 }
    } else {
        let len = spec_length(v);
        vec3i(
            tdiv((v.x as int) * (SCALE as int), len),
            tdiv((v.y as int) * (SCALE as int), len),
            tdiv((v.z as int) * (SCALE as int), len),
        )
    }
}

/// Any near-zero threshold below the fixed-point resolution degenerates to
/// an exact test: a vector is near zero exactly when it is zero.
pub open spec fn spec_near_zero(v: Vec3) -> bool {
    v.x == 0 && v.y == 0 && v.z == 0
}

/// Both factors bounded bounds the product: the one nonlinear fact the
/// component arithmetic needs, shared by every caller.
pub proof fn lemma_mul_bound(a: int, b: int, ma: int, mb: int)
    requires
        -ma <= a <= ma,
        -mb <= b <= mb,
        0 <= ma,
        0 <= mb,
    ensures
        -(ma * mb) <= a * b <= ma * mb,
{
    assert(-(ma * mb) <= a * b <= ma * mb) by (nonlinear_arith)
        requires
            -ma <= a <= ma,
            -mb <= b <= mb,
            0 <= ma,
            0 <= mb,
    ;
}

/// A bound on the numerator bounds the truncating quotient.
pub proof fn lemma_tdiv_range(a: int, m: int, b: int)
    requires
        b >= 1,
        -m <= a <= m,
        0 <= m,
    ensures
        -(m / b) <= tdiv(a, b) <= m / b,
{
    lemma_tdiv_monotone(a, m, b);
    lemma_tdiv_monotone(-m, a, b);
    assert(tdiv(m, b) == m / b);
    assert(tdiv(-m, b) == -(m / b));
}

/// Bounded factors bound the fixed-point product.
pub proof fn lemma_fmul_bound(a: int, b: int, ma: int, mb: int)
    requires
        -ma <= a <= ma,
        -mb <= b <= mb,
        0 <= ma,
        0 <= mb,
    ensures
        -(ma * mb) <= fmul_spec(a, b) <= ma * mb,
        -((ma * mb) / (SCALE as int)) <= fmul_spec(a, b) <= (ma * mb) / (SCALE as int),
{
    lemma_mul_bound(a, b, ma, mb);
    lemma_tdiv_range(a * b, ma * mb, SCALE as int);
    lemma_tdiv_bounds(a * b, SCALE as int);
}

impl Vec3 {
    pub fn new(x: i64, y: i64, z: i64) -> (r: Vec3)
        ensures
            r == (Vec3 { x, y, z }),
    {
        Vec3 { x, y, z }
    }

    pub fn zero() -> (r: Vec3)
        ensures
            r == (Vec3 { x: 0i64, y: 0i64, z: 0i64 }),
    {
        Vec3 { x: 0, y: 0, z: 0 }
    }

    pub fn plus(&self, o: &Vec3) -> (r: Vec3)
        requires
            bounded(*self, 0x2000_0000_0000_0000),
            bounded(*o, 0x2000_0000_0000_0000),
        ensures
            r == spec_plus(*self, *o),
    {
        Vec3 { x: self.x + o.x, y: self.y + o.y, z: self.z + o.z }
    }

    pub fn minus(&self, o: &Vec3) -> (r: Vec3)
        requires
            bounded(*self, 0x2000_0000_0000_0000),
            bounded(*o, 0x2000_0000_0000_0000),
        ensures
            r == spec_minus(*self, *o),
    {
        Vec3 { x: self.x - o.x, y: self.y - o.y, z: self.z - o.z }
    }

    pub fn negate(&self) -> (r: Vec3)
        requires
            bounded(*self, 0x2000_0000_0000_0000),
        ensures
            r == spec_negate(*self),
    {
        Vec3 { x: -self.x, y: -self.y, z: -self.z }
    }

    /// The exact dot product, at scale `SCALE^2`, in a wide integer.
    pub fn dot_wide(&self, o: &Vec3) -> (r: i128)
        requires
            bounded(*self, 0x4000_0000_0000_0000),
            bounded(*o, 0x4000_0000_0000_0000),
        ensures
            r == dot_wide(*self, *o),
    {
        proof {
            lemma_mul_bound(self.x as int, o.x as int, 0x4000_0000_0000_0000, 0x4000_0000_0000_0000);
            lemma_mul_bound(self.y as int, o.y as int, 0x4000_0000_0000_0000, 0x4000_0000_0000_0000);
            lemma_mul_bound(self.z as int, o.z as int, 0x4000_0000_0000_0000, 0x4000_0000_0000_0000);
        }
        (self.x as i128) * (o.x as i128) + (self.y as i128) * (o.y as i128) + (self.z as i128)
            * (o.z as i128)
    }

    /// The fixed-point dot product.
    pub fn dot(&self, o: &Vec3) -> (r: i64)
        requires
            bounded(*self, 0x40_0000_0000),
            bounded(*o, 0x40_0000_0000),
        ensures
            r == spec_dot(*self, *o),
    {
        let w = self.dot_wide(o);
        proof {
            lemma_mul_bound(self.x as int, o.x as int, 0x40_0000_0000, 0x40_0000_0000);
            lemma_mul_bound(self.y as int, o.y as int, 0x40_0000_0000, 0x40_0000_0000);
            lemma_mul_bound(self.z as int, o.z as int, 0x40_0000_0000, 0x40_0000_0000);
            lemma_tdiv_range(dot_wide(*self, *o), 3int * 0x40_0000_0000 * 0x40_0000_0000, SCALE as int);
        }
        crate::fixed::div_trunc(w, SCALE as i128) as i64
    }

    /// Scale by the fixed-point factor `s`.
    pub fn scale(&self, s: i64) -> (r: Vec3)
        requires
            i64::MIN <= fmul_spec(s as int, self.x as int) <= i64::MAX,
            i64::MIN <= fmul_spec(s as int, self.y as int) <= i64::MAX,
            i64::MIN <= fmul_spec(s as int, self.z as int) <= i64::MAX,
        ensures
            r == spec_scale(s as int, *self),
    {
        Vec3 {
            x: crate::fixed::fmul(s, self.x),
            y: crate::fixed::fmul(s, self.y),
            z: crate::fixed::fmul(s, self.z),
        }
    }

    /// The element-wise fixed-point product.
    pub fn comp_mul(&self, o: &Vec3) -> (r: Vec3)
        requires
            bounded(*self, 0x80_0000_0000),
            bounded(*o, 0x80_0000_0000),
        ensures
            r == spec_comp_mul(*self, *o),
    {
        proof {
            lemma_fmul_bound(self.x as int, o.x as int, 0x80_0000_0000, 0x80_0000_0000);
            lemma_fmul_bound(self.y as int, o.y as int, 0x80_0000_0000, 0x80_0000_0000);
            lemma_fmul_bound(self.z as int, o.z as int, 0x80_0000_0000, 0x80_0000_0000);
        }
        Vec3 {
            x: crate::fixed::fmul(self.x, o.x),
            y: crate::fixed::fmul(self.y, o.y),
            z: crate::fixed::fmul(self.z, o.z),
        }
    }

    pub fn cross(&self, o: &Vec3) -> (r: Vec3)
        requires
            bounded(*self, 0x40_0000_0000),
            bounded(*o, 0x40_0000_0000),
        ensures
            r == spec_cross(*self, *o),
    {
        proof {
            lemma_fmul_bound(self.y as int, o.z as int, 0x40_0000_0000, 0x40_0000_0000);
            lemma_fmul_bound(self.z as int, o.y as int, 0x40_0000_0000, 0x40_0000_0000);
            lemma_fmul_bound(self.z as int, o.x as int, 0x40_0000_0000, 0x40_0000_0000);
            lemma_fmul_bound(self.x as int, o.z as int, 0x40_0000_0000, 0x40_0000_0000);
            lemma_fmul_bound(self.x as int, o.y as int, 0x40_0000_0000, 0x40_0000_0000);
            lemma_fmul_bound(self.y as int, o.x as int, 0x40_0000_0000, 0x40_0000_0000);
        }
        Vec3 {
            x: crate::fixed::fmul(self.y, o.z) - crate::fixed::fmul(self.z, o.y),
            y: crate::fixed::fmul(self.z, o.x) - crate::fixed::fmul(self.x, o.z),
            z: crate::fixed::fmul(self.x, o.y) - crate::fixed::fmul(self.y, o.x),
        }
    }

    /// The fixed-point length of the vector.
    pub fn length(&self) -> (r: i64)
        requires
            bounded(*self, 0x4000_0000_0000),
        ensures
            r == spec_length(*self),
            r >= 0,
    {
        let w = self.dot_wide(self);
        proof {
            lemma_square_sum_nonneg(*self);
            lemma_mul_bound(self.x as int, self.x as int, 0x4000_0000_0000, 0x4000_0000_0000);
            lemma_mul_bound(self.y as int, self.y as int, 0x4000_0000_0000, 0x4000_0000_0000);
            lemma_mul_bound(self.z as int, self.z as int, 0x4000_0000_0000, 0x4000_0000_0000);
            lemma_isqrt_bounds(dot_wide(*self, *self));
            lemma_root_bound(dot_wide(*self, *self), 0x80_0000_0000_0000);
        }
        isqrt(w as u128) as i64
    }

    /// Normalize; the zero vector stays zero.  Every component of the result
    /// is at most one unit (`SCALE`) in magnitude.
    pub fn normalize(&self) -> (r: Vec3)
        requires
            bounded(*self, 0x4000_0000_0000),
        ensures
            r == spec_unit(*self),
            bounded(r, SCALE as int),
    {
        let len = self.length();
        proof {
            lemma_square_sum_nonneg(*self);
        }
        if len == 0 {
            proof {
                lemma_isqrt_bounds(dot_wide(*self, *self));
            }
            Vec3 { x: 0, y: 0, z: 0 }
        } else {
            proof {
                lemma_unit_component_bound(*self);
                lemma_mul_bound(self.x as int, SCALE as int, 0x4000_0000_0000, SCALE as int);
                lemma_mul_bound(self.y as int, SCALE as int, 0x4000_0000_0000, SCALE as int);
                lemma_mul_bound(self.z as int, SCALE as int, 0x4000_0000_0000, SCALE as int);
            }
            Vec3 {
                x: crate::fixed::div_trunc((self.x as i128) * (SCALE as i128), len as i128) as i64,
                y: crate::fixed::div_trunc((self.y as i128) * (SCALE as i128), len as i128) as i64,
                z: crate::fixed::div_trunc((self.z as i128) * (SCALE as i128), len as i128) as i64,
            }
        }
    }
}

pub proof fn lemma_square_sum_nonneg(v: Vec3)
    ensures
        dot_wide(v, v) >= (v.x as int) * (v.x as int),
        dot_wide(v, v) >= (v.y as int) * (v.y as int),
        dot_wide(v, v) >= (v.z as int) * (v.z as int),
        dot_wide(v, v) >= 0,
        dot_wide(v, v) == 0 ==> v.x == 0 && v.y == 0 && v.z == 0,
{
    let x = v.x as int;
    let y = v.y as int;
    let z = v.z as int;
    assert(x * x >= 0 && y * y >= 0 && z * z >= 0 && (x != 0 ==> x * x > 0) && (y != 0 ==> y * y
        > 0) && (z != 0 ==> z * z > 0)) by (nonlinear_arith);
}

/// If `n < m*m` then `spec_isqrt(n) < m`.
pub proof fn lemma_root_bound(n: int, m: int)
    requires
        0 <= n,
        0 < m,
        n < m * m,
    ensures
        spec_isqrt(n) < m,
{
    lemma_isqrt_bounds(n);
    let r = spec_isqrt(n);
    if r >= m {
        assert(m * m <= r * r) by (nonlinear_arith)
            requires
                0 < m <= r,
        ;
    }
}

/// Each component of a vector is bounded by its length, so the normalized
/// components are bounded by one unit.
proof fn lemma_unit_component_bound(v: Vec3)
    requires
        dot_wide(v, v) > 0,
    ensures
        ({
            let len = spec_length(v);
            &&& len >= 1
            &&& -(SCALE as int) <= tdiv((v.x as int) * (SCALE as int), len) <= SCALE as int
            &&& -(SCALE as int) <= tdiv((v.y as int) * (SCALE as int), len) <= SCALE as int
            &&& -(SCALE as int) <= tdiv((v.z as int) * (SCALE as int), len) <= SCALE as int
        }),
{
    lemma_square_sum_nonneg(v);
    lemma_isqrt_bounds(dot_wide(v, v));
    let len = spec_length(v);
    assert(len >= 1) by {
        if len == 0 {
            assert(dot_wide(v, v) < (len + 1) * (len + 1));
            assert((len + 1) * (len + 1) == 1) by (nonlinear_arith)
                requires
                    len == 0,
            ;
        }
    }
    lemma_comp_le_len(v.x as int, dot_wide(v, v), len);
    lemma_comp_le_len(v.y as int, dot_wide(v, v), len);
    lemma_comp_le_len(v.z as int, dot_wide(v, v), len);
    lemma_scaled_quotient_bound(v.x as int, len);
    lemma_scaled_quotient_bound(v.y as int, len);
    lemma_scaled_quotient_bound(v.z as int, len);
}

/// `x^2 <= n < (len+1)^2` forces `|x| <= len`.
proof fn lemma_comp_le_len(x: int, n: int, len: int)
    requires
        x * x <= n,
        len >= 0,
        n < (len + 1) * (len + 1),
    ensures
        -len <= x <= len,
{
    if x > len || x < -len {
        assert((len + 1) * (len + 1) <= x * x) by (nonlinear_arith)
            requires
                len >= 0,
                x > len || x < -len,
        ;
    }
}

/// `|x| <= len` bounds `x * SCALE / len` by `SCALE`.
proof fn lemma_scaled_quotient_bound(x: int, len: int)
    requires
        len >= 1,
        -len <= x <= len,
    ensures
        -(SCALE as int) <= tdiv(x * (SCALE as int), len) <= SCALE as int,
{
    let s = SCALE as int;
    assert(x * s <= len * s && -(len * s) <= x * s) by (nonlinear_arith)
        requires
            -len <= x <= len,
            s > 0,
    ;
    lemma_tdiv_monotone(x * s, len * s, len);
    lemma_tdiv_monotone(-(len * s), x * s, len);
    lemma_tdiv_multiple(s, len);
    assert(-(len * s) == (-s) * len) by (nonlinear_arith);
    lemma_tdiv_multiple(-s, len);
}

/// A vector with each component drawn uniformly from `[0, 1)`.
pub fn random(rng: &mut SmallRng) -> (r: Vec3)
    ensures
        bounded(r, SCALE as int),
        0 <= r.x < SCALE && 0 <= r.y < SCALE && 0 <= r.z < SCALE,
{
    random_range(rng, 0, SCALE)
}

/// A vector with each component drawn uniformly from `[lo, hi)`.
pub fn random_range(rng: &mut SmallRng, lo: i64, hi: i64) -> (r: Vec3)
    requires
        lo < hi,
    ensures
        lo <= r.x < hi && lo <= r.y < hi && lo <= r.z < hi,
{
    let x = random_i64_range(rng, lo, hi);
    let y = random_i64_range(rng, lo, hi);
    let z = random_i64_range(rng, lo, hi);
    Vec3 { x, y, z }
}

/// A rejection-sampled point strictly inside the unit sphere.  After a fixed
/// number of failed draws (astronomically unlikely) a fixed interior point is
/// returned so that the function provably terminates.
pub fn random_in_unit_sphere(rng: &mut SmallRng) -> (r: Vec3)
    ensures
        bounded(r, SCALE as int),
        dot_wide(r, r) < (SCALE as int) * (SCALE as int),
{
    let mut tries: u32 = 0;
    while tries < 64
        invariant
            tries <= 64,
        decreases 64 - tries,
    {
        let p = random_range(rng, -SCALE, SCALE);
        if p.dot_wide(&p) < (SCALE as i128) * (SCALE as i128) {
            return p;
        }
        tries = tries + 1;
    }
    Vec3 { x: 32768, y: 0, z: 0 }
}

/// A random direction of (approximately) unit length.
pub fn random_unit_vector(rng: &mut SmallRng) -> (r: Vec3)
    ensures
        bounded(r, SCALE as int),
        exists|p: Vec3|
            dot_wide(p, p) < (SCALE as int) * (SCALE as int) && r == #[trigger] spec_unit(p),
{
    let p = random_in_unit_sphere(rng);
    let r = p.normalize();
    proof {
        assert(dot_wide(p, p) < (SCALE as int) * (SCALE as int) && r == spec_unit(p));
    }
    r
}

/// A rejection-sampled point strictly inside the unit disk of the xy-plane.
pub fn random_in_unit_disk(rng: &mut SmallRng) -> (r: Vec3)
    ensures
        bounded(r, SCALE as int),
        dot_wide(r, r) < (SCALE as int) * (SCALE as int),
        r.z == 0,
{
    let mut tries: u32 = 0;
    while tries < 64
        invariant
            tries <= 64,
        decreases 64 - tries,
    {
        let x = random_i64_range(rng, -SCALE, SCALE);
        let y = random_i64_range(rng, -SCALE, SCALE);
        let p = Vec3 { x, y, z: 0 };
        if p.dot_wide(&p) < (SCALE as i128) * (SCALE as i128) {
            return p;
        }
        tries = tries + 1;
    }
    Vec3 { x: 32768, y: 0, z: 0 }
}

/// A random point of the unit sphere folded onto the hemisphere around
/// `normal`.
pub fn in_hemisphere(normal: &Vec3, rng: &mut SmallRng) -> (r: Vec3)
    requires
        bounded(*normal, 0x4000_0000_0000),
    ensures
        bounded(r, SCALE as int),
        dot_wide(r, r) < (SCALE as int) * (SCALE as int),
        dot_wide(r, *normal) >= 0,
{
    let p = random_in_unit_sphere(rng);
    if p.dot_wide(normal) > 0 {
        p
    } else {
        let q = p.negate();
        proof {
            assert(dot_wide(q, q) == dot_wide(p, p) && dot_wide(q, *normal) == -dot_wide(
                p,
                *normal,
            )) by (nonlinear_arith)
                requires
                    q.x as int == -(p.x as int),
                    q.y as int == -(p.y as int),
                    q.z as int == -(p.z as int),
            ;
        }
        q
    }
}

/// Componentwise zero test; see `spec_near_zero`.
pub fn near_zero(v: &Vec3) -> (r: bool)
    ensures
        r == spec_near_zero(*v),
{
    v.x == 0 && v.y == 0 && v.z == 0
}


/// Mirror reflection of `v` about `normal` (both roughly unit length).
pub open spec fn spec_reflect(v: Vec3, n: Vec3) -> Vec3 {
    let d = spec_dot(v, n);
    vec3i(
        v.x - fmul_spec(2 * d, n.x as int),
        v.y - fmul_spec(2 * d, n.y as int),
        v.z - fmul_spec(2 * d, n.z as int),
    )
}

/// `v - 2 (v . n) n`.
pub fn reflect(v: &Vec3, normal: &Vec3) -> (r: Vec3)
    requires
        bounded(*v, 4 * SCALE as int),
        bounded(*normal, 8 * SCALE as int),
    ensures
        r == spec_reflect(*v, *normal),
        bounded(r, 100925440),
{
    let d = v.dot(normal);
    proof {
        lemma_mul_bound(v.x as int, normal.x as int, 262144, 524288);
        lemma_mul_bound(v.y as int, normal.y as int, 262144, 524288);
        lemma_mul_bound(v.z as int, normal.z as int, 262144, 524288);
        lemma_tdiv_range(dot_wide(*v, *normal), 412316860416, 65536);
        lemma_fmul_bound(2 * d, normal.x as int, 12582912, 524288);
        lemma_fmul_bound(2 * d, normal.y as int, 12582912, 524288);
        lemma_fmul_bound(2 * d, normal.z as int, 12582912, 524288);
    }
    let t = 2 * d;
    Vec3 {
        x: v.x - crate::fixed::fmul(t, normal.x),
        y: v.y - crate::fixed::fmul(t, normal.y),
        z: v.z - crate::fixed::fmul(t, normal.z),
    }
}

/// Refraction of the unit direction `uv` at a surface with normal `n` and
/// refraction ratio `e` (incoming over outgoing index), by the standard
/// perpendicular/parallel decomposition.
pub open spec fn spec_refract(uv: Vec3, n: Vec3, e: int) -> Vec3 {
    let c0 = spec_dot(spec_negate(uv), n);
    let c = if c0 > SCALE as int {
        SCALE as int
    } else {
        c0
    };
    let perp = spec_scale(e, spec_plus(uv, spec_scale(c, n)));
    let m = SCALE as int - tdiv(dot_wide(perp, perp), SCALE as int);
    let k = spec_isqrt((if m < 0 {
        -m
    } else {
        m
    }) * SCALE as int);
    spec_minus(perp, spec_scale(k, n))
}

pub fn refract(uv: &Vec3, normal: &Vec3, etai_over_etat: i64) -> (r: Vec3)
    requires
        bounded(*uv, SCALE as int),
        bounded(*normal, 8 * SCALE as int),
        0 < etai_over_etat <= 4 * SCALE as int,
    ensures
        r == spec_refract(*uv, *normal, etai_over_etat as int),
        bounded(r, 786593792),
{
    let nu = uv.negate();
    let c0 = nu.dot(normal);
    proof {
        lemma_mul_bound(nu.x as int, normal.x as int, 65536, 524288);
        lemma_mul_bound(nu.y as int, normal.y as int, 65536, 524288);
        lemma_mul_bound(nu.z as int, normal.z as int, 65536, 524288);
        lemma_tdiv_range(dot_wide(nu, *normal), 103079215104, 65536);
    }
    let c = if c0 > SCALE {
        SCALE
    } else {
        c0
    };
    proof {
        lemma_fmul_bound(c as int, normal.x as int, 1572864, 524288);
        lemma_fmul_bound(c as int, normal.y as int, 1572864, 524288);
        lemma_fmul_bound(c as int, normal.z as int, 1572864, 524288);
    }
    let cn = normal.scale(c);
    let w = uv.plus(&cn);
    proof {
        lemma_fmul_bound(etai_over_etat as int, w.x as int, 262144, 12648448);
        lemma_fmul_bound(etai_over_etat as int, w.y as int, 262144, 12648448);
        lemma_fmul_bound(etai_over_etat as int, w.z as int, 262144, 12648448);
    }
    let perp = w.scale(etai_over_etat);
    let pw = perp.dot_wide(&perp);
    proof {
        lemma_mul_bound(perp.x as int, perp.x as int, 50593792, 50593792);
        lemma_mul_bound(perp.y as int, perp.y as int, 50593792, 50593792);
        lemma_mul_bound(perp.z as int, perp.z as int, 50593792, 50593792);
        lemma_tdiv_range(dot_wide(perp, perp), 7679195366817792, 65536);
    }
    let m = SCALE - crate::fixed::div_trunc(pw, SCALE as i128) as i64;
    let mabs: i64 = if m < 0 {
        -m
    } else {
        m
    };
    proof {
        lemma_mul_bound(mabs as int, SCALE as int, 117175287808, 65536);
    }
    let k128 = crate::fixed::isqrt((mabs as u128) * (SCALE as u128));
    proof {
        lemma_root_bound((mabs as int) * (SCALE as int), 92000000);
    }
    let k = k128 as i64;
    proof {
        crate::fixed::lemma_isqrt_bounds((mabs as int) * (SCALE as int));
        lemma_fmul_bound(k as int, normal.x as int, 92000000, 524288);
        lemma_fmul_bound(k as int, normal.y as int, 92000000, 524288);
        lemma_fmul_bound(k as int, normal.z as int, 92000000, 524288);
    }
    let kn = normal.scale(k);
    perp.minus(&kn)
}

} // verus!
