//! Fixed-point scalar arithmetic.
//!
//! A scalar `x: i64` stands for the real number `x / SCALE`.  Products and
//! quotients are computed through `i128` intermediates so that they are exact
//! up to a single final truncating division.

use vstd::arithmetic::div_mod::{
    lemma_div_is_ordered, lemma_div_nonincreasing, lemma_div_pos_is_pos,
    lemma_fundamental_div_mod, lemma_fundamental_div_mod_converse,
};
use vstd::prelude::*;

verus! {

/// Number of fixed-point steps per world unit: `SCALE` represents 1.0.
pub const SCALE: i64 = 65536;

/// Largest coordinate magnitude the geometry admits (2^30 steps, i.e. 16384
/// world units).  Keeping coordinates within this range lets every
/// intermediate product of the intersection arithmetic fit in `i128`.
pub const COORD_MAX: i64 = 0x4000_0000;

/// A scalar that may be used as a point coordinate or direction component.
pub open spec fn fits(x: int) -> bool {
    -(COORD_MAX as int) <= x <= COORD_MAX as int
}

/// Truncating division (round toward zero), the rounding used throughout;
/// meaningful for `b > 0`.
pub open spec fn tdiv(a: int, b: int) -> int {
    if a >= 0 {
        a / b
    } else {
        -((-a) / b)
    }
}

/// `a * b` in fixed point.
pub open spec fn fmul_spec(a: int, b: int) -> int {
    tdiv(a * b, SCALE as int)
}

/// `a / b` in fixed point; meaningful for `b > 0`.
pub open spec fn fdiv_spec(a: int, b: int) -> int {
    tdiv(a * (SCALE as int), b)
}

pub proof fn lemma_tdiv_bounds(a: int, b: int)
    requires
        b >= 1,
    ensures
        a >= 0 ==> 0 <= tdiv(a, b) <= a,
        a < 0 ==> a <= tdiv(a, b) <= 0,
{
    if a >= 0 {
        lemma_div_pos_is_pos(a, b);
        lemma_div_nonincreasing(a, b);
    } else {
        lemma_div_pos_is_pos(-a, b);
        lemma_div_nonincreasing(-a, b);
    }
}

pub proof fn lemma_tdiv_monotone(a1: int, a2: int, b: int)
    requires
        b >= 1,
        a1 <= a2,
    ensures
        tdiv(a1, b) <= tdiv(a2, b),
{
    if a1 >= 0 {
        lemma_div_is_ordered(a1, a2, b);
    } else if a2 < 0 {
        lemma_div_is_ordered(-a2, -a1, b);
    } else {
        lemma_div_pos_is_pos(-a1, b);
        lemma_div_pos_is_pos(a2, b);
    }
}

/// Truncating division is exact on exact multiples.
pub proof fn lemma_tdiv_multiple(q: int, b: int)
    requires
        b >= 1,
    ensures
        tdiv(q * b, b) == q,
{
    if q >= 0 {
        assert(q * b >= 0) by (nonlinear_arith)
            requires
                q >= 0,
                b >= 1,
        ;
        lemma_fundamental_div_mod_converse(q * b, b, q, 0);
    } else {
        assert(q * b < 0 && -(q * b) == (-q) * b + 0) by (nonlinear_arith)
            requires
                q < 0,
                b >= 1,
        ;
        lemma_fundamental_div_mod_converse(-(q * b), b, -q, 0);
    }
}

/// Truncating division of `a` by a positive `b` lands within one step of the
/// exact quotient: `tdiv(a, b) * b` is within `b` of `a` on either side.
pub proof fn lemma_tdiv_close(a: int, b: int)
    requires
        b >= 1,
    ensures
        a - b < tdiv(a, b) * b < a + b,
{
    if a >= 0 {
        lemma_fundamental_div_mod(a, b);
        vstd::arithmetic::div_mod::lemma_mod_bound(a, b);
        let q = a / b;
        let r0 = a % b;
        assert(q * b == a - r0) by (nonlinear_arith)
            requires
                a == b * q + r0,
        ;
        assert(tdiv(a, b) == q);
    } else {
        let m = -a;
        lemma_fundamental_div_mod(m, b);
        vstd::arithmetic::div_mod::lemma_mod_bound(m, b);
        let q = m / b;
        let r0 = m % b;
        assert((-q) * b == a + r0) by (nonlinear_arith)
            requires
                m == b * q + r0,
                m == -a,
        ;
        assert(tdiv(a, b) == -q);
    }
}

/// Truncating division of `a: i128` by a positive divisor, exactly `tdiv`.
pub fn div_trunc(a: i128, b: i128) -> (r: i128)
    requires
        b > 0,
    ensures
        r == tdiv(a as int, b as int),
{
    proof {
        lemma_tdiv_bounds(a as int, b as int);
    }
    a.checked_div(b).unwrap()
}

/// Floor division of `a: i128` by a positive divisor: the spec-level `/`.
pub fn div_floor(a: i128, b: i128) -> (r: i128)
    requires
        b > 0,
        a > i128::MIN,
    ensures
        r == a as int / b as int,
{
    let q = div_trunc(a, b);
    let rm = a.checked_rem(b).unwrap();
    proof {
        lemma_tdiv_bounds(a as int, b as int);
        if a < 0 {
            let m = -(a as int);
            let qm = m / (b as int);
            let rm0 = m % (b as int);
            lemma_fundamental_div_mod(m, b as int);
            vstd::arithmetic::div_mod::lemma_mod_bound(m, b as int);
            assert(rm == -rm0);
            if rm != 0 {
                assert(a as int == (-qm - 1) * (b as int) + ((b as int) - rm0))
                    by (nonlinear_arith)
                    requires
                        m == (b as int) * qm + rm0,
                        m == -(a as int),
                ;
                lemma_fundamental_div_mod_converse(
                    a as int,
                    b as int,
                    -qm - 1,
                    (b as int) - rm0,
                );
            } else {
                assert(a as int == (-qm) * (b as int) + 0) by (nonlinear_arith)
                    requires
                        m == (b as int) * qm + rm0,
                        m == -(a as int),
                        rm0 == 0,
                ;
                lemma_fundamental_div_mod_converse(a as int, b as int, -qm, 0);
            }
        }
    }
    if a < 0 && rm != 0 {
        q - 1
    } else {
        q
    }
}

/// Ceiling division of `a: i128` by a positive divisor.
pub fn div_ceil(a: i128, b: i128) -> (r: i128)
    requires
        b > 0,
        -0x4000_0000_0000_0000_0000_0000_0000_0000 < a
            < 0x4000_0000_0000_0000_0000_0000_0000_0000,
        b < 0x4000_0000_0000_0000_0000_0000_0000_0000,
    ensures
        r == (a + b - 1) as int / b as int,
        r * b >= a,
        (r - 1) * b < a,
{
    let r = div_floor(a + b - 1, b);
    proof {
        let x = a + b - 1;
        let q = x as int / b as int;
        let s = x as int % b as int;
        lemma_fundamental_div_mod(x as int, b as int);
        vstd::arithmetic::div_mod::lemma_mod_bound(x as int, b as int);
        assert(q * (b as int) == x - s && (q - 1) * (b as int) == x - s - b)
            by (nonlinear_arith)
            requires
                x as int == (b as int) * q + s,
        ;
    }
    r
}

/// Fixed-point product `a * b`.
pub fn fmul(a: i64, b: i64) -> (r: i64)
    requires
        i64::MIN <= fmul_spec(a as int, b as int) <= i64::MAX,
    ensures
        r == fmul_spec(a as int, b as int),
{
    let p: i128 = (a as i128) * (b as i128);
    let q = div_trunc(p, SCALE as i128);
    q as i64
}

/// Fixed-point quotient `a / b` for a positive divisor.
pub fn fdiv(a: i64, b: i64) -> (r: i64)
    requires
        b > 0,
        i64::MIN <= fdiv_spec(a as int, b as int) <= i64::MAX,
    ensures
        r == fdiv_spec(a as int, b as int),
{
    let p: i128 = (a as i128) * (SCALE as i128);
    let q = div_trunc(p, b as i128);
    q as i64
}

/// Scaling anything by the fixed-point zero gives zero.
pub proof fn lemma_fmul_zero(x: int)
    ensures
        fmul_spec(0, x) == 0,
{
    assert(0 * x == 0) by (nonlinear_arith);
    vstd::arithmetic::div_mod::lemma_div_of0(SCALE as int);
}

/// For a positive multiplier, `t * e <= c` exactly when `t` is at most the
/// floor quotient.
pub proof fn lemma_mul_le(t: int, c: int, e: int)
    requires
        e >= 1,
    ensures
        t * e <= c <==> t <= c / e,
{
    lemma_fundamental_div_mod(c, e);
    vstd::arithmetic::div_mod::lemma_mod_bound(c, e);
    let q = c / e;
    let s = c % e;
    if t <= q {
        assert(t * e <= q * e) by (nonlinear_arith)
            requires
                t <= q,
                e >= 1,
        ;
        assert(q * e == c - s) by (nonlinear_arith)
            requires
                c == e * q + s,
        ;
    }
    if t * e <= c {
        if t > q {
            assert(t * e >= (q + 1) * e) by (nonlinear_arith)
                requires
                    t >= q + 1,
                    e >= 1,
            ;
            assert((q + 1) * e == c - s + e) by (nonlinear_arith)
                requires
                    c == e * q + s,
            ;
        }
    }
}

/// For a positive multiplier, `t * e >= c` exactly when `t` is at least the
/// ceiling quotient `(c + e - 1) / e`.
pub proof fn lemma_mul_ge(t: int, c: int, e: int)
    requires
        e >= 1,
    ensures
        t * e >= c <==> t >= (c + e - 1) / e,
{
    let q = (c + e - 1) / e;
    let s = (c + e - 1) % e;
    lemma_fundamental_div_mod(c + e - 1, e);
    vstd::arithmetic::div_mod::lemma_mod_bound(c + e - 1, e);
    if t >= q {
        assert(t * e >= q * e) by (nonlinear_arith)
            requires
                t >= q,
                e >= 1,
        ;
        assert(q * e == c + e - 1 - s) by (nonlinear_arith)
            requires
                c + e - 1 == e * q + s,
        ;
    }
    if t * e >= c {
        if t < q {
            assert(t * e <= (q - 1) * e) by (nonlinear_arith)
                requires
                    t <= q - 1,
                    e >= 1,
            ;
            assert((q - 1) * e == c - 1 - s) by (nonlinear_arith)
                requires
                    c + e - 1 == e * q + s,
            ;
        }
    }
}

/// The integer square root, defined by counting up.
pub open spec fn spec_isqrt(n: int) -> int
    decreases n,
{
    if n <= 0 {
        0
    } else {
        let r = spec_isqrt(n - 1);
        if (r + 1) * (r + 1) <= n {
            r + 1
        } else {
            r
        }
    }
}

pub proof fn lemma_isqrt_bounds(n: int)
    requires
        n >= 0,
    ensures
        spec_isqrt(n) >= 0,
        spec_isqrt(n) * spec_isqrt(n) <= n,
        n < (spec_isqrt(n) + 1) * (spec_isqrt(n) + 1),
    decreases n,
{
    if n > 0 {
        lemma_isqrt_bounds(n - 1);
        let r0 = spec_isqrt(n - 1);
        if (r0 + 1) * (r0 + 1) <= n {
            assert((r0 + 1) * (r0 + 1) < (r0 + 2) * (r0 + 2)) by (nonlinear_arith)
                requires
                    r0 >= 0,
            ;
        }
    }
}

/// Any root bracketing `n` the way `spec_isqrt` does is `spec_isqrt(n)`.
pub proof fn lemma_isqrt_unique(n: int, r: int)
    requires
        r >= 0,
        r * r <= n,
        n < (r + 1) * (r + 1),
    ensures
        r == spec_isqrt(n),
{
    lemma_isqrt_bounds(n);
    let s = spec_isqrt(n);
    if r < s {
        assert((r + 1) * (r + 1) <= s * s) by (nonlinear_arith)
            requires
                r + 1 <= s,
                r >= 0,
        ;
    }
    if s < r {
        assert((s + 1) * (s + 1) <= r * r) by (nonlinear_arith)
            requires
                s + 1 <= r,
                s >= 0,
        ;
    }
}

/// Integer square root by bisection.
pub fn isqrt(n: u128) -> (r: u128)
    ensures
        r == spec_isqrt(n as int),
        r * r <= n,
        (n as int) < (r + 1) * (r + 1),
{
    if n == 0 {
        proof {
            lemma_isqrt_unique(n as int, 0);
        }
        return 0;
    }
    let mut lo: u128 = 0;
    let mut hi: u128 = 0x1_0000_0000_0000_0000;
    while hi - lo > 1
        invariant
            lo < hi <= 0x1_0000_0000_0000_0000,
            (lo as int) * (lo as int) <= n as int,
            (n as int) < (hi as int) * (hi as int),
        decreases hi - lo,
    {
        let mid = lo + (hi - lo) / 2;
        proof {
            assert(mid < 0x1_0000_0000_0000_0000);
            assert((mid as int) * (mid as int) < 0x1_0000_0000_0000_0000_0000_0000_0000_0000int)
                by (nonlinear_arith)
                requires
                    0 <= (mid as int) < 0x1_0000_0000_0000_0000int,
            ;
        }
        if mid * mid <= n {
            lo = mid;
        } else {
            hi = mid;
        }
    }
    proof {
        assert(hi == lo + 1);
        lemma_isqrt_unique(n as int, lo as int);
    }
    lo
}

/// Clamp `x` into `[lo, hi]`.
pub fn clamp(x: i64, lo: i64, hi: i64) -> (r: i64)
    requires
        lo <= hi,
    ensures
        r == spec_clamp(x as int, lo as int, hi as int),
{
    if x < lo {
        lo
    } else if x > hi {
        hi
    } else {
        x
    }
}

pub open spec fn spec_clamp(x: int, lo: int, hi: int) -> int {
    if x < lo {
        lo
    } else if x > hi {
        hi
    } else {
        x
    }
}

} // verus!
