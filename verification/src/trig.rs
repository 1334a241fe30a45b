//! Fixed-point trigonometry: enough of sine, cosine, tangent, arc cosine and
//! two-argument arc tangent for texture patterns, sphere surface coordinates
//! and the camera's field of view.  Each function mirrors its spec exactly;
//! the specs are the defining statements of these approximations.

use crate::fixed::{div_trunc, fmul, fmul_spec, spec_clamp, tdiv, SCALE};
use crate::vec3::{lemma_mul_bound, lemma_tdiv_range};
use vstd::prelude::*;

verus! {

/// Pi at scale `SCALE`.
pub const PI_FX: i64 = 205887;

/// Two pi at scale `SCALE`.
pub const TWO_PI_FX: i64 = 411775;

/// Half pi at scale `SCALE`.
pub const HALF_PI_FX: i64 = 102944;

/// Degree-seven Taylor polynomial of sine, meant for `|x|` up to a right
/// angle, clamped into `[-1, 1]`.
pub open spec fn spec_sin_poly(x: int) -> int {
    let t2 = fmul_spec(x, x);
    let t3 = fmul_spec(t2, x);
    let t5 = fmul_spec(t3, t2);
    let t7 = fmul_spec(t5, t2);
    spec_clamp(x - tdiv(t3, 6) + tdiv(t5, 120) - tdiv(t7, 5040), -65536, 65536)
}

/// Sine of any angle: the angle is reduced to `[-pi/2, pi/2]` by periodicity
/// and reflection, then the polynomial is applied.
pub open spec fn spec_sin(x: int) -> int {
    let m = x % (TWO_PI_FX as int);
    let r = if m >= PI_FX as int {
        m - TWO_PI_FX as int
    } else {
        m
    };
    let f = if r > HALF_PI_FX as int {
        (PI_FX as int) - r
    } else if r < -(HALF_PI_FX as int) {
        -(PI_FX as int) - r
    } else {
        r
    };
    spec_sin_poly(f)
}

pub open spec fn spec_cos(x: int) -> int {
    spec_sin(x + HALF_PI_FX as int)
}

/// Tangent; where the cosine approximation is not positive the result is
/// pinned to a large constant (the pole).
pub open spec fn spec_tan(x: int) -> int {
    let c = spec_cos(x);
    if c <= 0 {
        0x1000_0000_0000
    } else {
        tdiv(spec_sin(x) * 65536, c)
    }
}

proof fn lemma_sin_poly_args(x: int)
    requires
        -(PI_FX as int) <= x <= PI_FX as int,
    ensures
        -655360 <= fmul_spec(x, x) <= 655360,
        -2080769 <= fmul_spec(fmul_spec(x, x), x) <= 2080769,
        -20807690 <= fmul_spec(fmul_spec(fmul_spec(x, x), x), fmul_spec(x, x)) <= 20807690,
        -208076900 <= fmul_spec(
            fmul_spec(fmul_spec(fmul_spec(x, x), x), fmul_spec(x, x)),
            fmul_spec(x, x),
        ) <= 208076900,
{
    let t2 = fmul_spec(x, x);
    crate::vec3::lemma_fmul_bound(x, x, 205887, 205887);
    assert(-655360 <= t2 <= 655360);
    let t3 = fmul_spec(t2, x);
    crate::vec3::lemma_fmul_bound(t2, x, 655360, 205887);
    let t5 = fmul_spec(t3, t2);
    crate::vec3::lemma_fmul_bound(t3, t2, 2080769, 655360);
    let t7 = fmul_spec(t5, t2);
    crate::vec3::lemma_fmul_bound(t5, t2, 20807690, 655360);
}

/// The sine polynomial on a reduced angle.
fn sin_poly(x: i64) -> (r: i64)
    requires
        -(PI_FX as int) <= x <= PI_FX as int,
    ensures
        r == spec_sin_poly(x as int),
        -(SCALE as int) <= r <= SCALE as int,
{
    proof {
        lemma_sin_poly_args(x as int);
        lemma_tdiv_range(
            fmul_spec(fmul_spec(x as int, x as int), x as int),
            2080769,
            6,
        );
        lemma_tdiv_range(
            fmul_spec(
                fmul_spec(fmul_spec(x as int, x as int), x as int),
                fmul_spec(x as int, x as int),
            ),
            20807690,
            120,
        );
        lemma_tdiv_range(
            fmul_spec(
                fmul_spec(
                    fmul_spec(fmul_spec(x as int, x as int), x as int),
                    fmul_spec(x as int, x as int),
                ),
                fmul_spec(x as int, x as int),
            ),
            208076900,
            5040,
        );
    }
    let t2 = fmul(x, x);
    let t3 = fmul(t2, x);
    let t5 = fmul(t3, t2);
    let t7 = fmul(t5, t2);
    let raw = x - div_trunc(t3 as i128, 6) as i64 + div_trunc(t5 as i128, 120) as i64 - div_trunc(
        t7 as i128,
        5040,
    ) as i64;
    crate::fixed::clamp(raw, -SCALE, SCALE)
}

/// Fixed-point sine.
pub fn sin_fx(x: i64) -> (r: i64)
    requires
        x > i64::MIN,
    ensures
        r == spec_sin(x as int),
        -(SCALE as int) <= r <= SCALE as int,
{
    proof {
        vstd::arithmetic::div_mod::lemma_mod_bound(x as int, TWO_PI_FX as int);
    }
    let m = x.checked_rem_euclid(TWO_PI_FX).unwrap();
    let r0 = if m >= PI_FX {
        m - TWO_PI_FX
    } else {
        m
    };
    let f = if r0 > HALF_PI_FX {
        PI_FX - r0
    } else if r0 < -HALF_PI_FX {
        -PI_FX - r0
    } else {
        r0
    };
    sin_poly(f)
}

/// Fixed-point cosine.
pub fn cos_fx(x: i64) -> (r: i64)
    requires
        -0x4000_0000_0000_0000 <= x <= 0x4000_0000_0000_0000,
    ensures
        r == spec_cos(x as int),
        -(SCALE as int) <= r <= SCALE as int,
{
    sin_fx(x + HALF_PI_FX)
}

/// Fixed-point tangent; see `spec_tan` for the pole convention.
pub fn tan_fx(x: i64) -> (r: i64)
    requires
        -0x4000_0000_0000_0000 <= x <= 0x4000_0000_0000_0000,
    ensures
        r == spec_tan(x as int),
{
    let c = cos_fx(x);
    if c <= 0 {
        0x1000_0000_0000
    } else {
        let s = sin_fx(x);
        proof {
            lemma_mul_bound(s as int, 65536, 65536, 65536);
            lemma_tdiv_range(s as int * 65536, 65536int * 65536, c as int);
        }
        div_trunc(s as i128 * 65536, c as i128) as i64
    }
}

/// Arc tangent on `[0, 1]`: `atan(r) = r*(pi/4 + 0.273*(1 - r))`, a standard
/// quadratic approximation, clamped into `[0, pi/4]`... the clamp keeps the
/// stated range exact.
pub open spec fn spec_atan_poly(r: int) -> int {
    spec_clamp(fmul_spec(r, 51472 + fmul_spec(17892, 65536 - r)), 0, 51472)
}

fn atan_poly(r: i64) -> (res: i64)
    requires
        0 <= r <= SCALE,
    ensures
        res == spec_atan_poly(r as int),
        0 <= res <= 51472,
{
    proof {
        crate::vec3::lemma_fmul_bound(17892, 65536 - r as int, 17892, 65536);
        crate::vec3::lemma_fmul_bound(
            r as int,
            51472 + fmul_spec(17892, 65536 - r as int),
            65536,
            69364,
        );
    }
    let k = fmul(17892, SCALE - r);
    let raw = fmul(r, 51472 + k);
    crate::fixed::clamp(raw, 0, 51472)
}

/// Two-argument arc tangent, in `[-pi, pi]`.
pub open spec fn spec_atan2(y: int, x: int) -> int {
    if y == 0 && x == 0 {
        0
    } else {
        let ay = if y < 0 {
            -y
        } else {
            y
        };
        let ax = if x < 0 {
            -x
        } else {
            x
        };
        let base = if ax >= ay {
            spec_atan_poly(tdiv(ay * 65536, ax))
        } else {
            (HALF_PI_FX as int) - spec_atan_poly(tdiv(ax * 65536, ay))
        };
        let flipped = if x < 0 {
            (PI_FX as int) - base
        } else {
            base
        };
        if y < 0 {
            -flipped
        } else {
            flipped
        }
    }
}

pub fn atan2_fx(y: i64, x: i64) -> (r: i64)
    requires
        -0x4000_0000 <= y <= 0x4000_0000,
        -0x4000_0000 <= x <= 0x4000_0000,
    ensures
        r == spec_atan2(y as int, x as int),
        -(PI_FX as int) <= r <= PI_FX as int,
{
    if y == 0 && x == 0 {
        return 0;
    }
    let ay = if y < 0 {
        -y
    } else {
        y
    };
    let ax = if x < 0 {
        -x
    } else {
        x
    };
    let base: i64 = if ax >= ay {
        proof {
            lemma_mul_bound(ay as int, 65536, 0x4000_0000, 65536);
            lemma_mul_quot_le(ay as int, ax as int);
        }
        atan_poly(div_trunc(ay as i128 * 65536, ax as i128) as i64)
    } else {
        proof {
            lemma_mul_bound(ax as int, 65536, 0x4000_0000, 65536);
            lemma_mul_quot_le(ax as int, ay as int);
        }
        HALF_PI_FX - atan_poly(div_trunc(ax as i128 * 65536, ay as i128) as i64)
    };
    let flipped = if x < 0 {
        PI_FX - base
    } else {
        base
    };
    if y < 0 {
        -flipped
    } else {
        flipped
    }
}

/// For `0 <= a <= b`, the scaled quotient `a * SCALE / b` lies in `[0, SCALE]`.
proof fn lemma_mul_quot_le(a: int, b: int)
    requires
        0 <= a <= b,
        b >= 1,
    ensures
        0 <= tdiv(a * 65536, b) <= 65536,
{
    assert(0 <= a * 65536 <= b * 65536) by (nonlinear_arith)
        requires
            0 <= a <= b,
    ;
    crate::fixed::lemma_tdiv_monotone(0, a * 65536, b);
    crate::fixed::lemma_tdiv_monotone(a * 65536, b * 65536, b);
    crate::fixed::lemma_tdiv_multiple(65536, b);
}

/// Arc cosine on `[-1, 1]`, from a short arc-sine series, clamped into
/// `[0, pi]`.
pub open spec fn spec_acos(y: int) -> int {
    let c = spec_clamp(y, -65536, 65536);
    let t2 = fmul_spec(c, c);
    let t3 = fmul_spec(t2, c);
    let t5 = fmul_spec(t3, t2);
    let asin = c + tdiv(t3, 6) + tdiv(3 * t5, 40);
    spec_clamp((HALF_PI_FX as int) - asin, 0, PI_FX as int)
}

pub fn acos_fx(y: i64) -> (r: i64)
    ensures
        r == spec_acos(y as int),
        0 <= r <= PI_FX as int,
{
    let c = crate::fixed::clamp(y, -SCALE, SCALE);
    proof {
        crate::vec3::lemma_fmul_bound(c as int, c as int, 65536, 65536);
        crate::vec3::lemma_fmul_bound(fmul_spec(c as int, c as int), c as int, 65536, 65536);
        crate::vec3::lemma_fmul_bound(
            fmul_spec(fmul_spec(c as int, c as int), c as int),
            fmul_spec(c as int, c as int),
            65536,
            65536,
        );
        lemma_tdiv_range(fmul_spec(fmul_spec(c as int, c as int), c as int), 65536, 6);
        lemma_tdiv_range(
            3 * fmul_spec(
                fmul_spec(fmul_spec(c as int, c as int), c as int),
                fmul_spec(c as int, c as int),
            ),
            196608,
            40,
        );
    }
    let t2 = fmul(c, c);
    let t3 = fmul(t2, c);
    let t5 = fmul(t3, t2);
    let asin = c + div_trunc(t3 as i128, 6) as i64 + div_trunc(3 * t5 as i128, 40) as i64;
    crate::fixed::clamp(HALF_PI_FX - asin, 0, PI_FX)
}

} // verus!
