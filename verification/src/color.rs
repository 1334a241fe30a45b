//! Turning an accumulated pixel color into output bytes: average over the
//! samples, gamma-correct with a square root, clamp, and scale to a byte.

use crate::fixed::{div_trunc, isqrt, spec_clamp, spec_isqrt, tdiv, SCALE};
use crate::vec3::{lemma_mul_bound, lemma_root_bound, lemma_tdiv_range, Vec3};
use vstd::prelude::*;

verus! {

/// One output channel: average, square root (gamma two), clamp just below
/// one, and scale into a byte.
pub open spec fn spec_channel(sum: int, samples: int) -> int {
    let avg = tdiv(sum, samples);
    let g = spec_isqrt(avg * 65536);
    tdiv(spec_clamp(g, 0, 65470), 256)
}

/// The three channel bytes of an accumulated pixel color; every component
/// lands in `[0, 255]`.
pub fn write_color(pixel_color: &Vec3, samples_per_pixel: u32) -> (r: (u8, u8, u8))
    requires
        samples_per_pixel >= 1,
        0 <= pixel_color.x <= (samples_per_pixel as int) * (SCALE as int),
        0 <= pixel_color.y <= (samples_per_pixel as int) * (SCALE as int),
        0 <= pixel_color.z <= (samples_per_pixel as int) * (SCALE as int),
    ensures
        r.0 == spec_channel(pixel_color.x as int, samples_per_pixel as int),
        r.1 == spec_channel(pixel_color.y as int, samples_per_pixel as int),
        r.2 == spec_channel(pixel_color.z as int, samples_per_pixel as int),
{
    let a = channel(pixel_color.x, samples_per_pixel);
    let b = channel(pixel_color.y, samples_per_pixel);
    let c = channel(pixel_color.z, samples_per_pixel);
    (a, b, c)
}

/// One channel of `write_color`.
fn channel(sum: i64, samples: u32) -> (r: u8)
    requires
        samples >= 1,
        0 <= sum <= (samples as int) * (SCALE as int),
    ensures
        r == spec_channel(sum as int, samples as int),
{
    proof {
        lemma_avg_in_unit(sum as int, samples as int);
    }
    let avg = div_trunc(sum as i128, samples as i128) as i64;
    proof {
        lemma_mul_bound(avg as int, 65536, 65536, 65536);
        assert(avg * 65536 >= 0) by (nonlinear_arith)
            requires
                avg >= 0,
        ;
        lemma_root_bound(avg as int * 65536, 65537);
        crate::fixed::lemma_isqrt_bounds(avg as int * 65536);
    }
    let g = isqrt((avg as u128) * 65536) as i64;
    let cl = crate::fixed::clamp(g, 0, 65470);
    proof {
        lemma_tdiv_range(cl as int, 65470, 256);
        crate::fixed::lemma_tdiv_bounds(cl as int, 256);
    }
    div_trunc(cl as i128, 256) as u8
}

/// The average of a sum of unit-range samples is in the unit range.
proof fn lemma_avg_in_unit(sum: int, samples: int)
    requires
        samples >= 1,
        0 <= sum <= samples * 65536,
    ensures
        0 <= tdiv(sum, samples) <= 65536,
{
    crate::fixed::lemma_tdiv_monotone(0, sum, samples);
    crate::fixed::lemma_tdiv_monotone(sum, samples * 65536, samples);
    crate::fixed::lemma_tdiv_multiple(65536, samples);
    assert(samples * 65536 == 65536 * samples);
}

} // verus!
