//! Sampling support: the uncorrelated uniform-variate source.
//!
//! The generator state is passed explicitly to every function that samples,
//! so rendering is deterministic for a fixed seed and trivially
//! parallelizable with one stream per worker.

use rand::rngs::SmallRng;
use rand::Rng;
use vstd::prelude::*;

verus! {

#[verifier::external_type_specification]
#[verifier::external_body]
pub struct ExSmallRng(SmallRng);

/// Relies on `rand::Rng::gen_range` over the half-open range `lo..hi`: it
/// returns a value of that range and panics only when the range is empty,
/// which the precondition rules out.  Nothing more is claimed: the draw is
/// random.
#[verifier::external_body]
pub fn random_i64_range(rng: &mut SmallRng, lo: i64, hi: i64) -> (r: i64)
    requires
        lo < hi,
    ensures
        lo <= r < hi,
{
    rng.gen_range(lo..hi)
}

} // verus!
