//! The software entropy source: a seeded pseudo-random generator from the
//! `rand` crate, passed by exclusive reference through every rolling
//! operation.
//!
//! Nothing can be promised about the value of a single draw beyond its
//! range, so the contracts here state exactly that; every algorithm built
//! on top is verified for every value the generator may hand back.

use vstd::prelude::*;

verus! {

#[verifier::external_type_specification]
#[verifier::external_body]
pub struct ExStdRng(rand::rngs::StdRng);

/// Relies on rand's `RngExt::random_range` over `lo..=hi`: rand documents
/// that the sample is drawn uniformly from the given range (so it lies
/// within it) and that the call panics only on an empty range, which the
/// precondition rules out.
#[verifier::external_body]
pub(crate) fn sample_inclusive(rng: &mut rand::rngs::StdRng, lo: u64, hi: u64) -> (r: u64)
    requires
        lo <= hi,
    ensures
        lo <= r <= hi,
{
    rand::RngExt::random_range(rng, lo..=hi)
}

} // verus!
