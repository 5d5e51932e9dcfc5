//! Uniform random draws.  Two trusted wrappers over the `rand` crate
//! hand out raw uniform integers; every probabilistic gate of the
//! algorithm is built on top of them in verified code.

use vstd::prelude::*;
use rand::RngExt;
use crate::arith::PROB_ONE;

verus! {

/// Relies on `rand::rng` and `RngExt::random_range`: a uniform draw from
/// `0..n`.  `random_range` panics on an empty range, so `n` must be
/// positive.
#[verifier::external_body]
pub(crate) fn random_below(n: usize) -> (r: usize)
    requires
        n > 0,
    ensures
        r < n,
{
    rand::rng().random_range(0..n)
}

/// Relies on `rand::rng` and `RngExt::random_range`: a uniform draw from
/// `0..2^53`, the denominator of the probability encoding.
#[verifier::external_body]
pub(crate) fn random_unit() -> (r: u64)
    ensures
        r < PROB_ONE,
{
    rand::rng().random_range(0..PROB_ONE)
}

/// A Bernoulli gate: fires with probability `threshold / 2^53`.
pub(crate) fn bernoulli(threshold: u64) -> bool {
    let u = random_unit();
    u < threshold
}

/// A uniform draw from `lo..hi`.
pub(crate) fn random_in(lo: usize, hi: usize) -> (r: usize)
    requires
        lo < hi,
    ensures
        lo <= r < hi,
{
    let d = random_below(hi - lo);
    lo + d
}

} // verus!
