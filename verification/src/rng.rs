//! Randomness for initialization, refinement jitter and candidate
//! sampling, drawn from the `rand` crate behind trusted wrappers.
//! Nothing is assumed of the values beyond their range; every
//! function that consumes them holds for any outcome.

use vstd::prelude::*;

verus! {

#[verifier::external_type_specification]
#[verifier::external_body]
pub struct ExStdRng(rand::rngs::StdRng);

/// Relies on rand's `Rng::random_range`: a uniform draw from
/// `0..n`, which is in range for every outcome and panics only on an
/// empty range.
#[verifier::external_body]
pub(crate) fn rand_below(rng: &mut rand::rngs::StdRng, n: u64) -> (r: u64)
    requires
        n > 0,
    ensures
        r < n,
{
    rand::Rng::random_range(rng, 0..n)
}

/// A fixed-point draw uniform in `[lo, hi]`, built on the trusted
/// range draw.
pub fn rand_fx_between(rng: &mut rand::rngs::StdRng, lo: i64, hi: i64) -> (r: i64)
    requires
        lo <= hi,
        -0x4000_0000_0000 <= lo,
        hi <= 0x4000_0000_0000,
    ensures
        lo <= r <= hi,
{
    let span = (hi - lo) as u64 + 1;
    let d = rand_below(rng, span);
    lo + d as i64
}

} // verus!
