//! The autotuner's random source: a seedable generator of the rand
//! crate, behind a trusted wrapper. The same seed reproduces the same
//! draws, which the determinism tests rely on; the wrapper's contract
//! states only what holds of every outcome.

use vstd::prelude::*;

verus! {

#[verifier::external_type_specification]
#[verifier::external_body]
pub struct ExStdRng(rand::rngs::StdRng);

/// Relies on rand::Rng::gen_range over the range 0..n: it returns a value
/// of that range and panics only when the range is empty, which `n >= 1`
/// excludes. The draw depends on the generator's state, so nothing more
/// than membership is assumed.
#[verifier::external_body]
pub(crate) fn rand_below(rng: &mut rand::rngs::StdRng, n: u64) -> (r: u64)
    requires
        n >= 1,
    ensures
        r < n,
{
    rand::Rng::gen_range(rng, 0..n)
}

} // verus!
