//! The crate's only source of randomness: a seedable generator handle
//! from the `rand` crate, passed explicitly so that callers control
//! reproducibility. Verified code sees each draw only through the
//! contracts below; everything computed from a draw is verified for
//! every value the contract admits.

use vstd::prelude::*;

verus! {

/// The standard generator of the `rand` crate, declared so that it can
/// be carried through verified signatures. Its contents are opaque.
#[verifier::external_type_specification]
#[verifier::external_body]
pub struct ExStdRng(rand::rngs::StdRng);

/// Relies on rand's `RngExt::random_range` over `0..n`: the draw lies
/// strictly below `n`. It panics only on an empty range, which the
/// precondition rules out. Nothing is assumed about the distribution.
#[verifier::external_body]
pub(crate) fn rng_below(rng: &mut rand::rngs::StdRng, n: u32) -> (r: u32)
    requires
        n >= 1,
    ensures
        r < n,
{
    rand::RngExt::random_range(rng, 0..n)
}

/// Relies on rand's `SliceRandom::shuffle`: it permutes the slice in
/// place, so the elements form the same multiset afterwards.
#[verifier::external_body]
pub(crate) fn shuffle_u32(v: &mut Vec<u32>, rng: &mut rand::rngs::StdRng)
    ensures
        final(v)@.to_multiset() == old(v)@.to_multiset(),
{
    rand::seq::SliceRandom::shuffle(v.as_mut_slice(), rng)
}

} // verus!
