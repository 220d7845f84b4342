//! The random source. Everything here is believed, not proved: each function
//! hands its arguments to an outside crate and states what that crate's
//! source shows of the answer.

use rand::rngs::StdRng;
use rand::seq::SliceRandom;
use rand::Rng;
use rand::SeedableRng;
use vstd::prelude::*;

verus! {

/// `rand::rngs::StdRng`, a seedable pseudo-random generator. Nothing is known
/// of its state; a value is only carried to the functions below.
#[verifier::external_type_specification]
#[verifier::external_body]
pub struct ExStdRng(rand::rngs::StdRng);

/// Calls `SeedableRng::from_entropy` for `StdRng`, which seeds a generator
/// from the operating system. Nothing is claimed of the generator. The call
/// panics if the operating system cannot supply random bytes.
#[verifier::external_body]
pub(crate) fn entropy_rng() -> StdRng {
    StdRng::from_entropy()
}

/// Calls `SliceRandom::shuffle` of `rand` on the vector's slice. The source
/// walks the slice once and swaps pairs of elements, so the vector is claimed
/// to hold the same elements afterwards, each as often as before, in an order
/// of which nothing is said.
#[verifier::external_body]
pub(crate) fn shuffle<T>(items: &mut Vec<T>, rng: &mut StdRng)
    ensures
        final(items)@.to_multiset() == old(items)@.to_multiset(),
{
    items.shuffle(rng)
}

/// Calls `Rng::gen_range` of `rand` with two `u8` bounds. The source panics
/// unless `low < high`, and otherwise returns `low` plus an offset below
/// `high - low`: the claim is that the value lies in `low..high`.
#[verifier::external_body]
pub(crate) fn gen_range(rng: &mut StdRng, low: u8, high: u8) -> (value: u8)
    requires
        low < high,
    ensures
        low <= value < high,
{
    rng.gen_range(low, high)
}

/// Calls `Uuid::new_v4` of `uuid` and renders the identifier with its
/// `Display` impl. The identifier is random, so nothing is claimed of the
/// text. The call panics if the operating system cannot supply random bytes.
#[verifier::external_body]
pub(crate) fn fresh_uuid() -> String {
    uuid::Uuid::new_v4().to_string()
}

} // verus!
