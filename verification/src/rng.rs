//! The pseudo-random source: the xoshiro256+ generator of the `rand_xoshiro`
//! crate, reached through a single trusted wrapper. Nothing is assumed about
//! the values it yields; every caller states what holds of any outcome.
use rand_core::Rng;
use vstd::prelude::*;

verus! {

#[verifier::external_type_specification]
#[verifier::external_body]
pub struct ExXoshiro256Plus(rand_xoshiro::Xoshiro256Plus);

/// Relies on `rand_xoshiro::Xoshiro256Plus::next_u64` (via `rand_core::Rng`):
/// advances the generator and returns its next 64-bit draw. The generator's
/// error type is uninhabited, so the call cannot fail or panic. Nothing is
/// assumed of the returned value.
#[verifier::external_body]
pub(crate) fn rng_next_u64(rng: &mut rand_xoshiro::Xoshiro256Plus) -> (r: u64) {
    rng.next_u64()
}

} // verus!
