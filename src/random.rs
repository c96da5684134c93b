//! The random source used to seed a board.
use vstd::prelude::*;

verus! {

/// rand's handle to the thread-local generator, carried through opaquely.
#[verifier::external_type_specification]
#[verifier::external_body]
pub struct ExThreadRng(rand::rngs::ThreadRng);

/// Relies on rand::thread_rng: a handle to the thread-local generator;
/// nothing is promised of it.
pub assume_specification[ rand::thread_rng ]() -> rand::rngs::ThreadRng;

/// Relies on rand::Rng::gen_range, which draws from `[low, high)`: here 0 or 1.
#[verifier::external_body]
pub(crate) fn random_cell(rng: &mut rand::rngs::ThreadRng) -> (r: u8)
    ensures
        r < 2,
{
    rand::Rng::gen_range(rng, 0u8, 2u8)
}

} // verus!
