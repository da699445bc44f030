//! The pseudo-random generator that mine placement draws from. The generator
//! is the `rand` crate's `StdRng`, a deterministic generator: seeded with the
//! same number it gives the same numbers, in every run. Which numbers these
//! are is not stated here; they only get names, so that contracts can say
//! that a layout of mines is what the generator's numbers make it.

use vstd::prelude::*;
use rand::rngs::StdRng;
use rand::Rng;
use rand::SeedableRng;

verus! {

/// Makes `rand::rngs::StdRng` known as a type whose values cannot be looked
/// into.
#[verifier::external_type_specification]
#[verifier::external_body]
pub struct ExStdRng(rand::rngs::StdRng);

/// The state that a generator is in, as a number: all that its further
/// numbers depend on.
pub uninterp spec fn generator_state(rng: StdRng) -> int;

/// The state of a generator that `StdRng::seed_from_u64` has just made from
/// `seed`.
pub uninterp spec fn seeded_state(seed: u64) -> int;

/// What `Rng::gen_range` gives for the range from zero up to, not including,
/// `bound`, on a generator in the state `state`: the number drawn, and the
/// state of the generator afterwards.
pub uninterp spec fn draw(state: int, bound: u8) -> (u8, int);

/// Calls `StdRng::seed_from_u64`. The generator it returns depends on the
/// seed alone; its state is given the name `seeded_state`.
#[verifier::external_body]
pub(crate) fn seeded_generator(seed: u64) -> (rng: StdRng)
    ensures
        generator_state(rng) == seeded_state(seed),
{
    StdRng::seed_from_u64(seed)
}

/// Calls `Rng::gen_range` on the range from zero up to, not including,
/// `bound`. The call panics on an empty range, so `bound` must not be zero.
/// The number it returns lies in the range. It and the state of the generator
/// afterwards depend on the generator's state and the bound alone, and are
/// given the name `draw`.
#[verifier::external_body]
pub(crate) fn draw_below(rng: &mut StdRng, bound: u8) -> (r: u8)
    requires
        bound > 0,
    ensures
        r < bound,
        r == draw(generator_state(*old(rng)), bound).0,
        generator_state(*final(rng)) == draw(generator_state(*old(rng)), bound).1,
{
    rng.gen_range(0..bound)
}

/// Calls `rand::thread_rng` and, on the generator it returns, `Rng::gen`
/// for `u64`. The number differs from call to call; nothing is claimed of it.
#[verifier::external_body]
pub(crate) fn random_seed() -> u64 {
    rand::thread_rng().gen()
}

} // verus!
