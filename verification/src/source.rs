//! The random source: a ChaCha8 stream of the `rand_chacha` crate.
//!
//! Nothing in this file is proved. Each function hands one call to the outside
//! crate, and its contract records what that crate's source shows of the call.
//! The stream is a deterministic state machine: the state after seeding is a
//! function of the seed, and a draw is a function of the state and the bound.

use rand::Rng;
use rand_chacha::rand_core::SeedableRng;
use rand_chacha::ChaCha8Rng;
use vstd::prelude::*;

verus! {

/// `rand_chacha::ChaCha8Rng`, carried through as an opaque value.
#[verifier::external_type_specification]
#[verifier::external_body]
pub struct ExChaCha8Rng(ChaCha8Rng);

/// The state in which `ChaCha8Rng::seed_from_u64` leaves a fresh stream.
pub uninterp spec fn seeded_source(seed: u64) -> ChaCha8Rng;

/// The state in which `ChaCha8Rng::from_seed` leaves a fresh stream.
pub uninterp spec fn keyed_source(key: Seq<u8>) -> ChaCha8Rng;

/// What `gen_range(0..upper)` does on a stream in state `source`: the number
/// that it returns, and the state in which it leaves the stream.
pub uninterp spec fn sample_step(source: ChaCha8Rng, upper: u64) -> (u64, ChaCha8Rng);

/// Calls `SeedableRng::seed_from_u64` for `ChaCha8Rng`. The seed is expanded to
/// a key by a fixed integer recurrence, so the resulting state depends on the
/// seed alone.
#[verifier::external_body]
pub(crate) fn source_from_number(seed: u64) -> (source: ChaCha8Rng)
    ensures
        source == seeded_source(seed),
{
    ChaCha8Rng::seed_from_u64(seed)
}

/// Calls `SeedableRng::from_seed` for `ChaCha8Rng`. The 32 bytes become the key
/// of the stream, which starts at its first word.
#[verifier::external_body]
pub(crate) fn source_from_key(key: [u8; 32]) -> (source: ChaCha8Rng)
    ensures
        source == keyed_source(key@),
{
    ChaCha8Rng::from_seed(key)
}

/// Calls `Rng::gen_range` with the range `0..upper`. The call panics on an empty
/// range, which `upper > 0` excludes. The number returned lies in the range; it
/// and the state left behind depend on the state before and on `upper` alone.
#[verifier::external_body]
pub(crate) fn sample_below(source: &mut ChaCha8Rng, upper: u64) -> (value: u64)
    requires
        upper > 0,
    ensures
        value < upper,
        (value, *final(source)) == sample_step(*old(source), upper),
{
    source.gen_range(0..upper)
}

} // verus!
