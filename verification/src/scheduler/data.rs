//! Where the random values of an execution come from.

use rand_core::{RngCore, SeedableRng};
use rand_pcg::Mcg128Xsl64;
use vstd::prelude::*;

verus! {

/// The generator `rand_pcg::Mcg128Xsl64` (also called `Pcg64Mcg`), carried as an opaque value.
#[verifier::external_type_specification]
#[verifier::external_body]
pub struct ExMcg128Xsl64(rand_pcg::Mcg128Xsl64);

/// The value that the draw number `n` (from 0) of a generator seeded with `seed` gives.
pub uninterp spec fn pcg_seeded_draw(seed: u64, n: nat) -> u64;

/// The value that the draw number `n` (from 0) counted from now on gives: what `rng` still holds.
pub uninterp spec fn pcg_draw(rng: Mcg128Xsl64, n: nat) -> u64;

/// Calls `<Mcg128Xsl64 as SeedableRng>::seed_from_u64`. Believed of it: the draws of the new
/// generator depend on the seed alone.
#[verifier::external_body]
fn pcg_seed_from_u64(seed: u64) -> (rng: Mcg128Xsl64)
    ensures
        forall|n: nat| #[trigger] pcg_draw(rng, n) == pcg_seeded_draw(seed, n),
{
    Mcg128Xsl64::seed_from_u64(seed)
}

/// Calls `<Mcg128Xsl64 as RngCore>::next_u64`. Believed of it: it hands out the next draw, and
/// the generator then holds the draws after that one.
#[verifier::external_body]
fn pcg_next_u64(rng: &mut Mcg128Xsl64) -> (value: u64)
    ensures
        value == pcg_draw(*old(rng), 0),
        forall|n: nat| #[trigger] pcg_draw(*final(rng), n) == pcg_draw(*old(rng), n + 1),
{
    rng.next_u64()
}

/// A source of random values that gives the same stream in every execution.
#[derive(Debug)]
pub struct FixedDataSource {
    seed: u64,
    rng: Mcg128Xsl64,
}

impl FixedDataSource {
    /// The seed of the stream.
    pub closed spec fn stream_seed(&self) -> u64 {
        self.seed
    }

    /// The values still to come, in order.
    pub closed spec fn upcoming(&self) -> spec_fn(nat) -> u64 {
        |n: nat| pcg_draw(self.rng, n)
    }

    /// A source at the start of the stream of `seed`.
    pub fn initialize(seed: u64) -> (source: Self)
        ensures
            source.stream_seed() == seed,
            source.upcoming() == (|n: nat| pcg_seeded_draw(seed, n)),
    {
        let source = FixedDataSource { seed, rng: pcg_seed_from_u64(seed) };
        assert(source.upcoming() =~= (|n: nat| pcg_seeded_draw(seed, n)));
        source
    }

    /// Goes back to the start of the stream, and returns the seed.
    pub fn reinitialize(&mut self) -> (seed: u64)
        ensures
            seed == old(self).stream_seed(),
            final(self).stream_seed() == seed,
            final(self).upcoming() == (|n: nat| pcg_seeded_draw(seed, n)),
    {
        self.rng = pcg_seed_from_u64(self.seed);
        assert(self.upcoming() =~= (|n: nat| pcg_seeded_draw(self.seed, n)));
        self.seed
    }

    /// The next value of the stream.
    pub fn next_u64(&mut self) -> (value: u64)
        ensures
            value == (old(self).upcoming())(0),
            final(self).stream_seed() == old(self).stream_seed(),
            final(self).upcoming() == (|n: nat| (old(self).upcoming())(n + 1)),
    {
        let value = pcg_next_u64(&mut self.rng);
        assert(self.upcoming() =~= (|n: nat| (old(self).upcoming())(n + 1)));
        value
    }
}

} // verus!
