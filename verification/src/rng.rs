use vstd::prelude::*;

verus! {

/// Sum of a sequence of weights.
pub open spec fn sum_u64(s: Seq<u64>) -> int
    decreases s.len(),
{
    if s.len() == 0 {
        0
    } else {
        sum_u64(s.drop_last()) + s.last()
    }
}

/// An explicit, seedable source of randomness. Every generation and
/// seeding operation draws from a value of this type, so tests can pin
/// the stream; the contracts state only what holds of every outcome.
pub struct Randomness {
    inner: rand::rngs::StdRng,
}

#[verifier::external_type_specification]
#[verifier::external_body]
pub struct ExStdRng(rand::rngs::StdRng);

impl Randomness {
    /// Relies on rand::SeedableRng::seed_from_u64: builds a generator
    /// from the given seed.
    #[verifier::external_body]
    pub fn from_seed(seed: u64) -> (r: Randomness)
    {
        Randomness { inner: rand::SeedableRng::seed_from_u64(seed) }
    }

    /// Relies on rand::SeedableRng::from_entropy: builds a generator
    /// seeded from the operating system. It panics only if the
    /// system's entropy source fails — an environmental fault, not an
    /// input; no verified function calls this.
    #[verifier::external_body]
    pub fn from_entropy() -> (r: Randomness)
    {
        Randomness { inner: rand::SeedableRng::from_entropy() }
    }

    /// Relies on rand::Rng::gen_range over `0..bound`: the draw lies
    /// below the bound; the range is nonempty, so the call cannot panic.
    #[verifier::external_body]
    pub fn below(&mut self, bound: u64) -> (r: u64)
        requires
            bound >= 1,
        ensures
            r < bound,
    {
        rand::Rng::gen_range(&mut self.inner, 0..bound)
    }

    /// Relies on rand::Rng::gen_range over `0..bound` at usize: the draw
    /// lies below the bound; the range is nonempty, so the call cannot
    /// panic.
    #[verifier::external_body]
    pub fn index_below(&mut self, bound: usize) -> (r: usize)
        requires
            bound >= 1,
        ensures
            r < bound,
    {
        rand::Rng::gen_range(&mut self.inner, 0..bound)
    }

    /// Uniform draw from an inclusive range, derived from `below`.
    pub fn between(&mut self, lo: u64, hi: u64) -> (r: u64)
        requires
            lo <= hi,
            hi < u64::MAX,
        ensures
            lo <= r <= hi,
    {
        lo + self.below(hi - lo + 1)
    }

    /// One biased coin flip: true with probability `permille / 1000`.
    pub fn chance(&mut self, permille: u32) -> (r: bool)
    {
        let draw = self.below(1000);
        draw < permille as u64
    }

    /// Relies on rand::seq::SliceRandom::shuffle: permutes the elements
    /// in place, so the multiset of elements is kept.
    #[verifier::external_body]
    pub fn shuffle(&mut self, v: &mut Vec<usize>)
        ensures
            final(v)@.to_multiset() == old(v)@.to_multiset(),
            final(v)@.len() == old(v)@.len(),
    {
        rand::seq::SliceRandom::shuffle(v.as_mut_slice(), &mut self.inner)
    }

    /// Relies on rand::distributions::WeightedIndex::new and
    /// Distribution::sample: with at least one weight, every weight
    /// positive and the total in range, construction succeeds and the
    /// sample is the index of some weight.
    #[verifier::external_body]
    pub fn weighted_pick(&mut self, weights: &Vec<u64>) -> (r: usize)
        requires
            weights@.len() >= 1,
            forall|i: int| 0 <= i < weights@.len() ==> weights@[i] >= 1,
            sum_u64(weights@) <= u64::MAX,
        ensures
            r < weights@.len(),
    {
        let distribution = rand::distributions::WeightedIndex::new(weights.iter()).unwrap();
        rand::distributions::Distribution::sample(&distribution, &mut self.inner)
    }
}

} // verus!
