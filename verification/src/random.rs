use rand::rngs::StdRng;
use rand::seq::SliceRandom;
use rand::{Rng, SeedableRng};
use vstd::prelude::*;

verus! {

/// The seedable random number generator of `rand`, carried through the generation logic as an opaque value.
#[verifier::external_type_specification]
#[verifier::external_body]
pub struct ExStdRng(StdRng);

/// Calls `rand::SeedableRng::seed_from_u64` for `StdRng`. Nothing is claimed of the generator it returns.
#[verifier::external_body]
pub fn seeded_rng(seed: u64) -> StdRng {
    StdRng::seed_from_u64(seed)
}

/// Calls `rand::Rng::random_range` with the range `0..len` of `usize`. The claim is that the result lies in that
/// range, which `rand` documents and its `UniformInt` sampler guarantees; the range must not be empty, since `rand`
/// panics on an empty range.
#[verifier::external_body]
pub fn random_index(rng: &mut StdRng, len: usize) -> (index: usize)
    requires
        len > 0,
    ensures
        index < len,
{
    rng.random_range(0..len)
}

/// Calls `rand::Rng::random_range` with the range `0..bound` of `i32`. The claim is that the result lies in that
/// range; the range must not be empty, since `rand` panics on an empty range.
#[verifier::external_body]
pub fn random_below(rng: &mut StdRng, bound: i32) -> (value: i32)
    requires
        bound > 0,
    ensures
        0 <= value < bound,
{
    rng.random_range(0..bound)
}

/// Calls `rand::Rng::random_ratio(1, 2)`, a fair coin flip that draws from the generator exactly as
/// `random_bool(0.5)` does. Nothing is claimed of the outcome.
#[verifier::external_body]
pub fn coin_flip(rng: &mut StdRng) -> bool {
    rng.random_ratio(1, 2)
}

/// Calls `rand::seq::SliceRandom::shuffle` on the elements of `items`. The claim is that the result is a permutation
/// of the input: `shuffle` only swaps elements.
#[verifier::external_body]
pub fn shuffle<T>(rng: &mut StdRng, items: &mut Vec<T>)
    ensures
        final(items)@.to_multiset() == old(items)@.to_multiset(),
        final(items)@.len() == old(items)@.len(),
{
    items.shuffle(rng);
}

} // verus!

verus! {

/// What a shuffled list holds, the list held before.
pub proof fn lemma_permutation_contains<T>(a: Seq<T>, b: Seq<T>)
    requires
        a.to_multiset() == b.to_multiset(),
    ensures
        forall|x: T| a.contains(x) ==> b.contains(x),
{
    a.to_multiset_ensures();
    b.to_multiset_ensures();
    assert forall|x: T| a.contains(x) implies b.contains(x) by {
        assert(a.to_multiset().count(x) > 0);
        assert(b.to_multiset().count(x) > 0);
    }
}

} // verus!
