use vstd::prelude::*;

use rand::seq::SliceRandom;
use rand::Rng;

use crate::number::Number;

verus! {

/// A number drawn uniformly at random from `0..n`, by
/// `rand::Rng::gen_range` on the thread-local generator. The contract
/// claims only that the draw lies in the range; `gen_range` panics on an
/// empty range, which `n > 0` rules out.
#[verifier::external_body]
pub(crate) fn random_below(n: usize) -> (r: usize)
    requires
        n > 0,
    ensures
        r < n,
{
    rand::thread_rng().gen_range(0..n)
}


/// Puts the tiles in a random order, by `rand::seq::SliceRandom::shuffle`
/// on the thread-local generator. The contract claims only that the result
/// is a rearrangement of the same tiles.
#[verifier::external_body]
pub(crate) fn shuffle_tiles(v: &mut Vec<Number>)
    ensures
        final(v)@.len() == old(v)@.len(),
        final(v)@.to_multiset() == old(v)@.to_multiset(),
{
    v.shuffle(&mut rand::thread_rng())
}
} // verus!
