//! The random source, and the two things the library asks of it.

use vstd::prelude::*;
use rand::rngs::ThreadRng;
use rand::seq::SliceRandom;
use rand::Rng;

verus! {

/// `rand::rngs::ThreadRng`, the generator that the library draws from. Nothing
/// is known of its state.
#[verifier::external_type_specification]
#[verifier::external_body]
pub struct ExThreadRng(rand::rngs::ThreadRng);

/// Calls `rand::seq::SliceRandom::shuffle` on `cells`.
///
/// Trusted: `shuffle` only swaps elements of the slice, so afterwards the list
/// holds the same cells, each as often as before. Nothing is claimed of their
/// order.
#[verifier::external_body]
pub(crate) fn shuffle_cells(cells: &mut Vec<(usize, usize)>, rng: &mut ThreadRng)
    ensures
        final(cells)@.to_multiset() == old(cells)@.to_multiset(),
{
    cells.shuffle(rng);
}

/// Calls `rand::Rng::gen_range` with the range `0..bound`.
///
/// Trusted: the number drawn lies in the range. `gen_range` panics on an
/// empty range, so `bound` must not be 0.
#[verifier::external_body]
pub(crate) fn random_below(rng: &mut ThreadRng, bound: usize) -> (r: usize)
    requires
        bound > 0,
    ensures
        r < bound,
{
    rng.gen_range(0..bound)
}

} // verus!
