//! The order-randomization pass over the merged input and output sequences.
//! The permutation is drawn by an outside crate; all that is relied on is
//! that the elements are exactly preserved.

use vstd::prelude::*;

use rand::seq::SliceRandom;

verus! {

/// Relies on rand's `SliceRandom::shuffle`: an in-place permutation picked
/// uniformly from all permutations, freshly drawn from the process random
/// generator on every call; the slice keeps exactly its elements.
#[verifier::external_body]
pub(crate) fn shuffle_vec<T>(v: &mut Vec<T>)
    ensures
        final(v)@.to_multiset() == old(v)@.to_multiset(),
        final(v)@.len() == old(v)@.len(),
{
    v.as_mut_slice().shuffle(&mut rand::rng());
}

} // verus!
