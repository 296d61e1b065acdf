//! Random choices, drawn from the generator of the current thread.

use rand::rngs::ThreadRng;
use rand::Rng;
use vstd::prelude::*;

verus! {

/// `rand::rngs::ThreadRng`, a handle to the random number generator of the
/// current thread. Nothing is known of what it holds.
#[verifier::external_type_specification]
#[verifier::external_body]
pub struct ExThreadRng(ThreadRng);

/// Calls `rand::rng`, which hands out the generator of the current thread.
/// Nothing is claimed of it.
#[verifier::external_body]
pub(crate) fn thread_rng() -> ThreadRng {
    rand::rng()
}

/// Calls `Rng::random_range` on the range from zero up to, and without,
/// `bound`. The call panics on an empty range, so `bound` must not be zero.
/// Nothing is proved of this function: that the number drawn lies in the
/// range is taken from the documentation of `random_range`. Which number it
/// is, nothing says.
#[verifier::external_body]
pub(crate) fn random_below(rng: &mut ThreadRng, bound: usize) -> (r: usize)
    requires
        bound > 0,
    ensures
        r < bound,
{
    rng.random_range(0..bound)
}

/// Whether each of `indices` is a position in a list of `len` items.
pub open spec fn all_below(indices: Seq<usize>, len: nat) -> bool {
    forall|k: int| 0 <= k < indices.len() ==> (#[trigger] indices[k]) < len
}

/// `count` random numbers, each below `bound`.
pub fn random_indices(count: usize, bound: usize) -> (r: Vec<usize>)
    requires
        bound > 0,
    ensures
        r.len() == count,
        all_below(r@, bound as nat),
{
    let mut rng = thread_rng();
    let mut indices: Vec<usize> = Vec::new();
    let mut i: usize = 0;
    while i < count
        invariant
            bound > 0,
            i <= count,
            indices.len() == i,
            all_below(indices@, bound as nat),
        decreases count - i,
    {
        let index: usize = random_below(&mut rng, bound);
        indices.push(index);
        i += 1;
    }
    indices
}

} // verus!
