//! The random source, and the one draw the library makes from it.

use ndarray_rand::rand::rngs::StdRng;
use ndarray_rand::rand::seq::SliceRandom;
use vstd::prelude::*;

verus! {

#[verifier::external_type_specification]
#[verifier::external_body]
pub struct ExStdRng(StdRng);

/// Draws `amount` of `candidates` at random through `SliceRandom::choose_multiple`
/// of the `rand` crate, which samples distinct positions of the slice, as many
/// as `amount` or the whole slice if that is shorter. Believed, not proved:
/// the length of the draw, that each drawn value is one of the candidates, and
/// that candidates which differ pairwise give a draw that differs pairwise.
/// Which ones are drawn, and in what order, is left open. On a slice too long
/// for 32 bits the crate draws by rejection, which takes less than the whole
/// slice only: such a draw of all is left out.
#[verifier::external_body]
pub(crate) fn choose_multiple(candidates: &Vec<usize>, rng: &mut StdRng, amount: usize) -> (chosen:
    Vec<usize>)
    requires
        amount < candidates@.len() || candidates@.len() <= u32::MAX,
    ensures
        chosen@.len() == if amount <= candidates@.len() {
            amount as int
        } else {
            candidates@.len() as int
        },
        forall|k: int| 0 <= k < chosen@.len() ==> candidates@.contains(#[trigger] chosen@[k]),
        candidates@.no_duplicates() ==> chosen@.no_duplicates(),
{
    candidates.choose_multiple(rng, amount).cloned().collect()
}

} // verus!
