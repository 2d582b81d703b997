//! The random draws that placing a new tile takes, made by the `rand` crate.
//! Nothing here is proved: each contract states what the crate's source
//! shows of the call, and the callers are verified for every outcome.

use rand::seq::IndexedRandom;
use rand::Rng;
use vstd::prelude::*;

verus! {

/// `rand::rngs::ThreadRng`, the handle to the thread's generator. Its
/// contents are opaque here.
#[verifier::external_type_specification]
#[verifier::external_body]
pub struct ExThreadRng(rand::rngs::ThreadRng);

/// `rand::rng` hands out a handle to the generator of the current thread.
/// Nothing is claimed of the handle. The call takes no argument; it fails
/// only where the system cannot seed the generator.
pub assume_specification[ rand::rng ]() -> (handle: rand::rngs::ThreadRng);

/// `IndexedRandom::choose` on the slice of `cells`: `None` when the slice
/// is empty, else one of its elements, which one being up to the generator.
#[verifier::external_body]
pub(crate) fn choose_cell(cells: &Vec<(usize, usize)>, rng: &mut rand::rngs::ThreadRng) -> (pick:
    Option<(usize, usize)>)
    ensures
        cells@.len() == 0 ==> pick.is_none(),
        cells@.len() > 0 ==> pick.is_some() && cells@.contains(pick.unwrap()),
{
    cells.as_slice().choose(rng).copied()
}

/// `Rng::random_ratio`: a draw that is `true` with probability
/// `numerator / denominator`. The call panics when the denominator is 0 or
/// less than the numerator, so those are left out. Nothing is claimed of
/// the outcome.
#[verifier::external_body]
pub(crate) fn draw_ratio(rng: &mut rand::rngs::ThreadRng, numerator: u32, denominator: u32) -> (hit:
    bool)
    requires
        denominator > 0,
        numerator <= denominator,
{
    rng.random_ratio(numerator, denominator)
}

} // verus!
