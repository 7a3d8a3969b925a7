//! Chance, drawn from the `rand` crate's thread-local generator.

use rand::seq::IndexedRandom;
use vstd::prelude::*;

verus! {

/// Calls `rand::random_range(low..=high)`, which draws an integer uniformly from
/// `low` to `high`, both included, and panics only on an empty range. The
/// contract claims only that the result lies in the range: which value comes
/// out is left to chance.
#[verifier::external_body]
pub(crate) fn random_range_inclusive(low: i32, high: i32) -> (r: i32)
    requires
        low <= high,
    ensures
        low <= r <= high,
{
    rand::random_range(low..=high)
}

/// Calls `IndexedRandom::choose` on `items` with `rand::rng()`, and copies the
/// chosen item out. The crate's source returns `None` exactly for an empty
/// slice and otherwise a reference to one of its items; the contract claims
/// that, and leaves open which item is chosen.
#[verifier::external_body]
pub(crate) fn choose_one<T: Copy>(items: &[T]) -> (r: Option<T>)
    ensures
        r is None <==> items@.len() == 0,
        r matches Some(x) ==> items@.contains(x),
{
    items.choose(&mut rand::rng()).copied()
}

} // verus!
