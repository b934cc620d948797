//! The calls into the random-number and identifier crates.

use rand::seq::SliceRandom;
use rand::Rng;
use vstd::prelude::*;

verus! {

/// Relies on `rand::thread_rng` and `Rng::gen_range`, which panics only on an empty
/// range and otherwise returns a value inside it.
#[verifier::external_body]
pub(crate) fn random_below(bound: usize) -> (r: usize)
    requires
        bound > 0,
    ensures
        r < bound,
{
    rand::thread_rng().gen_range(0..bound)
}

/// Relies on `SliceRandom::choose` (with `rand::thread_rng`): `None` for an empty slice,
/// otherwise one of its elements.
#[verifier::external_body]
pub(crate) fn choose_from<T: Copy>(items: &[T]) -> (r: Option<T>)
    ensures
        items@.len() == 0 <==> r is None,
        r matches Some(x) ==> items@.contains(x),
{
    items.choose(&mut rand::thread_rng()).copied()
}

/// Relies on `uuid::Uuid::new_v4` and `Uuid::as_u128`: a fresh random identifier,
/// as its 128-bit value.
#[verifier::external_body]
pub(crate) fn new_identifier() -> (r: u128) {
    uuid::Uuid::new_v4().as_u128()
}

} // verus!
