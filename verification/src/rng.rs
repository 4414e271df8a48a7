//! Random choices made through `rand`'s thread-local generator. What each
//! call returns depends on chance; the contracts state what holds of
//! every outcome.

use rand::seq::SliceRandom;
use vstd::prelude::*;

verus! {

/// Calls `rand::seq::SliceRandom::shuffle` with `rand::thread_rng()`.
/// The contract claims only that the result is a rearrangement of the
/// input: the same entries, each as often. Which order comes out is left
/// unsaid, as it rests on chance; `thread_rng` panics if the operating
/// system cannot seed it, which no contract here can rule out.
#[verifier::external_body]
pub(crate) fn shuffle_ids(ids: &mut Vec<String>)
    ensures
        final(ids)@.to_multiset() == old(ids)@.to_multiset(),
{
    ids.shuffle(&mut rand::thread_rng());
}

/// Calls `rand::seq::SliceRandom::choose_multiple` with
/// `rand::thread_rng()` and clones what it yields. The contract claims
/// that `min(amount, len)` entries come out, no entry of the input more
/// often than it occurs there (rand picks distinct positions). Which
/// entries, and in what order, is left unsaid: it rests on chance.
#[verifier::external_body]
pub(crate) fn choose_multiple_ids(ids: &Vec<String>, amount: usize) -> (r: Vec<String>)
    ensures
        r@.len() == (if amount < ids@.len() { amount as nat } else { ids@.len() }),
        r@.to_multiset().subset_of(ids@.to_multiset()),
{
    ids.choose_multiple(&mut rand::thread_rng(), amount).cloned().collect()
}

/// Calls `rand::seq::SliceRandom::choose` with `rand::thread_rng()` and
/// copies the entry it picks. The contract claims that an entry comes out
/// exactly when the input is not empty, and that it is one of the input's
/// entries; which one is left unsaid, as it rests on chance.
#[verifier::external_body]
pub(crate) fn choose_position(positions: &Vec<usize>) -> (r: Option<usize>)
    ensures
        r is Some <==> positions@.len() > 0,
        r matches Some(p) ==> positions@.contains(p),
{
    positions.choose(&mut rand::thread_rng()).copied()
}

} // verus!
