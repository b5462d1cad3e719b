//! The calls into the `rand` crate. Nothing here is proved: each contract
//! states what `rand` documents of the call.

use vstd::prelude::*;
use rand::rngs::ThreadRng;
use rand::seq::SliceRandom;
use rand::Rng;
use crate::card::Card;

verus! {

/// `rand::rngs::ThreadRng`, the handle to the thread-local generator. Its
/// state is not modelled.
#[verifier::external_type_specification]
#[verifier::external_body]
pub struct ExThreadRng(ThreadRng);

/// `rand::thread_rng`: hands out the thread-local generator, which the
/// system seeds on first use. Nothing is claimed of it.
pub assume_specification[ rand::thread_rng ]() -> (rng: ThreadRng)
;

/// `Clone::clone` of a `ThreadRng`: another handle to the same generator.
/// Nothing is claimed of it.
#[verifier::external_body]
pub(crate) fn share_rng(rng: &ThreadRng) -> (shared: ThreadRng) {
    rng.clone()
}

/// `SliceRandom::shuffle` on the cards: it only swaps elements of the
/// slice, so the same cards are there afterwards, each as often as before.
/// Nothing is claimed of their order.
#[verifier::external_body]
pub(crate) fn shuffle_cards(cards: &mut Vec<Card>, rng: &mut ThreadRng)
    ensures
        final(cards)@.to_multiset() == old(cards)@.to_multiset(),
{
    cards.shuffle(rng);
}

/// `Rng::gen_ratio(1, 2)`: a fair coin. Nothing is claimed of the outcome.
#[verifier::external_body]
pub(crate) fn flip_coin(rng: &mut ThreadRng) -> (heads: bool) {
    rng.gen_ratio(1, 2)
}

} // verus!
