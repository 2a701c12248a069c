//! Randomness drawn from the `rand` crate's thread-local generator.
use vstd::prelude::*;
use rand::Rng;
use rand::seq::SliceRandom;
use crate::cards::Card;

verus! {

/// `rand::Rng::gen_range` over the inclusive range `low..=high`, drawn from
/// `rand::thread_rng()`. The crate documents that the result lies in the range
/// and that an empty range panics, so the range must not be empty. Which number
/// comes out is left open.
#[verifier::external_body]
pub(crate) fn random_in_range(low: u16, high: u16) -> (r: u16)
    requires
        low <= high,
    ensures
        low <= r <= high,
{
    rand::thread_rng().gen_range(low..=high)
}

/// Shuffles the cards with `rand::seq::SliceRandom::shuffle` and
/// `rand::thread_rng()`. The crate's shuffle only swaps elements of the slice, so
/// afterwards the deck holds as many cards, the same ones, each as often as
/// before; their new order is left open.
#[verifier::external_body]
pub fn shuffle_cards(cards: &mut Vec<Card>)
    ensures
        final(cards)@.len() == old(cards)@.len(),
        final(cards)@.to_multiset() == old(cards)@.to_multiset(),
{
    cards.shuffle(&mut rand::thread_rng());
}

} // verus!
