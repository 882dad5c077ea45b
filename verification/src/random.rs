use vstd::prelude::*;
use rand::Rng;
use rand::seq::SliceRandom;
use crate::card::Card;

verus! {

/// `rand::Rng::gen_range` on the thread-local generator, over `0..bound`.
/// The rand documentation promises a value inside the range and a panic on an
/// empty range; which value comes out is left to chance, so nothing more is
/// claimed.
#[verifier::external_body]
pub(crate) fn random_below(bound: usize) -> (r: usize)
    requires
        bound > 0,
    ensures
        r < bound,
{
    rand::thread_rng().gen_range(0..bound)
}

/// `rand::seq::SliceRandom::shuffle` on the thread-local generator. Its source
/// only swaps elements of the slice, so the cards that come out are those
/// that went in, in an order left to chance.
#[verifier::external_body]
pub(crate) fn shuffle_cards(cards: &mut Vec<Card>)
    ensures
        final(cards)@.len() == old(cards)@.len(),
        final(cards)@.to_multiset() == old(cards)@.to_multiset(),
{
    cards.shuffle(&mut rand::thread_rng());
}

/// `uuid::Uuid::new_v4`, read as its 128-bit value. The value is random: no
/// property of it is claimed.
#[verifier::external_body]
pub(crate) fn fresh_uuid() -> (r: u128) {
    uuid::Uuid::new_v4().as_u128()
}

} // verus!
