use vstd::prelude::*;
use super::card::Card;

verus! {

/// A pile of cards.
#[derive(Debug)]
pub struct Deck {
    pub cards: Vec<Card>,
}

impl Deck {
    /// An empty pile.
    pub fn new() -> (d: Self)
        ensures
            d.cards@ == Seq::<Card>::empty(),
    {
        Self { cards: Vec::new() }
    }
}

} // verus!
