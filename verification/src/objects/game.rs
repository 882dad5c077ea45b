use vstd::prelude::*;
use super::deck::Deck;
use super::player::Player;

verus! {

/// A table of the simple model: players and a deck.
#[derive(Debug)]
pub struct Game {
    pub players: Vec<Player>,
    pub deck: Deck,
}

impl Game {
    /// A table without players and with an empty deck.
    pub fn new() -> (g: Self)
        ensures
            g.players@ == Seq::<Player>::empty(),
            g.deck.cards@.len() == 0,
    {
        Self { players: Vec::new(), deck: Deck::new() }
    }

    /// Seats a player after the others.
    pub fn add_player(&mut self, player: Player)
        ensures
            final(self).players@ == old(self).players@.push(player),
            final(self).deck == old(self).deck,
    {
        self.players.push(player);
    }
}

} // verus!
