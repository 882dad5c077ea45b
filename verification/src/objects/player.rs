use vstd::prelude::*;
use super::card::Card;

verus! {

/// The actions of a turn.
pub enum Action {
    Income,
    ForeignAid,
    Coup,
    Tax,
    Assassinate,
    Exchange,
    Steal,
}

/// The answers to another player's action.
pub enum CounterAction {
    CallBluff,
    BlockForeignAid,
    BlockAssassinate,
    BlockSteal,
}

/// A player of the simple model.
#[derive(Debug)]
pub struct Player {
    pub name: String,
    pub takes_turn: bool,
    pub is_alive: bool,
    pub cards: Vec<Card>,
    pub coins: u8,
}

impl Player {
    /// A living player without cards, with two coins, not on turn.
    pub fn new(name: &str) -> (p: Self)
        ensures
            p.name@ == name@,
            !p.takes_turn,
            p.is_alive,
            p.cards@ == Seq::<Card>::empty(),
            p.coins == 2,
    {
        Self { name: name.to_owned(), takes_turn: false, is_alive: true, cards: Vec::new(), coins: 2 }
    }
}

} // verus!
