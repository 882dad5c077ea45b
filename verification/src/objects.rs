//! A small stand-alone model of the table: cards, an empty deck, players and
//! a game that only seats players.

pub mod card;
pub mod deck;
pub mod game;
pub mod player;
