//! Game logic of a Coup card-game server: cards, deck, players, the game
//! table, the turn phases, and the decisions the server takes on each request.

pub mod action_properties;
pub mod card;
pub mod deck;
mod random;
pub mod turn_phase;
pub mod player;
pub mod game;
pub mod turn_state_machine;
pub mod state;
pub mod actions;
pub mod server;
pub mod phases;
pub mod handlers;
pub mod session;
pub mod objects;
pub mod laws;
pub mod turn_laws;
