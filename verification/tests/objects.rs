use coup::objects::card::{Card, Role};
use coup::objects::deck::Deck;
use coup::objects::game::Game;
use coup::objects::player::Player;

#[test]
fn simple_model() {
    let c = Card::new(Role::Duke);
    assert_eq!(c, Card { role: Role::Duke, visible: false });
    assert!(Deck::new().cards.is_empty());
    let mut g = Game::new();
    g.add_player(Player::new("ann"));
    assert_eq!(g.players.len(), 1);
    assert_eq!(g.players[0].coins, 2);
    assert!(!g.players[0].takes_turn);
    assert!(g.players[0].is_alive);
}
