use coup::action_properties::{display_action_name, get_action_properties};
use coup::card::{parse_role, role_name, Card, Role};
use coup::deck::Deck;
use coup::game::{Game, CODE_CHARS};
use coup::player::Player;

fn card(role: Role, visible: bool) -> Card {
    Card { role, visible }
}

fn player(uuid: u128, name: &str, cards: Vec<Card>, coins: u8) -> Player {
    let mut p = Player::new(&uuid, name);
    p.cards = cards;
    p.coins = coins;
    p
}

fn table(players: Vec<Player>) -> Game {
    let mut g = Game::new(&players[0].uuid, &players[0].name, 6);
    g.players = players;
    g.started = true;
    g
}

#[test]
fn card_names_read_back() {
    for role in [Role::Assassin, Role::Contessa, Role::Captain, Role::Duke, Role::Ambassador] {
        assert_eq!(parse_role(role_name(role)), Some(role));
        assert_eq!(Card::from_str(role_name(role)), Ok(Card::new(role)));
    }
    assert_eq!(parse_role("duke"), None);
    assert_eq!(Card::from_str("King"), Err("Invalid card role"));
}

#[test]
fn action_rules_table() {
    let steal = get_action_properties("steal").unwrap();
    assert_eq!(steal.claimed_role, Some(Role::Captain));
    assert_eq!(steal.blockable_by, vec![Role::Captain, Role::Ambassador]);
    assert!(steal.block_target_only);
    assert!(steal.requires_target);
    let coup = get_action_properties("coup").unwrap();
    assert_eq!(coup.cost, 7);
    assert_eq!(coup.claimed_role, None);
    let assassinate = get_action_properties("assassinate").unwrap();
    assert_eq!(assassinate.cost, 3);
    assert_eq!(assassinate.blockable_by, vec![Role::Contessa]);
    let foreign_aid = get_action_properties("foreign_aid").unwrap();
    assert_eq!(foreign_aid.blockable_by, vec![Role::Duke]);
    assert!(!foreign_aid.block_target_only);
    assert!(get_action_properties("exchange_confirm").is_none());
    assert!(get_action_properties("bribe").is_none());
    assert_eq!(display_action_name("foreign_aid"), "foreign aid");
    assert_eq!(display_action_name("exchange_draw"), "exchange");
    assert_eq!(display_action_name("tax"), "tax");
}

#[test]
fn losing_influence() {
    let mut p = player(1, "a", vec![card(Role::Duke, true), card(Role::Captain, true)], 2);
    assert_eq!(p.lose_influence(None), Err("Cannot lose influence"));

    let mut p = player(1, "a", vec![card(Role::Duke, true), card(Role::Captain, false)], 2);
    assert_eq!(p.lose_influence(Some("Duke")), Ok(true));
    assert!(p.cards[1].visible);
    assert!(!p.is_alive);

    let mut p = player(1, "a", vec![card(Role::Duke, false), card(Role::Captain, false)], 2);
    assert_eq!(p.lose_influence(None), Err("Must choose which card to lose"));
    assert_eq!(p.lose_influence(Some("Contessa")), Err("You don't have that card"));
    assert_eq!(p.lose_influence(Some("Captain")), Ok(true));
    assert_eq!(p.cards, vec![card(Role::Duke, false), card(Role::Captain, true)]);
    assert!(p.is_alive);

    let mut p = player(1, "a", vec![card(Role::Duke, false); 3], 2);
    assert_eq!(p.lose_influence(Some("Duke")), Err("Invalid number of cards"));
}

#[test]
fn exchange_draw_and_confirm() {
    let mut g = table(vec![
        player(1, "a", vec![card(Role::Duke, false), card(Role::Captain, true)], 2),
        player(2, "b", vec![], 2),
    ]);
    let mut p = g.players[0].clone();
    let offered = p.exchange_draw(&mut g).unwrap();
    // The hidden Duke, then the two top cards of the ordered deck.
    assert_eq!(offered, vec![Card::new(Role::Duke), Card::new(Role::Ambassador), Card::new(Role::Ambassador)]);
    assert_eq!(g.deck.cards.len(), 13);

    assert_eq!(p.exchange_confirm(&mut g, &[]), Err("Invalid number of cards selected"));
    assert_eq!(p.exchange_confirm(&mut g, &[Card::new(Role::Contessa)]), Err("Invalid card"));
    assert_eq!(p.exchange_confirm(&mut g, &[Card::new(Role::Ambassador)]), Ok(true));
    assert_eq!(p.cards, vec![Card::new(Role::Ambassador), card(Role::Captain, true)]);
    assert!(p.exchange_cards.is_empty());
    // The Duke and the second Ambassador go back: one Ambassador was kept.
    assert_eq!(g.deck.cards.len(), 15);
    assert_eq!(g.deck.cards[13], Card::new(Role::Duke));
    assert_eq!(g.deck.cards[14], Card::new(Role::Ambassador));
}

#[test]
fn lobby_rules() {
    let mut g = Game::new(&1, "alice", 2);
    assert_eq!(g.room_code.chars().count(), 4);
    assert!(g.room_code.chars().all(|c| CODE_CHARS.contains(c)));
    assert_eq!(g.coins, 50);
    assert_eq!(g.deck.cards, Deck::new().cards);
    assert_eq!(g.add_player(Player::new(&2, "alice")), Err("A player with that name is already in the lobby"));
    assert_eq!(g.add_player(Player::new(&2, "bob")), Ok(()));
    assert_eq!(g.add_player(Player::new(&3, "carol")), Err("Lobby is full"));
    assert_eq!(g.players.len(), 2);
}

#[test]
fn starting_a_game() {
    let mut g = Game::new(&1, "alice", 6);
    assert_eq!(g.start_game().err(), Some("Not enough players"));
    assert!(!g.started);
    for i in 2..=7u128 {
        let _ = g.add_player(Player::new(&i, &format!("p{i}")));
    }
    assert_eq!(g.players.len(), 6);
    let first = g.start_game().unwrap().uuid;
    assert!(g.started);
    assert_eq!(g.players[g.current_player].uuid, first);
    assert_eq!(g.deck.cards.len(), 3);
    assert!(g.players.iter().all(|p| p.cards.len() == 2 && p.cards.iter().all(|c| !c.visible)));
    let mut counts = [0usize; 5];
    for c in g.players.iter().flat_map(|p| p.cards.iter()).chain(g.deck.cards.iter()) {
        counts[c.role as usize] += 1;
    }
    assert_eq!(counts, [3, 3, 3, 3, 3]);

    let mut g = Game::new(&1, "alice", 8);
    for i in 2..=7u128 {
        let _ = g.add_player(Player::new(&i, &format!("p{i}")));
    }
    assert_eq!(g.start_game().err(), Some("Too many players"));
}

#[test]
fn turn_passes_to_next_living_player() {
    let mut g = table(vec![
        player(1, "a", vec![], 2),
        player(2, "b", vec![], 2),
        player(3, "c", vec![], 2),
    ]);
    g.players[1].is_alive = false;
    g.current_player = 0;
    assert_eq!(g.next_player().uuid, 3);
    assert_eq!(g.next_player().uuid, 1);
    assert_eq!(g.current_player, 0);
}

#[test]
fn game_over_with_one_survivor() {
    let mut g = table(vec![player(1, "a", vec![], 2), player(2, "b", vec![], 2)]);
    assert!(g.check_game_over().is_none());
    g.players[0].is_alive = false;
    assert_eq!(g.check_game_over().map(|p| p.uuid), Some(2));
    g.players[1].is_alive = false;
    assert!(g.check_game_over().is_none());
}

#[test]
fn offered_actions() {
    let mut g = table(vec![
        player(1, "a", vec![], 3),
        player(2, "b", vec![], 0),
        player(3, "c", vec![], 1),
    ]);
    g.current_player = 0;
    let names = |v: Vec<coup::game::AvailableAction>| -> Vec<(String, Option<Vec<String>>)> {
        v.into_iter().map(|a| (a.action, a.targets)).collect()
    };
    assert_eq!(names(g.available_actions(&2)), vec![]);
    let got = names(g.available_actions(&1));
    assert_eq!(
        got,
        vec![
            ("income".to_string(), None),
            ("foreign_aid".to_string(), None),
            ("tax".to_string(), None),
            ("exchange_draw".to_string(), None),
            ("assassinate".to_string(), Some(vec!["b".to_string(), "c".to_string()])),
            ("steal".to_string(), Some(vec!["c".to_string()])),
        ]
    );
    g.players[0].coins = 10;
    assert_eq!(
        names(g.available_actions(&1)),
        vec![("coup".to_string(), Some(vec!["b".to_string(), "c".to_string()]))]
    );
    g.players[0].coins = 2;
    g.coins = 1;
    assert_eq!(
        names(g.available_actions(&1)),
        vec![
            ("income".to_string(), None),
            ("exchange_draw".to_string(), None),
            ("steal".to_string(), Some(vec!["c".to_string()])),
        ]
    );
}
