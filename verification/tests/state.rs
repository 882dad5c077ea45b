use coup::card::{Card, Role};
use coup::game::Game;
use coup::player::Player;
use coup::state::{CardView, GameState, LobbyState, PlayerView};
use coup::turn_phase::{BlockInfo, TurnContext, TurnPhase};

fn table() -> Game {
    let mut g = Game::new(&1, "ann", 6);
    let _ = g.add_player(Player::new(&2, "bob"));
    g.players[0].cards = vec![Card::new(Role::Duke), Card { role: Role::Captain, visible: true }];
    g.players[1].cards = vec![Card::new(Role::Contessa), Card::new(Role::Assassin)];
    g.started = true;
    g
}

#[test]
fn others_see_only_revealed_cards() {
    let g = table();
    let own = PlayerView::from_player(&g.players[0], true, true);
    assert_eq!(own.cards[0], CardView { role: Some(Role::Duke), visible: false });
    let other = PlayerView::from_player(&g.players[0], false, true);
    assert_eq!(other.cards[0], CardView { role: None, visible: false });
    assert_eq!(other.cards[1], CardView { role: Some(Role::Captain), visible: true });
    assert!(other.exchange_cards.is_empty());
}

#[test]
fn subtitles_follow_the_turn() {
    let mut g = table();
    let gs = GameState::for_player(&2, &g);
    assert_eq!(gs.title, "ann's turn");
    assert_eq!(gs.subtitle, "Choosing an action");
    assert_eq!(gs.current_player, "ann");
    assert!(gs.available_actions.is_empty());
    assert!(gs.players[1].is_self && !gs.players[0].is_self);
    assert!(gs.players[0].is_current_turn);

    g.turn_context = Some(TurnContext::new(
        "steal".to_string(),
        1,
        "ann".to_string(),
        Some(2),
        Some("bob".to_string()),
        Some(Role::Captain),
        TurnPhase::AwaitingChallengeResponses,
    ));
    assert_eq!(GameState::for_player(&2, &g).subtitle, "ann claims Captain to steal bob");
    g.turn_context.as_mut().unwrap().phase = TurnPhase::AwaitingBlockResponses;
    assert_eq!(GameState::for_player(&2, &g).subtitle, "ann wants to steal bob - waiting for blocks");
    g.turn_context.as_mut().unwrap().phase = TurnPhase::AwaitingBlockChallengeResponses;
    assert_eq!(GameState::for_player(&2, &g).subtitle, "Waiting for block challenge responses");
    g.turn_context.as_mut().unwrap().block_info =
        Some(BlockInfo { blocker_uuid: 2, blocker_name: "bob".to_string(), claimed_role: Role::Ambassador });
    assert_eq!(GameState::for_player(&2, &g).subtitle, "bob claims Ambassador to block steal");

    g.turn_context = Some(TurnContext::new(
        "foreign_aid".to_string(),
        1,
        "ann".to_string(),
        None,
        None,
        None,
        TurnPhase::AwaitingChallengeResponses,
    ));
    assert_eq!(GameState::for_player(&1, &g).subtitle, "ann claims  to foreign aid");
    g.pending_influence_loss = Some(2);
    assert_eq!(GameState::for_player(&1, &g).subtitle, "bob is choosing which influence to lose");
    g.pending_influence_loss = None;
    g.turn_context = None;
    g.players[0].exchange_cards = vec![Card::new(Role::Duke)];
    assert_eq!(GameState::for_player(&1, &g).subtitle, "ann is exchanging cards");
}

#[test]
fn lobby_shows_names() {
    let g = table();
    let ls = LobbyState::from_game(&g);
    assert_eq!(ls.players, vec!["ann".to_string(), "bob".to_string()]);
    assert_eq!(ls.creator_uuid, 1);
    assert_eq!(ls.max_players, 6);
    assert_eq!(ls.room_code, g.room_code);
}
