use coup::card::{Card, Role};
use coup::server::{
    Action, AllowAction, BlockAction, ChallengeAction, ChatServer, Create, Disconnect, Join, LoseInfluence,
    Outgoing, StartGame,
};
use coup::state::ServerMessage;
use coup::turn_phase::TurnPhase;

fn errors_to(out: &[Outgoing], to: u128) -> Vec<String> {
    out.iter()
        .filter_map(|o| match o {
            Outgoing::Send { to: t, message: ServerMessage::Error { message } } if t.contains(&to) => {
                Some(message.clone())
            }
            _ => None,
        })
        .collect()
}

fn count<F: Fn(&ServerMessage) -> bool>(out: &[Outgoing], f: F) -> usize {
    out.iter()
        .filter(|o| matches!(o, Outgoing::Send { message, .. } if f(message)))
        .count()
}

fn lobby(server: &mut ChatServer) -> String {
    let out = server.handle_create(Create { number_of_players: 3, client_uuid: 1, client_name: "ann".to_string() });
    assert_eq!(out.len(), 1);
    let code = server.rooms[0].game.room_code.clone();
    match &out[0] {
        Outgoing::Send { to, message: ServerMessage::LobbyState(ls) } => {
            assert_eq!(to, &vec![1]);
            assert_eq!(ls.room_code, code);
            assert_eq!(ls.players, vec!["ann".to_string()]);
            assert_eq!(ls.creator_uuid, 1);
        }
        _ => panic!("expected the lobby"),
    }
    code
}

/// A started three-player table with known hands, player 1 on turn.
fn started() -> ChatServer {
    let mut server = ChatServer::new();
    let code = lobby(&mut server);
    let _ = server.handle_join(Join { room_code: code.clone(), client_uuid: 2, client_name: "bob".to_string() });
    let _ = server.handle_join(Join { room_code: code.clone(), client_uuid: 3, client_name: "cid".to_string() });
    let out = server.handle_start_game(StartGame { room_code: code });
    assert_eq!(count(&out, |m| matches!(m, ServerMessage::GameState(_))), 3);
    let g = &mut server.rooms[0].game;
    g.players[0].cards = vec![Card::new(Role::Duke), Card::new(Role::Captain)];
    g.players[1].cards = vec![Card::new(Role::Contessa), Card::new(Role::Assassin)];
    g.players[2].cards = vec![Card::new(Role::Ambassador), Card { role: Role::Duke, visible: true }];
    g.current_player = 0;
    server
}

#[test]
fn joining_a_lobby() {
    let mut server = ChatServer::new();
    let code = lobby(&mut server);
    let out = server.handle_join(Join { room_code: "ZZZZ".to_string(), client_uuid: 2, client_name: "bob".to_string() });
    assert_eq!(errors_to(&out, 2), vec!["Room not found".to_string()]);
    let out = server.handle_join(Join { room_code: code.to_lowercase(), client_uuid: 2, client_name: "ann".to_string() });
    assert_eq!(errors_to(&out, 2), vec!["A player with that name is already in the lobby".to_string()]);
    let out = server.handle_join(Join { room_code: code.to_lowercase(), client_uuid: 2, client_name: "bob".to_string() });
    match &out[..] {
        [Outgoing::Send { to, message: ServerMessage::LobbyState(ls) }] => {
            assert_eq!(to, &vec![1, 2]);
            assert_eq!(ls.players, vec!["ann".to_string(), "bob".to_string()]);
        }
        _ => panic!("expected the lobby for both"),
    }
}

#[test]
fn starting_needs_two_players() {
    let mut server = ChatServer::new();
    let code = lobby(&mut server);
    let out = server.handle_start_game(StartGame { room_code: code.clone() });
    assert_eq!(errors_to(&out, 1), vec!["Not enough players".to_string()]);
    assert!(!server.rooms[0].game.started);
    let _ = server.handle_join(Join { room_code: code.clone(), client_uuid: 2, client_name: "bob".to_string() });
    let _ = server.handle_start_game(StartGame { room_code: code.clone() });
    assert!(server.rooms[0].game.started);
    let out = server.handle_join(Join { room_code: code, client_uuid: 3, client_name: "cid".to_string() });
    assert_eq!(errors_to(&out, 3), vec!["Game already started".to_string()]);
}

#[test]
fn income_passes_the_turn() {
    let mut server = started();
    let out = server.handle_action(Action {
        client_uuid: 2,
        action: "income".to_string(),
        target_name: None,
        selected_card1: None,
        selected_card2: None,
    });
    assert_eq!(errors_to(&out, 2), vec!["It's not your turn".to_string()]);
    let out = server.handle_action(Action {
        client_uuid: 1,
        action: "income".to_string(),
        target_name: None,
        selected_card1: None,
        selected_card2: None,
    });
    let g = &server.rooms[0].game;
    assert_eq!(g.players[0].coins, 3);
    assert_eq!(g.coins, 49);
    assert_eq!(g.current_player, 1);
    assert_eq!(count(&out, |m| matches!(m, ServerMessage::GameState(_))), 3);
    let out = server.handle_action(Action {
        client_uuid: 9,
        action: "income".to_string(),
        target_name: None,
        selected_card1: None,
        selected_card2: None,
    });
    assert_eq!(errors_to(&out, 9), vec!["You are not in a game".to_string()]);
}

#[test]
fn unchallenged_tax_pays_three() {
    let mut server = started();
    let out = server.handle_action(Action {
        client_uuid: 1,
        action: "tax".to_string(),
        target_name: None,
        selected_card1: None,
        selected_card2: None,
    });
    assert_eq!(count(&out, |m| matches!(m, ServerMessage::ChallengePrompt { .. })), 1);
    let generation = out
        .iter()
        .find_map(|o| match o {
            Outgoing::ScheduleTimeout { generation, .. } => Some(*generation),
            _ => None,
        })
        .unwrap();
    let out = server.handle_allow_action(AllowAction { client_uuid: 1 });
    assert_eq!(errors_to(&out, 1), vec!["You cannot respond in this phase".to_string()]);
    let out = server.handle_allow_action(AllowAction { client_uuid: 2 });
    assert!(out.is_empty());
    // A stale timer does nothing.
    assert!(server.handle_phase_timeout(server.rooms[0].uuid, generation + 1).is_empty());
    let _ = server.handle_allow_action(AllowAction { client_uuid: 3 });
    let g = &server.rooms[0].game;
    assert!(g.turn_context.is_none());
    assert_eq!(g.players[0].coins, 5);
    assert_eq!(g.current_player, 1);
}

#[test]
fn bluff_is_caught() {
    let mut server = started();
    // Player 1 holds no Ambassador but claims one.
    let _ = server.handle_action(Action {
        client_uuid: 1,
        action: "exchange_draw".to_string(),
        target_name: None,
        selected_card1: None,
        selected_card2: None,
    });
    let out = server.handle_challenge_action(ChallengeAction { client_uuid: 2 });
    assert_eq!(
        count(&out, |m| matches!(m, ServerMessage::ActionResult { message }
            if message == "bob challenged and ann was bluffing! ann loses influence. bob earns 1 coin.")),
        1
    );
    assert_eq!(count(&out, |m| matches!(m, ServerMessage::LoseInfluenceChoice { .. })), 1);
    let g = &server.rooms[0].game;
    assert_eq!(g.players[1].coins, 3);
    assert_eq!(g.coins, 49);
    assert_eq!(g.pending_influence_loss, Some(1));
    let out = server.handle_lose_influence(LoseInfluence { client_uuid: 2, card_role: "Duke".to_string() });
    assert_eq!(errors_to(&out, 2), vec!["You are not the player who needs to lose influence".to_string()]);
    let out = server.handle_lose_influence(LoseInfluence { client_uuid: 1, card_role: "Contessa".to_string() });
    assert_eq!(errors_to(&out, 1), vec!["You don't have that card".to_string()]);
    let _ = server.handle_lose_influence(LoseInfluence { client_uuid: 1, card_role: "Captain".to_string() });
    let g = &server.rooms[0].game;
    assert!(g.players[0].cards[1].visible);
    assert!(g.turn_context.is_none());
    assert!(g.pending_influence_loss.is_none());
    assert_eq!(g.current_player, 1);
}

#[test]
fn truthful_claim_survives_a_challenge() {
    let mut server = started();
    let _ = server.handle_action(Action {
        client_uuid: 1,
        action: "tax".to_string(),
        target_name: None,
        selected_card1: None,
        selected_card2: None,
    });
    let out = server.handle_challenge_action(ChallengeAction { client_uuid: 3 });
    assert_eq!(
        count(&out, |m| matches!(m, ServerMessage::ActionResult { message }
            if message == "cid challenged but ann revealed Duke! cid loses influence.")),
        1
    );
    let g = &server.rooms[0].game;
    // cid had one hidden card left and is out; the tax was then paid.
    assert!(!g.players[2].is_alive);
    assert_eq!(g.players[0].coins, 5);
    assert_eq!(g.current_player, 1);
}

#[test]
fn foreign_aid_blocked_by_duke() {
    let mut server = started();
    let out = server.handle_action(Action {
        client_uuid: 1,
        action: "foreign_aid".to_string(),
        target_name: None,
        selected_card1: None,
        selected_card2: None,
    });
    assert_eq!(count(&out, |m| matches!(m, ServerMessage::BlockPrompt { .. })), 1);
    let out = server.handle_challenge_action(ChallengeAction { client_uuid: 2 });
    assert_eq!(errors_to(&out, 2), vec!["You cannot challenge in this phase".to_string()]);
    let out = server.handle_block_action(BlockAction { client_uuid: 2, claimed_role: "Captain".to_string() });
    assert_eq!(errors_to(&out, 2), vec!["That role cannot block this action".to_string()]);
    let out = server.handle_block_action(BlockAction { client_uuid: 2, claimed_role: "King".to_string() });
    assert_eq!(errors_to(&out, 2), vec!["Invalid role".to_string()]);
    let out = server.handle_block_action(BlockAction { client_uuid: 1, claimed_role: "Duke".to_string() });
    assert_eq!(errors_to(&out, 1), vec!["You cannot block this action".to_string()]);
    let out = server.handle_block_action(BlockAction { client_uuid: 2, claimed_role: "Duke".to_string() });
    assert_eq!(count(&out, |m| matches!(m, ServerMessage::BlockChallengePrompt { .. })), 1);
    assert_eq!(
        server.rooms[0].game.turn_context.as_ref().unwrap().phase,
        TurnPhase::AwaitingBlockChallengeResponses
    );
    let generation = out
        .iter()
        .find_map(|o| match o {
            Outgoing::ScheduleTimeout { generation, .. } => Some(*generation),
            _ => None,
        })
        .unwrap();
    let _ = server.handle_phase_timeout(server.rooms[0].uuid, generation);
    let g = &server.rooms[0].game;
    assert!(g.turn_context.is_none());
    assert_eq!(g.players[0].coins, 2);
    assert_eq!(g.current_player, 1);
}

#[test]
fn leaving_ends_the_game() {
    let mut server = started();
    server.rooms[0].game.players[2].is_alive = false;
    let out = server.handle_disconnect(Disconnect { uuid: 2 });
    let g = &server.rooms[0].game;
    assert!(!g.players[1].is_alive);
    assert!(g.players[1].cards.iter().all(|c| c.visible));
    assert_eq!(count(&out, |m| matches!(m, ServerMessage::GameOver { winner } if winner == "ann")), 1);
    let out = server.handle_disconnect(Disconnect { uuid: 1 });
    assert!(out.is_empty());
    assert!(server.rooms.is_empty());
}
