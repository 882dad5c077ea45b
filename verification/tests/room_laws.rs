use coup::card::{Card, Role};
use coup::server::{
    Action, AllowAction, ChallengeAction, ChatServer, Create, Join, LoseInfluence, Outgoing, StartGame,
};
use coup::state::ServerMessage;

fn declare(server: &mut ChatServer, client: u128, action: &str) -> Vec<Outgoing> {
    server.handle_action(Action {
        client_uuid: client,
        action: action.to_string(),
        target_name: None,
        selected_card1: None,
        selected_card2: None,
    })
}

/// Two rooms: ann, bob and cid play in the first (ann on turn, with known
/// hands); dan and eve wait in a lobby.
fn two_rooms() -> ChatServer {
    let mut server = ChatServer::new();
    let _ = server.handle_create(Create { number_of_players: 3, client_uuid: 1, client_name: "ann".to_string() });
    let code = server.rooms[0].game.room_code.clone();
    let _ = server.handle_join(Join { room_code: code.clone(), client_uuid: 2, client_name: "bob".to_string() });
    let _ = server.handle_join(Join { room_code: code.clone(), client_uuid: 3, client_name: "cid".to_string() });
    let _ = server.handle_start_game(StartGame { room_code: code });
    let _ = server.handle_create(Create { number_of_players: 2, client_uuid: 4, client_name: "dan".to_string() });
    let g = &mut server.rooms[0].game;
    g.players[0].cards = vec![Card::new(Role::Duke), Card::new(Role::Captain)];
    g.players[1].cards = vec![Card::new(Role::Contessa), Card::new(Role::Assassin)];
    g.players[2].cards = vec![Card::new(Role::Ambassador), Card::new(Role::Duke)];
    g.current_player = 0;
    server
}

fn addressees(out: &[Outgoing]) -> Vec<u128> {
    let mut v = Vec::new();
    for o in out {
        if let Outgoing::Send { to, .. } = o {
            v.extend(to.iter().copied());
        }
    }
    v
}

#[test]
fn answers_stay_in_the_room() {
    let mut server = two_rooms();
    let lobby_before = (server.rooms[1].uuid, server.rooms[1].game.players.len());
    let out = declare(&mut server, 1, "tax");
    assert!(!out.is_empty());
    assert!(addressees(&out).iter().all(|u| [1u128, 2, 3].contains(u)));
    let out = server.handle_challenge_action(ChallengeAction { client_uuid: 2 });
    assert!(addressees(&out).iter().all(|u| [1u128, 2, 3].contains(u)));
    assert_eq!((server.rooms[1].uuid, server.rooms[1].game.players.len()), lobby_before);
    assert_eq!(server.rooms[1].game.players[0].name, "dan");
    // The seats of the table are those it started with.
    let names: Vec<&str> = server.rooms[0].game.players.iter().map(|p| p.name.as_str()).collect();
    assert_eq!(names, vec!["ann", "bob", "cid"]);
}

#[test]
fn the_scheduled_timer_is_the_last_answer_and_is_live() {
    let mut server = two_rooms();
    let room = server.rooms[0].uuid;
    let out = declare(&mut server, 1, "tax");
    let ctx = server.rooms[0].game.turn_context.as_ref().unwrap();
    assert_eq!(ctx.timer_generation, 1);
    assert!(ctx.responded.is_empty());
    match out.last() {
        Some(Outgoing::ScheduleTimeout { room_uuid, generation }) => {
            assert_eq!(*room_uuid, room);
            assert_eq!(*generation, 1);
        },
        _ => panic!("the timer comes last"),
    }
    // The prompt goes to the players who may challenge, just before the timer.
    match &out[out.len() - 2] {
        Outgoing::Send { to, message: ServerMessage::ChallengePrompt { deadline_secs, .. } } => {
            assert_eq!(to, &vec![2, 3]);
            assert_eq!(*deadline_secs, 10);
        },
        _ => panic!("the prompt comes before the timer"),
    }
    // Its timeout resolves the phase as if everyone let it pass.
    let _ = server.handle_phase_timeout(room, 1);
    let g = &server.rooms[0].game;
    assert!(g.turn_context.is_none());
    assert_eq!(g.players[0].coins, 5);
    assert_eq!(g.current_player, 1);
}

#[test]
fn one_answer_is_recorded_until_all_have_answered() {
    let mut server = two_rooms();
    let _ = declare(&mut server, 1, "tax");
    let out = server.handle_allow_action(AllowAction { client_uuid: 3 });
    assert!(out.is_empty());
    let ctx = server.rooms[0].game.turn_context.as_ref().unwrap();
    assert!(ctx.responded.contains(&3));
    assert_eq!(ctx.responded.len(), 1);
    assert_eq!(server.rooms[0].game.players[0].coins, 2);
}

#[test]
fn the_challenger_reward_comes_from_the_bank() {
    let mut server = two_rooms();
    let total = |s: &ChatServer| -> u32 {
        let g = &s.rooms[0].game;
        g.coins as u32 + g.players.iter().map(|p| p.coins as u32).sum::<u32>()
    };
    // ann holds no Ambassador.
    let _ = declare(&mut server, 1, "exchange_draw");
    let before = total(&server);
    let _ = server.handle_challenge_action(ChallengeAction { client_uuid: 3 });
    assert_eq!(server.rooms[0].game.players[2].coins, 3);
    assert_eq!(total(&server), before);
}

#[test]
fn losing_influence_turns_up_one_card() {
    let mut server = two_rooms();
    let _ = declare(&mut server, 1, "exchange_draw");
    let _ = server.handle_challenge_action(ChallengeAction { client_uuid: 2 });
    let hidden = |s: &ChatServer| s.rooms[0].game.players[0].cards.iter().filter(|c| !c.visible).count();
    assert_eq!(hidden(&server), 2);
    let _ = server.handle_lose_influence(LoseInfluence { client_uuid: 1, card_role: "Duke".to_string() });
    assert_eq!(hidden(&server), 1);
    let p = &server.rooms[0].game.players[0];
    assert_eq!(p.cards[0], Card { role: Role::Duke, visible: true });
    assert_eq!(p.cards[1], Card::new(Role::Captain));
    assert!(p.is_alive);
}

#[test]
fn dealing_keeps_every_card() {
    let mut server = ChatServer::new();
    let _ = server.handle_create(Create { number_of_players: 4, client_uuid: 1, client_name: "ann".to_string() });
    let code = server.rooms[0].game.room_code.clone();
    for (u, n) in [(2u128, "bob"), (3, "cid"), (4, "dan")] {
        let _ = server.handle_join(Join { room_code: code.clone(), client_uuid: u, client_name: n.to_string() });
    }
    let _ = server.handle_start_game(StartGame { room_code: code });
    let g = &server.rooms[0].game;
    assert_eq!(g.deck.cards.len(), 15 - 8);
    let mut all: Vec<Card> = g.deck.cards.clone();
    for p in &g.players {
        assert_eq!(p.cards.len(), 2);
        all.extend(p.cards.iter().copied());
    }
    for role in [Role::Duke, Role::Assassin, Role::Captain, Role::Ambassador, Role::Contessa] {
        assert_eq!(all.iter().filter(|c| c.role == role && !c.visible).count(), 3);
    }
}

#[test]
fn a_caught_bluff_is_told_to_everyone_and_the_bluffer_is_asked() {
    let mut server = two_rooms();
    let _ = declare(&mut server, 1, "exchange_draw");
    let out = server.handle_challenge_action(ChallengeAction { client_uuid: 2 });
    match &out[0] {
        Outgoing::Send { to, message: ServerMessage::ActionResult { message } } => {
            assert_eq!(to, &vec![1, 2, 3]);
            assert_eq!(message, "bob challenged and ann was bluffing! ann loses influence. bob earns 1 coin.");
        },
        _ => panic!("the result comes first"),
    }
    // Then every player sees the table, and ann is asked which card to give up.
    for (k, u) in [1u128, 2, 3].iter().enumerate() {
        match &out[1 + k] {
            Outgoing::Send { to, message: ServerMessage::GameState(_) } => assert_eq!(to, &vec![*u]),
            _ => panic!("the tables come next"),
        }
    }
    match out.last() {
        Some(Outgoing::Send { to, message: ServerMessage::LoseInfluenceChoice { cards } }) => {
            assert_eq!(to, &vec![1]);
            assert_eq!(cards.len(), 2);
            assert_eq!(cards[0].role, Some(Role::Duke));
            assert_eq!(cards[1].role, Some(Role::Captain));
        },
        _ => panic!("the choice comes last"),
    }
    assert_eq!(out.len(), 5);
}

#[test]
fn a_held_claim_is_swapped_and_the_challenger_is_asked() {
    let mut server = two_rooms();
    let deck_len = server.rooms[0].game.deck.cards.len();
    let _ = declare(&mut server, 1, "tax");
    let out = server.handle_challenge_action(ChallengeAction { client_uuid: 2 });
    match &out[0] {
        Outgoing::Send { to, message: ServerMessage::ActionResult { message } } => {
            assert_eq!(to, &vec![1, 2, 3]);
            assert_eq!(message, "bob challenged but ann revealed Duke! bob loses influence.");
        },
        _ => panic!("the result comes first"),
    }
    for (k, u) in [1u128, 2, 3].iter().enumerate() {
        match &out[1 + k] {
            Outgoing::Send { to, message: ServerMessage::GameState(_) } => assert_eq!(to, &vec![*u]),
            _ => panic!("the tables come next"),
        }
    }
    match out.last() {
        Some(Outgoing::Send { to, message: ServerMessage::LoseInfluenceChoice { cards } }) => {
            assert_eq!(to, &vec![2]);
            assert_eq!(cards.len(), 2);
            assert_eq!(cards[0].role, Some(Role::Contessa));
            assert_eq!(cards[1].role, Some(Role::Assassin));
        },
        _ => panic!("the choice comes last"),
    }
    assert_eq!(out.len(), 5);
    // ann's Duke went through the deck: the hand and the deck keep their sizes.
    let g = &server.rooms[0].game;
    assert_eq!(g.deck.cards.len(), deck_len);
    assert_eq!(g.players[0].cards.len(), 2);
    assert!(!g.players[0].cards[0].visible);
    assert_eq!(g.players[0].cards[1], Card::new(Role::Captain));
    assert_eq!(g.pending_influence_loss, Some(2));
}

#[test]
fn each_player_is_shown_only_its_own_hidden_cards() {
    let mut server = two_rooms();
    let out = declare(&mut server, 1, "income");
    let mut shown = 0;
    for o in &out {
        if let Outgoing::Send { to, message: ServerMessage::GameState(gs) } = o {
            shown += 1;
            let me = to[0];
            for (k, view) in gs.players.iter().enumerate() {
                let seat_uuid = (k + 1) as u128;
                assert_eq!(view.is_self, seat_uuid == me);
                for c in &view.cards {
                    assert_eq!(c.role.is_some(), seat_uuid == me || c.visible);
                }
            }
            assert_eq!(gs.current_player, "bob");
        }
    }
    assert_eq!(shown, 3);
}

#[test]
fn joining_elsewhere_takes_the_client_out_of_its_room_first() {
    let mut server = two_rooms();
    let _ = server.handle_create(Create { number_of_players: 2, client_uuid: 5, client_name: "eve".to_string() });
    let eve_code = server.rooms[2].game.room_code.clone();
    let out = server.handle_join(Join {
        room_code: eve_code.to_lowercase(),
        client_uuid: 4,
        client_name: "dan".to_string(),
    });
    // dan's lobby, left empty, is closed; dan sits with eve.
    assert_eq!(server.rooms.len(), 2);
    let names: Vec<&str> = server.rooms[1].game.players.iter().map(|p| p.name.as_str()).collect();
    assert_eq!(names, vec!["eve", "dan"]);
    assert_eq!(out.len(), 1);
    assert!(matches!(&out[0], Outgoing::Send { to, message: ServerMessage::LobbyState(_) } if to == &vec![5, 4]));
    // A refused join still takes the client out of its room.
    let game_code = server.rooms[0].game.room_code.clone();
    let out = server.handle_join(Join { room_code: game_code, client_uuid: 5, client_name: "eve".to_string() });
    assert!(matches!(&out[0], Outgoing::Send { to, message: ServerMessage::Error { message } }
        if to == &vec![5] && message == "Game already started"));
    let names: Vec<&str> = server.rooms[1].game.players.iter().map(|p| p.name.as_str()).collect();
    assert_eq!(names, vec!["dan"]);
}
