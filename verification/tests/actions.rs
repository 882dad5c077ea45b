use coup::actions::{execute_action_effect, process_action, swap_revealed_card, ActionOutcome};
use coup::card::{Card, Role};
use coup::game::Game;
use coup::player::Player;
use coup::turn_phase::{AfterInfluenceLoss, TurnPhase};

fn card(role: Role, visible: bool) -> Card {
    Card { role, visible }
}

fn player(uuid: u128, name: &str, cards: Vec<Card>, coins: u8) -> Player {
    let mut p = Player::new(&uuid, name);
    p.cards = cards;
    p.coins = coins;
    p
}

fn table() -> Game {
    let mut g = Game::new(&1, "a", 6);
    g.players = vec![
        player(1, "a", vec![card(Role::Duke, false), card(Role::Captain, false)], 2),
        player(2, "b", vec![card(Role::Contessa, false), card(Role::Assassin, false)], 2),
        player(3, "c", vec![card(Role::Ambassador, false), card(Role::Duke, true)], 2),
    ];
    g.started = true;
    g.current_player = 0;
    g
}

fn total(g: &Game) -> u32 {
    g.coins as u32 + g.players.iter().map(|p| p.coins as u32).sum::<u32>()
}

#[test]
fn refused_declarations_change_nothing() {
    let mut g = table();
    assert_eq!(process_action(&mut g, &2, "income", None, vec![]).unwrap_err(), "It's not your turn");
    assert_eq!(process_action(&mut g, &1, "bribe", None, vec![]).unwrap_err(), "Unknown action");
    assert_eq!(process_action(&mut g, &1, "coup", Some("b"), vec![]).unwrap_err(), "Not enough coins");
    assert_eq!(process_action(&mut g, &1, "steal", None, vec![]).unwrap_err(), "Target required");
    assert_eq!(process_action(&mut g, &1, "steal", Some("zed"), vec![]).unwrap_err(), "Target not found");
    assert_eq!(process_action(&mut g, &1, "steal", Some("a"), vec![]).unwrap_err(), "Cannot target yourself");
    assert_eq!(process_action(&mut g, &1, "exchange_confirm", None, vec![]).unwrap_err(), "No exchange in progress");
    g.players[0].coins = 10;
    assert_eq!(
        process_action(&mut g, &1, "income", None, vec![]).unwrap_err(),
        "You must coup when you have 10 or more coins"
    );
    g.pending_influence_loss = Some(2);
    assert_eq!(
        process_action(&mut g, &1, "coup", Some("b"), vec![]).unwrap_err(),
        "Waiting for a player to choose which influence to lose"
    );
    assert_eq!(g.players[0].coins, 10);
    assert_eq!(g.coins, 50);
}

#[test]
fn income_is_immediate() {
    let mut g = table();
    let before = total(&g);
    assert_eq!(process_action(&mut g, &1, "income", None, vec![]), Ok(ActionOutcome::TurnComplete));
    assert_eq!(g.players[0].coins, 3);
    assert_eq!(g.coins, 49);
    assert_eq!(total(&g), before);
    g.coins = 0;
    assert_eq!(process_action(&mut g, &1, "income", None, vec![]).unwrap_err(), "No coins left");
}

#[test]
fn coup_takes_influence() {
    let mut g = table();
    g.players[0].coins = 7;
    let before = total(&g);
    assert_eq!(
        process_action(&mut g, &1, "coup", Some("b"), vec![]),
        Ok(ActionOutcome::WaitingForInfluenceChoice(2))
    );
    assert_eq!(g.players[0].coins, 0);
    assert_eq!(g.coins, 57);
    assert_eq!(g.pending_influence_loss, Some(2));
    assert_eq!(total(&g), before);

    let mut g = table();
    g.players[0].coins = 8;
    assert_eq!(process_action(&mut g, &1, "coup", Some("c"), vec![]), Ok(ActionOutcome::TurnComplete));
    assert!(!g.players[2].is_alive);
    assert!(g.players[2].cards.iter().all(|c| c.visible));
    assert_eq!(g.players[0].coins, 1);
}

#[test]
fn claims_and_blocks_open_a_phase() {
    let mut g = table();
    assert_eq!(process_action(&mut g, &1, "tax", None, vec![]), Ok(ActionOutcome::PhaseStarted));
    let ctx = g.turn_context.as_ref().unwrap();
    assert_eq!(ctx.phase, TurnPhase::AwaitingChallengeResponses);
    assert_eq!(ctx.claimed_role, Some(Role::Duke));
    assert_eq!(ctx.actor_uuid, 1);
    assert_eq!(process_action(&mut g, &1, "tax", None, vec![]).unwrap_err(), "A turn phase is already in progress");

    let mut g = table();
    assert_eq!(process_action(&mut g, &1, "foreign_aid", None, vec![]), Ok(ActionOutcome::PhaseStarted));
    assert_eq!(g.turn_context.as_ref().unwrap().phase, TurnPhase::AwaitingBlockResponses);

    let mut g = table();
    g.players[0].coins = 3;
    assert_eq!(process_action(&mut g, &1, "assassinate", Some("c"), vec![]), Ok(ActionOutcome::PhaseStarted));
    let ctx = g.turn_context.as_ref().unwrap();
    assert_eq!(ctx.target_uuid, Some(3));
    assert_eq!(ctx.target_name.as_deref(), Some("c"));
    assert_eq!(g.players[0].coins, 0);
    assert_eq!(g.coins, 53);
}

#[test]
fn exchange_round_trip() {
    let mut g = table();
    assert_eq!(process_action(&mut g, &1, "exchange_draw", None, vec![]), Ok(ActionOutcome::PhaseStarted));
    g.turn_context = None;
    assert_eq!(execute_action_effect(&mut g, "exchange_draw", 1, None), Ok(ActionOutcome::WaitingForExchange));
    assert_eq!(g.players[0].exchange_cards.len(), 4);
    assert_eq!(
        process_action(&mut g, &1, "income", None, vec![]).unwrap_err(),
        "Must complete exchange first"
    );
    assert_eq!(
        process_action(&mut g, &1, "exchange_confirm", None, vec![Card::new(Role::Duke)]).unwrap_err(),
        "Invalid number of cards selected"
    );
    assert_eq!(
        process_action(&mut g, &1, "exchange_confirm", None, vec![Card::new(Role::Duke), Card::new(Role::Contessa)])
            .unwrap_err(),
        "Invalid card"
    );
    assert_eq!(
        process_action(&mut g, &1, "exchange_confirm", None, vec![Card::new(Role::Ambassador), Card::new(Role::Captain)]),
        Ok(ActionOutcome::TurnComplete)
    );
    assert_eq!(g.players[0].cards, vec![Card::new(Role::Ambassador), Card::new(Role::Captain)]);
    assert!(g.players[0].exchange_cards.is_empty());
    // One Ambassador was kept: the Duke and the other Ambassador go back.
    assert_eq!(g.deck.cards.len(), 15);
    assert_eq!(g.deck.cards[13], Card::new(Role::Duke));
    assert_eq!(g.deck.cards[14], Card::new(Role::Ambassador));
}

#[test]
fn effects_move_coins() {
    let mut g = table();
    g.players[1].coins = 1;
    let before = total(&g);
    assert_eq!(execute_action_effect(&mut g, "steal", 1, Some(2)), Ok(ActionOutcome::TurnComplete));
    assert_eq!((g.players[0].coins, g.players[1].coins), (3, 0));
    assert_eq!(execute_action_effect(&mut g, "tax", 1, None), Ok(ActionOutcome::TurnComplete));
    assert_eq!(g.players[0].coins, 6);
    assert_eq!(total(&g), before);
    g.coins = 1;
    let before = total(&g);
    assert_eq!(execute_action_effect(&mut g, "foreign_aid", 1, None), Ok(ActionOutcome::TurnComplete));
    assert_eq!((g.players[0].coins, g.coins), (7, 0));
    assert_eq!(total(&g), before);
    assert_eq!(execute_action_effect(&mut g, "steal", 1, None).unwrap_err(), "Target required");
    assert_eq!(execute_action_effect(&mut g, "steal", 1, Some(9)).unwrap_err(), "Target not found");
    assert_eq!(execute_action_effect(&mut g, "tax", 9, None).unwrap_err(), "Actor not found");
    assert_eq!(execute_action_effect(&mut g, "bribe", 1, None).unwrap_err(), "Unknown action");
}

#[test]
fn assassination_of_a_two_card_player_waits_for_a_choice() {
    let mut g = table();
    g.players[0].coins = 3;
    let _ = process_action(&mut g, &1, "assassinate", Some("b"), vec![]);
    assert_eq!(execute_action_effect(&mut g, "assassinate", 1, Some(2)), Ok(ActionOutcome::WaitingForInfluenceChoice(2)));
    assert_eq!(g.pending_influence_loss, Some(2));
    assert_eq!(g.turn_context.as_ref().unwrap().after_influence_loss, Some(AfterInfluenceLoss::ActionComplete));
}

fn role_counts(cards: &[Card]) -> Vec<usize> {
    [Role::Assassin, Role::Contessa, Role::Captain, Role::Duke, Role::Ambassador]
        .iter()
        .map(|r| cards.iter().filter(|c| c.role == *r).count())
        .collect()
}

#[test]
fn defending_a_claim_swaps_the_card_through_the_deck() {
    let mut g = table();
    let _ = g.deck.draw();
    let mut all_before = g.deck.cards.clone();
    all_before.extend(g.players[0].cards.iter().copied());
    let others_before: Vec<Vec<Card>> = g.players[1..].iter().map(|p| p.cards.clone()).collect();
    swap_revealed_card(&mut g, 1, Role::Duke);
    assert_eq!(g.deck.cards.len(), 14);
    assert!(g.deck.cards.iter().all(|c| !c.visible));
    assert_eq!(g.players[0].cards.len(), 2);
    assert!(!g.players[0].cards[0].visible);
    assert_eq!(g.players[0].cards[1], card(Role::Captain, false));
    let mut all_after = g.deck.cards.clone();
    all_after.extend(g.players[0].cards.iter().copied());
    assert_eq!(role_counts(&all_after), role_counts(&all_before));
    let others_after: Vec<Vec<Card>> = g.players[1..].iter().map(|p| p.cards.clone()).collect();
    assert_eq!(others_after, others_before);
}

#[test]
fn a_swap_with_a_full_deck_or_without_the_card_changes_nothing() {
    let mut g = table();
    let deck_before = g.deck.cards.clone();
    swap_revealed_card(&mut g, 1, Role::Duke);
    assert_eq!(g.deck.cards, deck_before);
    assert_eq!(g.players[0].cards, vec![card(Role::Duke, false), card(Role::Captain, false)]);
    let _ = g.deck.draw();
    let deck_before = g.deck.cards.clone();
    swap_revealed_card(&mut g, 3, Role::Duke);
    swap_revealed_card(&mut g, 9, Role::Duke);
    assert_eq!(g.deck.cards, deck_before);
    assert_eq!(g.players[2].cards, vec![card(Role::Ambassador, false), card(Role::Duke, true)]);
}
