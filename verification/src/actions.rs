use vstd::prelude::*;
use crate::action_properties::{action_rules, get_action_properties};
use crate::card::{Card, Role, hidden_card, str_eq};
use crate::deck::TOTAL_CARDS;
use crate::game::{Game, find_seat, has_seat, seat_of};
use crate::player::{
    Player, all_offered, count_hidden, hidden_count, is_first_hidden, returned_cards, reveal_at,
};
use crate::turn_phase::{AfterInfluenceLoss, TurnContext, TurnPhase};

verus! {

/// Where a declared or resolved action leaves the turn.
#[derive(Debug, Clone, Copy, PartialEq, Eq, Structural)]
pub enum ActionOutcome {
    TurnComplete,
    WaitingForInfluenceChoice(u128),
    WaitingForExchange,
    PhaseStarted,
}

pub open spec fn err_is(r: Result<ActionOutcome, String>, msg: Seq<char>) -> bool {
    r is Err && r->Err_0@ == msg
}

pub open spec fn ok_is(r: Result<ActionOutcome, String>, o: ActionOutcome) -> bool {
    r is Ok && r->Ok_0 == o
}

pub open spec fn min_int(a: int, b: int) -> int {
    if a <= b { a } else { b }
}

/// `p` with `c` coins.
pub open spec fn with_coins(p: Player, c: int) -> Player {
    Player { coins: c as u8, ..p }
}

/// `p1` is `p0` after losing its last hidden card: that card is face up and
/// the player is out.
pub open spec fn lost_last_card(p0: Player, p1: Player) -> bool {
    &&& exists|i: int| is_first_hidden(p0.cards@, i) && p1.cards@ == reveal_at(p0.cards@, i)
    &&& p1 == (Player { cards: p1.cards, is_alive: false, ..p0 })
}

/// `p1` and the deck `d1` are `p0` and `d0` after `p0` starts an exchange.
pub open spec fn started_exchange(p0: Player, p1: Player, d0: Seq<Card>, d1: Seq<Card>) -> bool {
    let n = d0.len() as int;
    &&& p1.exchange_cards@ == crate::player::hidden_of(p0.cards@).push(
        crate::card::hidden_card(d0[n - 1].role),
    ).push(crate::card::hidden_card(d0[n - 2].role))
    &&& d1 == d0.subrange(0, n - 2)
    &&& p1 == (Player { exchange_cards: p1.exchange_cards, ..p0 })
}

/// The turn context with what is to happen once influence is lost.
pub open spec fn ctx_after(c: Option<TurnContext>, after: AfterInfluenceLoss) -> Option<TurnContext> {
    match c {
        Some(ctx) => Some(TurnContext { after_influence_loss: Some(after), ..ctx }),
        None => None,
    }
}

/// What the effect of an action needs to leave every coin count within a
/// byte and to draw from the deck.
pub open spec fn effect_fits(g: Game, action: Seq<char>, actor: u128, target: Option<u128>) -> bool {
    let ps = g.players@;
    let a = seat_of(ps, actor);
    has_seat(ps, actor) ==> if action == "income"@ {
        g.coins > 0 ==> ps[a].coins + 1 <= 255
    } else if action == "foreign_aid"@ {
        ps[a].coins + min_int(g.coins as int, 2) <= 255
    } else if action == "tax"@ {
        ps[a].coins + min_int(g.coins as int, 3) <= 255
    } else if action == "exchange_draw"@ {
        g.deck.cards@.len() >= 2
    } else if action == "steal"@ {
        match target {
            Some(t) => has_seat(ps, t) ==> ps[a].coins + min_int(ps[seat_of(ps, t)].coins as int, 2)
                <= 255,
            None => true,
        }
    } else {
        true
    }
}

/// The coins move from the bank to the actor.
pub open spec fn paid_from_bank(g0: Game, g1: Game, a: int, amount: int) -> bool {
    &&& g1.players@ == g0.players@.update(a, with_coins(g0.players@[a], g0.players@[a].coins + amount))
    &&& g1 == (Game { players: g1.players, coins: (g0.coins - amount) as u8, ..g0 })
}

/// The effect of `action` by `actor` (against `target`) takes table `g0` to
/// `g1` with result `r`.
pub open spec fn effect_post(
    g0: Game,
    g1: Game,
    action: Seq<char>,
    actor: u128,
    target: Option<u128>,
    r: Result<ActionOutcome, String>,
) -> bool {
    let ps = g0.players@;
    let a = seat_of(ps, actor);
    if !has_seat(ps, actor) {
        err_is(r, "Actor not found"@) && g1 == g0
    } else if action == "income"@ {
        if g0.coins == 0 {
            err_is(r, "No coins left"@) && g1 == g0
        } else {
            ok_is(r, ActionOutcome::TurnComplete) && paid_from_bank(g0, g1, a, 1)
        }
    } else if action == "foreign_aid"@ {
        ok_is(r, ActionOutcome::TurnComplete) && paid_from_bank(g0, g1, a, min_int(g0.coins as int, 2))
    } else if action == "tax"@ {
        ok_is(r, ActionOutcome::TurnComplete) && paid_from_bank(g0, g1, a, min_int(g0.coins as int, 3))
    } else if action == "exchange_draw"@ {
        &&& ok_is(r, ActionOutcome::WaitingForExchange)
        &&& started_exchange(ps[a], g1.players@[a], g0.deck.cards@, g1.deck.cards@)
        &&& g1.players@ == ps.update(a, g1.players@[a])
        &&& g1 == (Game { players: g1.players, deck: g1.deck, ..g0 })
    } else if action == "coup"@ || action == "assassinate"@ {
        match target {
            None => err_is(r, "Target required"@) && g1 == g0,
            Some(t) => if !has_seat(ps, t) {
                err_is(r, "Target not found"@) && g1 == g0
            } else {
                let ti = seat_of(ps, t);
                let h = count_hidden(ps[ti].cards@);
                if !ps[ti].is_alive {
                    ok_is(r, ActionOutcome::TurnComplete) && g1 == g0
                } else if h == 0 {
                    err_is(r, "Cannot lose influence"@) && g1 == g0
                } else if h == 1 {
                    &&& ok_is(r, ActionOutcome::TurnComplete)
                    &&& lost_last_card(ps[ti], g1.players@[ti])
                    &&& g1.players@ == ps.update(ti, g1.players@[ti])
                    &&& g1 == (Game { players: g1.players, ..g0 })
                } else {
                    &&& ok_is(r, ActionOutcome::WaitingForInfluenceChoice(t))
                    &&& g1 == (Game {
                        pending_influence_loss: Some(t),
                        turn_context: ctx_after(g0.turn_context, AfterInfluenceLoss::ActionComplete),
                        ..g0
                    })
                }
            },
        }
    } else if action == "steal"@ {
        match target {
            None => err_is(r, "Target required"@) && g1 == g0,
            Some(t) => if !has_seat(ps, t) {
                err_is(r, "Target not found"@) && g1 == g0
            } else {
                let ti = seat_of(ps, t);
                let c = min_int(ps[ti].coins as int, 2);
                let s1 = ps.update(a, with_coins(ps[a], ps[a].coins + c));
                let s2 = s1.update(ti, with_coins(s1[ti], s1[ti].coins - c));
                &&& ok_is(r, ActionOutcome::TurnComplete)
                &&& g1.players@ == s2
                &&& g1 == (Game { players: g1.players, ..g0 })
            },
        }
    } else {
        err_is(r, "Unknown action"@) && g1 == g0
    }
}

fn err(msg: &str) -> (r: Result<ActionOutcome, String>)
    ensures
        err_is(r, msg@),
{
    Err(msg.to_owned())
}

fn take_from_bank(game: &mut Game, a: usize, max: u8) -> (r: Result<ActionOutcome, String>)
    requires
        a < old(game).players@.len(),
        old(game).players@[a as int].coins + min_int(old(game).coins as int, max as int) <= 255,
    ensures
        ok_is(r, ActionOutcome::TurnComplete),
        paid_from_bank(*old(game), *final(game), a as int, min_int(old(game).coins as int, max as int)),
{
    let coins = if game.coins < max { game.coins } else { max };
    game.players[a].coins = game.players[a].coins + coins;
    game.coins = game.coins - coins;
    Ok(ActionOutcome::TurnComplete)
}

/// Whether the effect of an action can be applied without a count
/// overflowing or drawing from a short deck.
pub fn effect_fits_now(game: &Game, action: &str, actor_uuid: u128, target_uuid: Option<u128>) -> (r: bool)
    ensures
        r == effect_fits(*game, action@, actor_uuid, target_uuid),
{
    let a = match find_seat(&game.players, actor_uuid) {
        Some(a) => a,
        None => {
            return true;
        },
    };
    let coins = game.players[a].coins as u16;
    if str_eq(action, "income") {
        game.coins == 0 || coins + 1 <= 255
    } else if str_eq(action, "foreign_aid") {
        coins + (if game.coins < 2 { game.coins as u16 } else { 2 }) <= 255
    } else if str_eq(action, "tax") {
        coins + (if game.coins < 3 { game.coins as u16 } else { 3 }) <= 255
    } else if str_eq(action, "exchange_draw") {
        game.deck.cards.len() >= 2
    } else if str_eq(action, "steal") {
        match target_uuid {
            Some(t) => match find_seat(&game.players, t) {
                Some(ti) => {
                    let tc = game.players[ti].coins as u16;
                    coins + (if tc < 2 { tc } else { 2 }) <= 255
                },
                None => true,
            },
            None => true,
        }
    } else {
        true
    }
}

/// Applies the effect of an action after challenge and block resolution;
/// its cost was paid when it was declared.
pub fn execute_action_effect(
    game: &mut Game,
    action: &str,
    actor_uuid: u128,
    target_uuid: Option<u128>,
) -> (r: Result<ActionOutcome, String>)
    requires
        effect_fits(*old(game), action@, actor_uuid, target_uuid),
    ensures
        effect_post(*old(game), *final(game), action@, actor_uuid, target_uuid, r),
{
    let actor_index = match find_seat(&game.players, actor_uuid) {
        Some(i) => i,
        None => {
            return err("Actor not found");
        },
    };
    if str_eq(action, "income") {
        if game.coins == 0 {
            return err("No coins left");
        }
        take_from_bank(game, actor_index, 1)
    } else if str_eq(action, "foreign_aid") {
        take_from_bank(game, actor_index, 2)
    } else if str_eq(action, "tax") {
        take_from_bank(game, actor_index, 3)
    } else if str_eq(action, "exchange_draw") {
        let ghost g0 = *game;
        let mut temp = game.players.remove(actor_index);
        let res = temp.exchange_draw(game);
        game.players.insert(actor_index, temp);
        assert(game.players@ =~= g0.players@.update(actor_index as int, game.players@[actor_index as int]));
        match res {
            Ok(_) => Ok(ActionOutcome::WaitingForExchange),
            Err(e) => Err(e.to_owned()),
        }
    } else if str_eq(action, "coup") || str_eq(action, "assassinate") {
        let target = match target_uuid {
            Some(t) => t,
            None => {
                return err("Target required");
            },
        };
        let target_index = match find_seat(&game.players, target) {
            Some(i) => i,
            None => {
                return err("Target not found");
            },
        };
        if !game.players[target_index].is_alive {
            return Ok(ActionOutcome::TurnComplete);
        }
        let hidden = hidden_count(&game.players[target_index].cards);
        if hidden == 0 {
            // Losing influence without a hidden card fails and changes nothing.
            err("Cannot lose influence")
        } else if hidden == 1 {
            let _ = game.players[target_index].lose_influence(None);
            Ok(ActionOutcome::TurnComplete)
        } else {
            game.pending_influence_loss = Some(target);
            match &mut game.turn_context {
                Some(ctx) => {
                    ctx.after_influence_loss = Some(AfterInfluenceLoss::ActionComplete);
                },
                None => {},
            }
            Ok(ActionOutcome::WaitingForInfluenceChoice(target))
        }
    } else if str_eq(action, "steal") {
        let target = match target_uuid {
            Some(t) => t,
            None => {
                return err("Target required");
            },
        };
        let target_index = match find_seat(&game.players, target) {
            Some(i) => i,
            None => {
                return err("Target not found");
            },
        };
        let tc = game.players[target_index].coins;
        let coins = if tc < 2 { tc } else { 2 };
        game.players[actor_index].coins = game.players[actor_index].coins + coins;
        game.players[target_index].coins = game.players[target_index].coins - coins;
        Ok(ActionOutcome::TurnComplete)
    } else {
        err("Unknown action")
    }
}

/// The protocol names of the actions are pairwise different.
pub proof fn lemma_action_names_distinct()
    ensures
        "income"@ != "foreign_aid"@,
        "income"@ != "coup"@,
        "income"@ != "tax"@,
        "income"@ != "assassinate"@,
        "income"@ != "steal"@,
        "income"@ != "exchange_draw"@,
        "income"@ != "exchange_confirm"@,
        "foreign_aid"@ != "coup"@,
        "foreign_aid"@ != "tax"@,
        "foreign_aid"@ != "assassinate"@,
        "foreign_aid"@ != "steal"@,
        "foreign_aid"@ != "exchange_draw"@,
        "foreign_aid"@ != "exchange_confirm"@,
        "coup"@ != "tax"@,
        "coup"@ != "assassinate"@,
        "coup"@ != "steal"@,
        "coup"@ != "exchange_draw"@,
        "coup"@ != "exchange_confirm"@,
        "tax"@ != "assassinate"@,
        "tax"@ != "steal"@,
        "tax"@ != "exchange_draw"@,
        "tax"@ != "exchange_confirm"@,
        "assassinate"@ != "steal"@,
        "assassinate"@ != "exchange_draw"@,
        "assassinate"@ != "exchange_confirm"@,
        "steal"@ != "exchange_draw"@,
        "steal"@ != "exchange_confirm"@,
        "exchange_draw"@ != "exchange_confirm"@,
{
    reveal_strlit("income");
    reveal_strlit("foreign_aid");
    reveal_strlit("coup");
    reveal_strlit("tax");
    reveal_strlit("assassinate");
    reveal_strlit("steal");
    reveal_strlit("exchange_draw");
    reveal_strlit("exchange_confirm");
    assert("income"@.len() != "foreign_aid"@.len());
    assert("income"@.len() != "coup"@.len());
    assert("income"@.len() != "tax"@.len());
    assert("income"@.len() != "assassinate"@.len());
    assert("income"@.len() != "steal"@.len());
    assert("income"@.len() != "exchange_draw"@.len());
    assert("income"@.len() != "exchange_confirm"@.len());
    assert("foreign_aid"@.len() != "coup"@.len());
    assert("foreign_aid"@.len() != "tax"@.len());
    assert("foreign_aid"@[0] != "assassinate"@[0]);
    assert("foreign_aid"@.len() != "steal"@.len());
    assert("foreign_aid"@.len() != "exchange_draw"@.len());
    assert("foreign_aid"@.len() != "exchange_confirm"@.len());
    assert("coup"@.len() != "tax"@.len());
    assert("coup"@.len() != "assassinate"@.len());
    assert("coup"@.len() != "steal"@.len());
    assert("coup"@.len() != "exchange_draw"@.len());
    assert("coup"@.len() != "exchange_confirm"@.len());
    assert("tax"@.len() != "assassinate"@.len());
    assert("tax"@.len() != "steal"@.len());
    assert("tax"@.len() != "exchange_draw"@.len());
    assert("tax"@.len() != "exchange_confirm"@.len());
    assert("assassinate"@.len() != "steal"@.len());
    assert("assassinate"@.len() != "exchange_draw"@.len());
    assert("assassinate"@.len() != "exchange_confirm"@.len());
    assert("steal"@.len() != "exchange_draw"@.len());
    assert("steal"@.len() != "exchange_confirm"@.len());
    assert("exchange_draw"@.len() != "exchange_confirm"@.len());
}

/// `i` is the first seat of a living player named `name`.
pub open spec fn is_first_alive_named(ps: Seq<Player>, name: Seq<char>, i: int) -> bool {
    &&& 0 <= i < ps.len()
    &&& ps[i].name@ == name && ps[i].is_alive
    &&& forall|j: int| 0 <= j < i ==> !((#[trigger] ps[j]).name@ == name && ps[j].is_alive)
}

pub open spec fn has_alive_named(ps: Seq<Player>, name: Seq<char>) -> bool {
    exists|i: int| 0 <= i < ps.len() && (#[trigger] ps[i]).name@ == name && ps[i].is_alive
}

pub open spec fn alive_named_seat(ps: Seq<Player>, name: Seq<char>) -> int {
    choose|i: int| is_first_alive_named(ps, name, i)
}

pub open spec fn opt_view(s: Option<&str>) -> Option<Seq<char>> {
    match s {
        Some(x) => Some(x@),
        None => None,
    }
}

/// Why the rules refuse an action declared by `client`, if they do.
pub open spec fn process_check(
    g: Game,
    client: u128,
    action: Seq<char>,
    target_name: Option<Seq<char>>,
    selected: Seq<Card>,
) -> Option<Seq<char>> {
    let ps = g.players@;
    let p = ps[g.current_player as int];
    if g.pending_influence_loss is Some {
        Some("Waiting for a player to choose which influence to lose"@)
    } else if g.turn_context is Some {
        Some("A turn phase is already in progress"@)
    } else if p.uuid != client {
        Some("It's not your turn"@)
    } else if action == "exchange_confirm"@ {
        if p.exchange_cards@.len() == 0 {
            Some("No exchange in progress"@)
        } else if selected.len() != count_hidden(p.cards@) {
            Some("Invalid number of cards selected"@)
        } else if !all_offered(p.exchange_cards@, selected) {
            Some("Invalid card"@)
        } else {
            None
        }
    } else if p.exchange_cards@.len() > 0 {
        Some("Must complete exchange first"@)
    } else if p.coins >= 10 && action != "coup"@ {
        Some("You must coup when you have 10 or more coins"@)
    } else if action_rules(action) is None {
        Some("Unknown action"@)
    } else if p.coins < action_rules(action)->Some_0.cost {
        Some("Not enough coins"@)
    } else if action_rules(action)->Some_0.requires_target {
        match target_name {
            None => Some("Target required"@),
            Some(n) => if !has_alive_named(ps, n) {
                Some("Target not found"@)
            } else if ps[alive_named_seat(ps, n)].uuid == client {
                Some("Cannot target yourself"@)
            } else {
                None
            },
        }
    } else {
        None
    }
}

/// The target a declared action names, once the rules accept it.
pub open spec fn target_of(g: Game, action: Seq<char>, target_name: Option<Seq<char>>) -> Option<u128> {
    if action_rules(action) is Some && action_rules(action)->Some_0.requires_target && target_name is Some {
        Some(g.players@[alive_named_seat(g.players@, target_name->Some_0)].uuid)
    } else {
        None
    }
}

/// What an accepted action needs so that no count overflows and no card is
/// lost: room in the deck for the cards an exchange gives back, room in the
/// bank for the cost, and room in the actor's purse for an income.
pub open spec fn process_fits(
    g: Game,
    client: u128,
    action: Seq<char>,
    target_name: Option<Seq<char>>,
    selected: Seq<Card>,
) -> bool {
    let p = g.players@[g.current_player as int];
    if action == "exchange_confirm"@ {
        g.deck.cards@.len() + returned_cards(p.exchange_cards@, selected).len() <= TOTAL_CARDS
    } else {
        &&& action_rules(action) is Some ==> g.coins + action_rules(action)->Some_0.cost <= 255
        &&& action == "income"@ ==> effect_fits(g, action, client, None)
    }
}

/// The cost of the action is moved from seat `cp` to the bank.
pub open spec fn cost_paid(g0: Game, g1: Game, cp: int, cost: u8) -> bool {
    if cost > 0 {
        &&& g1.players@ == g0.players@.update(cp, with_coins(g0.players@[cp], g0.players@[cp].coins - cost))
        &&& g1 == (Game { players: g1.players, coins: (g0.coins + cost) as u8, ..g0 })
    } else {
        g1 == g0
    }
}

fn find_alive_named(ps: &Vec<Player>, name: &str) -> (r: Option<usize>)
    ensures
        match r {
            Some(i) => is_first_alive_named(ps@, name@, i as int) && alive_named_seat(ps@, name@) == i
                && has_alive_named(ps@, name@),
            None => !has_alive_named(ps@, name@),
        },
{
    let mut i: usize = 0;
    while i < ps.len()
        invariant
            i <= ps@.len(),
            forall|j: int| 0 <= j < i ==> !((#[trigger] ps@[j]).name@ == name@ && ps@[j].is_alive),
        decreases ps@.len() - i,
    {
        if str_eq(ps[i].name.as_str(), name) && ps[i].is_alive {
            assert(is_first_alive_named(ps@, name@, i as int));
            proof {
                let k = choose|k: int| is_first_alive_named(ps@, name@, k);
                assert(k == i);
            }
            return Some(i);
        }
        i = i + 1;
    }
    None
}

fn cards_contained(exchange: &Vec<Card>, selected: &Vec<Card>) -> (r: bool)
    ensures
        r == all_offered(exchange@, selected@),
{
    let mut k: usize = 0;
    while k < selected.len()
        invariant
            k <= selected@.len(),
            forall|j: int| 0 <= j < k ==> exchange@.contains(#[trigger] selected@[j]),
        decreases selected@.len() - k,
    {
        let mut found = false;
        let mut i: usize = 0;
        while i < exchange.len() && !found
            invariant
                i <= exchange@.len(),
                k < selected@.len(),
                found ==> exchange@.contains(selected@[k as int]),
                !found ==> forall|j: int| 0 <= j < i ==> exchange@[j] != selected@[k as int],
            decreases exchange@.len() - i, if found { 0int } else { 1int },
        {
            if exchange[i] == selected[k] {
                found = true;
                assert(exchange@[i as int] == selected@[k as int]);
            } else {
                i = i + 1;
            }
        }
        if !found {
            assert(!exchange@.contains(selected@[k as int]));
            return false;
        }
        k = k + 1;
    }
    true
}

/// Why the rules refuse an action declared by `client`, if they do; nothing
/// is changed.
pub fn check_action(
    game: &Game,
    client_uuid: &u128,
    action: &str,
    target_name: Option<&str>,
    selected_cards: &Vec<Card>,
) -> (r: Option<String>)
    requires
        game.pending_influence_loss is None && game.turn_context is None
            ==> game.current_player < game.players@.len(),
    ensures
        match r {
            Some(m) => process_check(*game, *client_uuid, action@, opt_view(target_name), selected_cards@)
                == Some(m@),
            None => process_check(*game, *client_uuid, action@, opt_view(target_name), selected_cards@) is None,
        },
{
    if game.pending_influence_loss.is_some() {
        return Some("Waiting for a player to choose which influence to lose".to_owned());
    }
    if game.turn_context.is_some() {
        return Some("A turn phase is already in progress".to_owned());
    }
    let p = &game.players[game.current_player];
    if p.uuid != *client_uuid {
        return Some("It's not your turn".to_owned());
    }
    if str_eq(action, "exchange_confirm") {
        if p.exchange_cards.len() == 0 {
            return Some("No exchange in progress".to_owned());
        }
        if selected_cards.len() != hidden_count(&p.cards) {
            return Some("Invalid number of cards selected".to_owned());
        }
        if !cards_contained(&p.exchange_cards, selected_cards) {
            return Some("Invalid card".to_owned());
        }
        return None;
    }
    if p.exchange_cards.len() > 0 {
        return Some("Must complete exchange first".to_owned());
    }
    if p.coins >= 10 && !str_eq(action, "coup") {
        return Some("You must coup when you have 10 or more coins".to_owned());
    }
    let props = match get_action_properties(action) {
        Some(props) => props,
        None => {
            return Some("Unknown action".to_owned());
        },
    };
    if p.coins < props.cost {
        return Some("Not enough coins".to_owned());
    }
    if props.requires_target {
        match target_name {
            None => {
                return Some("Target required".to_owned());
            },
            Some(name) => match find_alive_named(&game.players, name) {
                None => {
                    return Some("Target not found".to_owned());
                },
                Some(t) => {
                    if game.players[t].uuid == *client_uuid {
                        return Some("Cannot target yourself".to_owned());
                    }
                },
            },
        }
    }
    None
}

/// Whether an action that the rules accept can be carried out without a
/// count overflowing or a card having no room in the deck.
pub fn action_fits(
    game: &Game,
    client_uuid: &u128,
    action: &str,
    target_name: Option<&str>,
    selected_cards: &Vec<Card>,
) -> (r: bool)
    requires
        game.current_player < game.players@.len(),
    ensures
        r == process_fits(*game, *client_uuid, action@, opt_view(target_name), selected_cards@),
{
    let p = &game.players[game.current_player];
    if str_eq(action, "exchange_confirm") {
        let mut returned: usize = 0;
        let mut m: usize = 0;
        while m < p.exchange_cards.len()
            invariant
                m <= p.exchange_cards@.len(),
                returned == returned_cards(p.exchange_cards@.take(m as int), selected_cards@).len(),
                returned <= m,
            decreases p.exchange_cards@.len() - m,
        {
            proof {
                crate::player::lemma_returned_step(p.exchange_cards@, selected_cards@, m as int);
            }
            let c = p.exchange_cards[m];
            let offered = crate::player::count_copies(p.exchange_cards.as_slice(), m + 1, &c);
            let kept = crate::player::count_copies(selected_cards.as_slice(), selected_cards.len(), &c);
            proof { assert(selected_cards@.take(selected_cards@.len() as int) =~= selected_cards@); }
            if offered > kept {
                returned = returned + 1;
            }
            m = m + 1;
        }
        assert(p.exchange_cards@.take(p.exchange_cards@.len() as int) =~= p.exchange_cards@);
        return game.deck.cards.len() <= TOTAL_CARDS && returned <= TOTAL_CARDS - game.deck.cards.len();
    }
    let fits_cost = match get_action_properties(action) {
        Some(props) => game.coins as u16 + props.cost as u16 <= 255,
        None => true,
    };
    if !fits_cost {
        return false;
    }
    if str_eq(action, "income") {
        match find_seat(&game.players, *client_uuid) {
            Some(a) => game.coins == 0 || game.players[a].coins < 255,
            None => true,
        }
    } else {
        true
    }
}

/// Declaring `action` (naming `target_name`, selecting `selected`) as
/// `client` takes table `g0` to `g1` with result `r`: a refused declaration
/// changes nothing; an exchange confirmation swaps the cards; an income or a
/// coup is paid and carried out; any other action is paid and opens the
/// phase waiting for challenges (if it claims a role) or blocks.
pub open spec fn process_post(
    g0: Game,
    g1: Game,
    client: u128,
    action: Seq<char>,
    target_name: Option<Seq<char>>,
    selected: Seq<Card>,
    r: Result<ActionOutcome, String>,
) -> bool {
    let ps = g0.players@;
    let cp = g0.current_player as int;
    let p = ps[cp];
    let check = process_check(g0, client, action, target_name, selected);
    let rules = action_rules(action)->Some_0;
    let target = target_of(g0, action, target_name);
    match check {
        Some(m) => err_is(r, m) && g1 == g0,
        None => if action == "exchange_confirm"@ {
            &&& ok_is(r, ActionOutcome::TurnComplete)
            &&& g1.players@ == ps.update(cp, g1.players@[cp])
            &&& g1.players@[cp].cards@ == crate::player::replace_hidden(p.cards@, selected)
            &&& g1.players@[cp].exchange_cards@ == Seq::<Card>::empty()
            &&& g1.players@[cp] == (Player {
                cards: g1.players@[cp].cards,
                exchange_cards: g1.players@[cp].exchange_cards,
                ..p
            })
            &&& g1.deck.cards@ == g0.deck.cards@ + returned_cards(p.exchange_cards@, selected)
            &&& g1 == (Game { players: g1.players, deck: g1.deck, ..g0 })
        } else if rules.claimed_role is None && rules.blockable_by.len() == 0 {
            exists|gm: Game| cost_paid(g0, gm, cp, rules.cost)
                && #[trigger] effect_post(gm, g1, action, client, target, r)
        } else {
            &&& ok_is(r, ActionOutcome::PhaseStarted)
            &&& g1.players@ == ps.update(cp, with_coins(p, p.coins - rules.cost))
            &&& g1.coins == g0.coins + rules.cost
            &&& g1.turn_context is Some
            &&& ({
                let ctx = g1.turn_context->Some_0;
                &&& ctx.action@ == action
                &&& ctx.actor_uuid == p.uuid
                &&& ctx.actor_name == p.name
                &&& ctx.target_uuid == target
                &&& (match ctx.target_name {
                    Some(t) => rules.requires_target && target_name == Some(t@),
                    None => !rules.requires_target,
                })
                &&& ctx.claimed_role == rules.claimed_role
                &&& ctx.phase == (if rules.claimed_role is Some {
                    TurnPhase::AwaitingChallengeResponses
                } else {
                    TurnPhase::AwaitingBlockResponses
                })
                &&& ctx.timer_generation == 0
                &&& ctx.responded@ == Set::<u128>::empty()
                &&& ctx.block_info is None
                &&& ctx.after_influence_loss is None
            })
            &&& g1 == (Game { players: g1.players, coins: g1.coins, turn_context: g1.turn_context, ..g0 })
        },
    }
}

/// Declares an action for the player whose turn it is. Rejected actions
/// change nothing. The cost is paid at once; an exchange confirmation, an
/// income and a coup take effect at once; the other actions open a turn
/// phase that waits for challenges or blocks.
pub fn process_action(
    game: &mut Game,
    client_uuid: &u128,
    action: &str,
    target_name: Option<&str>,
    selected_cards: Vec<Card>,
) -> (r: Result<ActionOutcome, String>)
    requires
        old(game).pending_influence_loss is None && old(game).turn_context is None
            ==> old(game).current_player < old(game).players@.len(),
        process_check(*old(game), *client_uuid, action@, opt_view(target_name), selected_cards@) is None
            ==> process_fits(*old(game), *client_uuid, action@, opt_view(target_name), selected_cards@),
    ensures
        process_post(*old(game), *final(game), *client_uuid, action@, opt_view(target_name), selected_cards@, r),
{
    proof {
        lemma_action_names_distinct();
    }
    match check_action(game, client_uuid, action, target_name, &selected_cards) {
        Some(e) => {
            return Err(e);
        },
        None => {},
    }
    let player_index = game.current_player;
    if str_eq(action, "exchange_confirm") {
        let ghost g0 = *game;
        let mut temp = game.players.remove(player_index);
        let res = temp.exchange_confirm(game, selected_cards.as_slice());
        game.players.insert(player_index, temp);
        assert(game.players@ =~= g0.players@.update(player_index as int, game.players@[player_index as int]));
        return match res {
            Ok(_) => Ok(ActionOutcome::TurnComplete),
            Err(e) => Err(e.to_owned()),
        };
    }
    let props = match get_action_properties(action) {
        Some(props) => props,
        None => {
            return err("Unknown action");
        },
    };
    let mut target_uuid: Option<u128> = None;
    let mut target_name_owned: Option<String> = None;
    if props.requires_target {
        match target_name {
            Some(name) => match find_alive_named(&game.players, name) {
                Some(t) => {
                    target_uuid = Some(game.players[t].uuid);
                    target_name_owned = Some(name.to_owned());
                },
                None => {},
            },
            None => {},
        }
    }
    let ghost g0 = *game;
    if props.cost > 0 {
        game.players[player_index].coins = game.players[player_index].coins - props.cost;
        game.coins = game.coins + props.cost;
    }
    let ghost gm = *game;
    assert(cost_paid(g0, gm, player_index as int, props.cost));
    proof {
        let pi = player_index as int;
        if props.cost == 0 {
            assert(g0.players@.update(pi, with_coins(g0.players@[pi], g0.players@[pi].coins - props.cost))
                =~= g0.players@);
        }
    }
    let is_challengeable = props.claimed_role.is_some();
    let is_blockable = props.blockable_by.len() > 0;
    if !is_challengeable && !is_blockable {
        let r = execute_action_effect(game, action, *client_uuid, target_uuid);
        assert(effect_post(gm, *game, action@, *client_uuid, target_uuid, r));
        return r;
    }
    let first_phase = if is_challengeable {
        TurnPhase::AwaitingChallengeResponses
    } else {
        TurnPhase::AwaitingBlockResponses
    };
    let actor_uuid = game.players[player_index].uuid;
    let actor_name = game.players[player_index].name.clone();
    game.turn_context = Some(TurnContext::new(
        action.to_owned(),
        actor_uuid,
        actor_name,
        target_uuid,
        target_name_owned,
        props.claimed_role,
        first_phase,
    ));
    Ok(ActionOutcome::PhaseStarted)
}

/// The hands and the deck hold the same cards as before, seat by seat.
pub open spec fn same_cards(g0: Game, g1: Game) -> bool {
    &&& g1.deck.cards@ == g0.deck.cards@
    &&& g1.players@.len() == g0.players@.len()
    &&& forall|j: int| 0 <= j < g0.players@.len() ==> {
        &&& (#[trigger] g1.players@[j]).cards@ == g0.players@[j].cards@
        &&& g1.players@[j] == (Player { cards: g1.players@[j].cards, ..g0.players@[j] })
    }
    &&& g1 == (Game { players: g1.players, deck: g1.deck, ..g0 })
}

/// `j` is the first card of the hand that is a hidden card of `role`.
pub open spec fn is_first_hidden_of(s: Seq<Card>, role: Role, j: int) -> bool {
    &&& 0 <= j < s.len()
    &&& s[j] == hidden_card(role)
    &&& forall|i: int| 0 <= i < j ==> #[trigger] s[i] != hidden_card(role)
}

/// Table `g1` is `g0` after card `j` of seat `k`, a hidden card of `role`,
/// went face down onto the deck, the deck was shuffled into the order `sh`,
/// and the top card of `sh` was drawn face down into the card's place.
pub open spec fn swapped_through(g0: Game, g1: Game, k: int, j: int, role: Role, sh: Seq<Card>) -> bool {
    let ps = g0.players@;
    &&& sh.len() == g0.deck.cards@.len() + 1
    &&& sh.to_multiset() == g0.deck.cards@.push(hidden_card(role)).to_multiset()
    &&& g1.deck.cards@ == sh.drop_last()
    &&& g1.players@.len() == ps.len()
    &&& forall|i: int| 0 <= i < ps.len() && i != k ==> #[trigger] g1.players@[i] == ps[i]
    &&& g1.players@[k].cards@ == ps[k].cards@.update(j, hidden_card(sh.last().role))
    &&& g1.players@[k] == (Player { cards: g1.players@[k].cards, ..ps[k] })
    &&& g1 == (Game { players: g1.players, deck: g1.deck, ..g0 })
}

/// Table `g1` is `g0` after the player seated as `u` swapped the first
/// hidden card of `role` in its hand for one from the shuffled deck. When
/// the player is not seated, holds no such card, or the deck is full, the
/// cards stay where they are.
pub open spec fn card_swapped(g0: Game, g1: Game, u: u128, role: Role) -> bool {
    let ps = g0.players@;
    let k = seat_of(ps, u);
    let hand = ps[k].cards@;
    if has_seat(ps, u) && (exists|j: int| is_first_hidden_of(hand, role, j)) && g0.deck.cards@.len() < TOTAL_CARDS {
        let j = choose|j: int| is_first_hidden_of(hand, role, j);
        exists|sh: Seq<Card>| #[trigger] swapped_through(g0, g1, k, j, role, sh)
    } else {
        same_cards(g0, g1)
    }
}

/// Used when a player defends a claim: the hidden card of the claimed role
/// goes back into the deck face down, the deck is shuffled, and the top card
/// is drawn in its place.
pub fn swap_revealed_card(game: &mut Game, player_uuid: u128, role: Role)
    ensures
        card_swapped(*old(game), *final(game), player_uuid, role),
{
    let ghost g0 = *game;
    let player_index = match find_seat(&game.players, player_uuid) {
        Some(i) => i,
        None => {
            return;
        },
    };
    let ghost hand = g0.players@[player_index as int].cards@;
    let mut k: usize = 0;
    while k < game.players[player_index].cards.len()
        && !(game.players[player_index].cards[k].role == role && !game.players[player_index].cards[k].visible)
        invariant
            player_index < game.players@.len(),
            *game == g0,
            hand == g0.players@[player_index as int].cards@,
            k <= hand.len(),
            forall|i: int| 0 <= i < k ==> #[trigger] hand[i] != hidden_card(role),
        decreases hand.len() - k,
    {
        k = k + 1;
    }
    if k == game.players[player_index].cards.len() {
        assert forall|j: int| !is_first_hidden_of(hand, role, j) by {
            if is_first_hidden_of(hand, role, j) {
                assert(hand[j] == hidden_card(role));
            }
        }
        return;
    }
    let old_card = game.players[player_index].cards[k];
    assert(old_card == hidden_card(role));
    assert(is_first_hidden_of(hand, role, k as int));
    proof {
        let j = choose|j: int| is_first_hidden_of(hand, role, j);
        if j < k {
            assert(hand[j] != hidden_card(role));
        }
        if k < j {
            assert(hand[k as int] != hidden_card(role));
        }
        assert(j == k);
    }
    if game.deck.return_card(old_card).is_ok() {
        game.deck.shuffle();
        let ghost sh = game.deck.cards@;
        match game.deck.draw() {
            Some(new_card) => {
                game.players[player_index].cards.set(k, new_card);
                assert(swapped_through(g0, *game, player_index as int, k as int, role, sh));
            },
            None => {},
        }
    } else {
        assert(game.deck.cards@ =~= g0.deck.cards@);
        assert forall|j: int| 0 <= j < g0.players@.len() implies {
            &&& (#[trigger] game.players@[j]).cards@ == g0.players@[j].cards@
            &&& game.players@[j] == (Player { cards: game.players@[j].cards, ..g0.players@[j] })
        } by {}
    }
}

} // verus!
