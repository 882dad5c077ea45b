use vstd::prelude::*;
use crate::actions::{effect_fits, effect_post, lemma_action_names_distinct, min_int, ok_is, paid_from_bank};
use crate::card::{Card, hidden_card};
use crate::deck::TOTAL_CARDS;
use crate::game::{
    ActionOffer, Game, alive_count, alive_targets, expected_actions, has_seat, is_first_seat, offer, offer_if, seat_of,
    stealable_targets,
};
use crate::handlers::{choice_then, influence_chosen};
use crate::laws::{lemma_first_alive_named, lemma_seat_of};
use crate::actions::{card_swapped, is_first_hidden_of, swapped_through, alive_named_seat, is_first_alive_named, process_check, process_post};
use crate::phases::{
    after_effect, block_challenge_resolved, blockable, carried_out, challenge_resolved, challenge_text, result_sent, seat_ids, seat_name, holds_role, influence_required, lemma_alive_exists,
    lost_influence, passed_turn, rewarded, turn_finished, went_on,
};
use crate::player::{Player, count_hidden};
use crate::server::Outgoing;
use crate::turn_phase::{AfterInfluenceLoss, TurnContext, TurnPhase};
use crate::actions::ActionOutcome;

verus! {

/// The hand holds a face-down card of the role.
pub open spec fn has_face_down(hand: Seq<Card>, role: crate::card::Role) -> bool {
    exists|j: int| 0 <= j < hand.len() && #[trigger] hand[j] == hidden_card(role)
}

/// At table `g0` a foreign aid was blocked by a player who holds no
/// face-down card of the role it claimed; the actor is seated, alive and not
/// the blocker.
pub open spec fn bluffed_foreign_aid_block(g0: Game) -> bool {
    let ps = g0.players@;
    match g0.turn_context {
        Some(c) => match c.block_info {
            Some(b) => {
                &&& c.action@ == "foreign_aid"@
                &&& b.blocker_uuid != c.actor_uuid
                &&& has_seat(ps, b.blocker_uuid)
                &&& !has_face_down(ps[seat_of(ps, b.blocker_uuid)].cards@, b.claimed_role)
                &&& has_seat(ps, c.actor_uuid)
                &&& ps[seat_of(ps, c.actor_uuid)].is_alive
            },
            None => false,
        },
        None => false,
    }
}

/// How many face-down cards the blocker of table `g0` holds.
pub open spec fn blocker_hidden(g0: Game) -> nat {
    let ps = g0.players@;
    count_hidden(ps[seat_of(ps, g0.turn_context->Some_0.block_info->Some_0.blocker_uuid)].cards@)
}

/// The bank of table `g` once `challenger` was paid a coin for a won
/// challenge: one coin less when the challenger is seated and the bank has
/// one.
pub open spec fn bank_after_reward(g: Game, challenger: u128) -> int {
    if has_seat(g.players@, challenger) && g.coins > 0 {
        g.coins - 1
    } else {
        g.coins as int
    }
}

/// The purse of `actor` at table `g` once `challenger` was paid a coin for a
/// won challenge: one coin more when the actor is the challenger.
pub open spec fn purse_after_reward(g: Game, challenger: u128, actor: u128) -> int {
    let ps = g.players@;
    ps[seat_of(ps, actor)].coins + if challenger == actor { 1int } else { 0int }
}

/// Tables whose seats hold the same players, in the same order, find a
/// player at the same seat.
proof fn lemma_seats_kept(ps0: Seq<Player>, ps1: Seq<Player>, u: u128)
    requires
        ps1.len() == ps0.len(),
        forall|k: int| 0 <= k < ps0.len() ==> (#[trigger] ps1[k]).uuid == ps0[k].uuid,
        has_seat(ps0, u),
    ensures
        has_seat(ps1, u),
        seat_of(ps1, u) == seat_of(ps0, u),
        is_first_seat(ps0, u, seat_of(ps0, u)),
{
    lemma_seat_of(ps0, u);
    let i0 = seat_of(ps0, u);
    assert(ps1[i0].uuid == u);
    assert(has_seat(ps1, u));
    lemma_seat_of(ps1, u);
    let i1 = seat_of(ps1, u);
    if i1 < i0 {
        assert(ps0[i1].uuid != u);
    } else if i0 < i1 {
        assert(ps1[i0].uuid != u);
    }
}

/// Two players with different identifiers have different first seats.
proof fn lemma_distinct_seats(ps: Seq<Player>, u: u128, v: u128)
    requires
        has_seat(ps, u),
        has_seat(ps, v),
        u != v,
    ensures
        seat_of(ps, u) != seat_of(ps, v),
{
    lemma_seat_of(ps, u);
    lemma_seat_of(ps, v);
}

/// What paying a challenger's reward changes: only the challenger's purse
/// and the bank.
proof fn lemma_reward_facts(g0: Game, g1: Game, challenger: u128, actor: u128)
    requires
        rewarded(g0, g1, challenger),
        has_seat(g0.players@, actor),
        has_seat(g0.players@, challenger) ==> g0.players@[seat_of(g0.players@, challenger)].coins < 255,
    ensures
        g1.players@.len() == g0.players@.len(),
        forall|k: int| 0 <= k < g0.players@.len() ==> (#[trigger] g1.players@[k]).uuid == g0.players@[k].uuid
            && g1.players@[k].cards@ == g0.players@[k].cards@ && g1.players@[k].is_alive
            == g0.players@[k].is_alive,
        has_seat(g1.players@, actor),
        seat_of(g1.players@, actor) == seat_of(g0.players@, actor),
        g1.players@[seat_of(g0.players@, actor)].coins == purse_after_reward(g0, challenger, actor),
        g1.coins == bank_after_reward(g0, challenger),
        g1.turn_context == g0.turn_context,
        g1.current_player == g0.current_player,
{
    let ps = g0.players@;
    if has_seat(ps, challenger) {
        let k = seat_of(ps, challenger);
        lemma_seat_of(ps, challenger);
        assert forall|j: int| 0 <= j < ps.len() implies (#[trigger] g1.players@[j]).uuid == ps[j].uuid
            && g1.players@[j].cards@ == ps[j].cards@ && g1.players@[j].is_alive == ps[j].is_alive by {
            if j == k {
                assert(g1.players@[j] == crate::actions::with_coins(ps[k], ps[k].coins + 1));
            }
        }
        lemma_seats_kept(ps, g1.players@, actor);
        if challenger != actor {
            lemma_distinct_seats(ps, challenger, actor);
            assert(g1.players@[seat_of(ps, actor)] == ps[seat_of(ps, actor)]);
        } else {
            assert(g1.players@[k] == crate::actions::with_coins(ps[k], ps[k].coins + 1));
        }
    } else {
        lemma_seats_kept(ps, g1.players@, actor);
        if challenger == actor {
            assert(false);
        }
    }
}

/// The coins an income, a foreign aid or a tax asks of the bank.
pub open spec fn bank_pay(action: Seq<char>) -> int {
    if action == "income"@ {
        1
    } else if action == "foreign_aid"@ {
        2
    } else if action == "tax"@ {
        3
    } else {
        0
    }
}

/// Carrying out a foreign aid or a tax for an actor who is alive and has
/// room in its purse pays it from the bank (what it asks, or what the bank
/// holds when it holds fewer); every other purse keeps its coins.
proof fn lemma_bank_action_carried_out(g2: Game, gf: Option<Game>, o0: Seq<Outgoing>, o1: Seq<Outgoing>)
    requires
        carried_out(g2, gf, o0, o1),
        g2.turn_context is Some,
        g2.turn_context->Some_0.action@ == "foreign_aid"@ || g2.turn_context->Some_0.action@ == "tax"@,
        has_seat(g2.players@, g2.turn_context->Some_0.actor_uuid),
        g2.players@[seat_of(g2.players@, g2.turn_context->Some_0.actor_uuid)].is_alive,
        g2.current_player != usize::MAX,
        g2.players@[seat_of(g2.players@, g2.turn_context->Some_0.actor_uuid)].coins + min_int(
            g2.coins as int,
            bank_pay(g2.turn_context->Some_0.action@),
        ) <= 255,
    ensures
        ({
            let a = seat_of(g2.players@, g2.turn_context->Some_0.actor_uuid);
            let m = min_int(g2.coins as int, bank_pay(g2.turn_context->Some_0.action@));
            &&& gf is Some
            &&& gf->Some_0.players@.len() == g2.players@.len()
            &&& gf->Some_0.players@[a].coins == g2.players@[a].coins + m
            &&& gf->Some_0.coins == g2.coins - m
            &&& forall|k: int| 0 <= k < g2.players@.len() && k != a ==> (#[trigger] gf->Some_0.players@[k]).coins
                == g2.players@[k].coins
        }),
{
    lemma_action_names_distinct();
    let c = g2.turn_context->Some_0;
    let ps = g2.players@;
    let a = seat_of(ps, c.actor_uuid);
    lemma_seat_of(ps, c.actor_uuid);
    assert(effect_fits(g2, c.action@, c.actor_uuid, c.target_uuid));
    assert(after_effect(g2, gf, c.action@, c.actor_uuid, c.target_uuid, o0, o1));
    let (ge, r) = choose|ge: Game, r: Result<ActionOutcome, String>| {
        &&& #[trigger] effect_post(g2, ge, c.action@, c.actor_uuid, c.target_uuid, r)
        &&& match r {
            Ok(ActionOutcome::WaitingForInfluenceChoice(t)) => gf == Some(ge) && crate::phases::choice_asked(
                ge,
                t,
                o0,
                o1,
            ),
            Ok(ActionOutcome::WaitingForExchange) => gf == Some(Game { turn_context: None, ..ge })
                && crate::phases::table_shown(Game { turn_context: None, ..ge }, o0, o1),
            _ => turn_finished(Game { turn_context: None, ..ge }, gf, o0, o1),
        }
    };
    let m = min_int(g2.coins as int, bank_pay(c.action@));
    assert(ok_is(r, ActionOutcome::TurnComplete));
    assert(paid_from_bank(g2, ge, a, m));
    let gn = Game { turn_context: None, ..ge };
    assert(turn_finished(gn, gf, o0, o1));
    assert(gn.players@[a].is_alive);
    lemma_alive_exists(gn.players@);
    assert(alive_count(gn.players@) > 0);
    if alive_count(gn.players@) != 1 {
        assert(passed_turn(gn, gf));
    }
}

/// A turn that ends, at a table where someone is alive, leaves every purse
/// and the bank as they are.
proof fn lemma_turn_ends(
    g2: Game,
    gf: Option<Game>,
    after: AfterInfluenceLoss,
    o0: Seq<Outgoing>,
    o1: Seq<Outgoing>,
    u: u128,
    k: int,
)
    requires
        went_on(g2, gf, after, o0, o1, u),
        after == AfterInfluenceLoss::TurnEnds || after == AfterInfluenceLoss::BlockSucceeds,
        g2.current_player != usize::MAX,
        0 <= k < g2.players@.len(),
        g2.players@[k].is_alive,
    ensures
        gf is Some,
        gf->Some_0.players@.len() == g2.players@.len(),
        forall|j: int| 0 <= j < g2.players@.len() ==> (#[trigger] gf->Some_0.players@[j]).coins
            == g2.players@[j].coins,
        gf->Some_0.coins == g2.coins,
{
    let gn = Game { turn_context: None, ..g2 };
    assert(turn_finished(gn, gf, o0, o1));
    lemma_alive_exists(gn.players@);
    assert(alive_count(gn.players@) > 0);
    if alive_count(gn.players@) != 1 {
        assert(passed_turn(gn, gf));
    }
}

/// Losing influence at once changes no purse, no seat and no other hand.
proof fn lemma_lost_keeps_purses(g1: Game, g2: Game, v: u128)
    requires
        lost_influence(g1, g2, v),
    ensures
        g2.players@.len() == g1.players@.len(),
        forall|k: int| 0 <= k < g1.players@.len() ==> (#[trigger] g2.players@[k]).uuid == g1.players@[k].uuid
            && g2.players@[k].coins == g1.players@[k].coins,
        has_seat(g1.players@, v) ==> forall|k: int| 0 <= k < g1.players@.len() && k != seat_of(g1.players@, v)
            ==> #[trigger] g2.players@[k] == g1.players@[k],
        !has_seat(g1.players@, v) ==> g2.players@ == g1.players@,
        g2.turn_context == g1.turn_context,
        g2.current_player == g1.current_player,
        g2.coins == g1.coins,
{
    let ps = g1.players@;
    if has_seat(ps, v) {
        lemma_seat_of(ps, v);
    }
    if has_seat(ps, v) && count_hidden(ps[seat_of(ps, v)].cards@) == 1 {
        let k = seat_of(ps, v);
        assert forall|j: int| 0 <= j < ps.len() implies (#[trigger] g2.players@[j]).uuid == ps[j].uuid
            && g2.players@[j].coins == ps[j].coins by {
            if j == k {
                assert(g2.players@[j] == (Player { cards: g2.players@[j].cards, is_alive: false, ..ps[k] }));
            }
        }
    }
}

/// A block claimed by a bluffer and challenged stands no more: once the
/// blocker has lost influence at once (with fewer than two face-down cards),
/// the foreign aid it blocked is paid to the actor from the bank (two coins,
/// or what the bank holds), after the challenger's coin for the won
/// challenge. This holds for every table where the actor is alive, is not
/// the blocker, and has room in its purse.
pub proof fn law_bluffed_block_pays_foreign_aid(
    g0: Game,
    gf: Option<Game>,
    challenger: u128,
    o0: Seq<Outgoing>,
    o1: Seq<Outgoing>,
    u: u128,
)
    requires
        block_challenge_resolved(g0, gf, challenger, o0, o1, u),
        bluffed_foreign_aid_block(g0),
        blocker_hidden(g0) < 2,
        g0.current_player != usize::MAX,
        has_seat(g0.players@, challenger) ==> g0.players@[seat_of(g0.players@, challenger)].coins < 255,
        purse_after_reward(g0, challenger, g0.turn_context->Some_0.actor_uuid) + min_int(
            bank_after_reward(g0, challenger),
            2,
        ) <= 255,
    ensures
        ({
            let actor = g0.turn_context->Some_0.actor_uuid;
            let a = seat_of(g0.players@, actor);
            let bank = bank_after_reward(g0, challenger);
            &&& gf is Some
            &&& gf->Some_0.players@[a].coins == purse_after_reward(g0, challenger, actor) + min_int(bank, 2)
            &&& gf->Some_0.coins == bank - min_int(bank, 2)
        }),
{
    let c = g0.turn_context->Some_0;
    let b = c.block_info->Some_0;
    let ps = g0.players@;
    let bs = seat_of(ps, b.blocker_uuid);
    let a = seat_of(ps, c.actor_uuid);
    assert(!holds_role(ps, b.blocker_uuid, b.claimed_role)) by {
        if holds_role(ps, b.blocker_uuid, b.claimed_role) {
            let j = choose|j: int| 0 <= j < ps[bs].cards@.len() && (#[trigger] ps[bs].cards@[j]).role
                == b.claimed_role && !ps[bs].cards@[j].visible;
            assert(ps[bs].cards@[j] == hidden_card(b.claimed_role));
        }
    }
    let o0b = o0.push(o1[o0.len() as int]);
    let g1 = choose|g1: Game| #[trigger] rewarded(g0, g1, challenger) && influence_required(
        g1,
        gf,
        b.blocker_uuid,
        AfterInfluenceLoss::ExecuteAction,
        o0b,
        o1,
        u,
    );
    lemma_reward_facts(g0, g1, challenger, c.actor_uuid);
    lemma_seats_kept(ps, g1.players@, b.blocker_uuid);
    lemma_distinct_seats(ps, b.blocker_uuid, c.actor_uuid);
    let ps1 = g1.players@;
    assert(count_hidden(ps1[bs].cards@) < 2);
    let g2 = choose|g2: Game| #[trigger] lost_influence(g1, g2, b.blocker_uuid) && went_on(
        g2,
        gf,
        AfterInfluenceLoss::ExecuteAction,
        o0b,
        o1,
        u,
    );
    let ps2 = g2.players@;
    assert(ps2.len() == ps1.len() && forall|k: int| 0 <= k < ps1.len() ==> (#[trigger] ps2[k]).uuid == ps1[k].uuid
        && (k != bs ==> ps2[k] == ps1[k])) by {
        if count_hidden(ps1[bs].cards@) == 1 {
            assert forall|k: int| 0 <= k < ps1.len() implies (#[trigger] ps2[k]).uuid == ps1[k].uuid && (k != bs
                ==> ps2[k] == ps1[k]) by {}
        }
    }
    lemma_seats_kept(ps1, ps2, c.actor_uuid);
    assert(ps2[a] == ps1[a]);
    assert(carried_out(g2, gf, o0b, o1));
    lemma_action_names_distinct();
    assert(bank_pay(c.action@) == 2);
    lemma_bank_action_carried_out(g2, gf, o0b, o1);
}

/// A block claimed by a bluffer and challenged stands no more: when the
/// blocker (with two face-down cards or more) is asked which one to give up
/// and gives one up, the turn goes on to pay the foreign aid it blocked to
/// the actor from the bank (two coins, or what the bank holds), after the
/// challenger's coin for the won challenge. This holds for every table where
/// the actor is alive, is not the blocker, and has room in its purse.
pub proof fn law_bluffed_block_pays_foreign_aid_after_choice(
    g0: Game,
    g1: Game,
    g2: Game,
    gf: Option<Game>,
    challenger: u128,
    name: Seq<char>,
    o0: Seq<Outgoing>,
    o1: Seq<Outgoing>,
    out: Seq<Outgoing>,
    u: u128,
)
    requires
        block_challenge_resolved(g0, Some(g1), challenger, o0, o1, u),
        bluffed_foreign_aid_block(g0),
        blocker_hidden(g0) >= 2,
        g0.turn_context->Some_0.timer_generation < u64::MAX,
        g0.current_player != usize::MAX,
        has_seat(g0.players@, challenger) ==> g0.players@[seat_of(g0.players@, challenger)].coins < 255,
        purse_after_reward(g0, challenger, g0.turn_context->Some_0.actor_uuid) + min_int(
            bank_after_reward(g0, challenger),
            2,
        ) <= 255,
        ({
            let bs = seat_of(g1.players@, g0.turn_context->Some_0.block_info->Some_0.blocker_uuid);
            &&& g2.players@ == g1.players@.update(bs, g2.players@[bs])
            &&& influence_chosen(g1.players@[bs], g2.players@[bs], name)
            &&& g2 == (Game { players: g2.players, ..g1 })
        }),
        choice_then(g2, gf, out, u),
    ensures
        ({
            let actor = g0.turn_context->Some_0.actor_uuid;
            let a = seat_of(g0.players@, actor);
            let bank = bank_after_reward(g0, challenger);
            &&& gf is Some
            &&& gf->Some_0.players@[a].coins == purse_after_reward(g0, challenger, actor) + min_int(bank, 2)
            &&& gf->Some_0.coins == bank - min_int(bank, 2)
        }),
{
    let c = g0.turn_context->Some_0;
    let b = c.block_info->Some_0;
    let ps = g0.players@;
    let bs = seat_of(ps, b.blocker_uuid);
    let a = seat_of(ps, c.actor_uuid);
    assert(!holds_role(ps, b.blocker_uuid, b.claimed_role)) by {
        if holds_role(ps, b.blocker_uuid, b.claimed_role) {
            let j = choose|j: int| 0 <= j < ps[bs].cards@.len() && (#[trigger] ps[bs].cards@[j]).role
                == b.claimed_role && !ps[bs].cards@[j].visible;
            assert(ps[bs].cards@[j] == hidden_card(b.claimed_role));
        }
    }
    let o0b = o0.push(o1[o0.len() as int]);
    let gr = choose|gr: Game| #[trigger] rewarded(g0, gr, challenger) && influence_required(
        gr,
        Some(g1),
        b.blocker_uuid,
        AfterInfluenceLoss::ExecuteAction,
        o0b,
        o1,
        u,
    );
    lemma_reward_facts(g0, gr, challenger, c.actor_uuid);
    lemma_seats_kept(ps, gr.players@, b.blocker_uuid);
    lemma_distinct_seats(ps, b.blocker_uuid, c.actor_uuid);
    assert(count_hidden(gr.players@[bs].cards@) >= 2);
    assert(g1 == Game {
        pending_influence_loss: Some(b.blocker_uuid),
        turn_context: Some(
            TurnContext {
                after_influence_loss: Some(AfterInfluenceLoss::ExecuteAction),
                timer_generation: (c.timer_generation + 1) as u64,
                ..c
            },
        ),
        ..gr
    });
    let ps1 = g1.players@;
    assert(ps1 == gr.players@);
    let p0 = ps1[bs];
    let p1 = g2.players@[bs];
    assert(p1.uuid == p0.uuid && p1.coins == p0.coins && p1.is_alive == p0.is_alive) by {
        assert(count_hidden(p0.cards@) != 1);
    }
    let g3 = Game {
        pending_influence_loss: None,
        turn_context: Some(TurnContext { after_influence_loss: None, ..g2.turn_context->Some_0 }),
        ..g2
    };
    assert(went_on(g3, gf, AfterInfluenceLoss::ExecuteAction, Seq::empty(), out, u));
    let ps3 = g3.players@;
    assert forall|k: int| 0 <= k < ps1.len() implies (#[trigger] ps3[k]).uuid == ps1[k].uuid by {
        if k != bs {
            assert(ps3[k] == ps1[k]);
        }
    }
    lemma_seats_kept(ps1, ps3, c.actor_uuid);
    assert(ps3[a] == ps1[a]);
    assert(carried_out(g3, gf, Seq::empty(), out));
    lemma_action_names_distinct();
    assert(bank_pay(c.action@) == 2);
    lemma_bank_action_carried_out(g3, gf, Seq::empty(), out);
}


/// Whether the first player seated as `u` holds the role: some face-down card
/// of its hand has that role.
proof fn lemma_holds_face_down(ps: Seq<Player>, u: u128, role: crate::card::Role)
    requires
        has_seat(ps, u),
    ensures
        holds_role(ps, u, role) == has_face_down(ps[seat_of(ps, u)].cards@, role),
{
    let hand = ps[seat_of(ps, u)].cards@;
    if holds_role(ps, u, role) {
        let j = choose|j: int| 0 <= j < hand.len() && (#[trigger] hand[j]).role == role && !hand[j].visible;
        assert(hand[j] == hidden_card(role));
    }
    if has_face_down(hand, role) {
        let j = choose|j: int| 0 <= j < hand.len() && #[trigger] hand[j] == hidden_card(role);
        assert(hand[j].role == role && !hand[j].visible);
    }
}

/// A challenged claim stands exactly when the claimant has a face-down card
/// of the claimed role: everyone is first told that the card was revealed
/// when there is one, and that the claim was a bluff when there is none,
/// also when a card of that role lies face up in the claimant's hand.
pub proof fn law_challenged_claim_needs_face_down_card(
    g0: Game,
    gf: Option<Game>,
    challenger: u128,
    o0: Seq<Outgoing>,
    o1: Seq<Outgoing>,
    u: u128,
)
    requires
        challenge_resolved(g0, gf, challenger, o0, o1, u),
        g0.turn_context is Some,
        g0.turn_context->Some_0.claimed_role is Some,
        has_seat(g0.players@, g0.turn_context->Some_0.actor_uuid),
        has_seat(g0.players@, challenger) ==> g0.players@[seat_of(g0.players@, challenger)].coins < 255,
    ensures
        ({
            let c = g0.turn_context->Some_0;
            let ps = g0.players@;
            let role = c.claimed_role->Some_0;
            let held = has_face_down(ps[seat_of(ps, c.actor_uuid)].cards@, role);
            &&& o1.len() > o0.len()
            &&& result_sent(
                o1[o0.len() as int],
                challenge_text(seat_name(ps, challenger), c.actor_name@, role, held, false),
                seat_ids(g0),
            )
        }),
{
    let c = g0.turn_context->Some_0;
    lemma_holds_face_down(g0.players@, c.actor_uuid, c.claimed_role->Some_0);
}

/// A challenged block stands exactly when the blocker has a face-down card
/// of the role it claimed: everyone is first told that the card was revealed
/// when there is one, and that the block was a bluff when there is none,
/// also when a card of that role lies face up in the blocker's hand.
pub proof fn law_challenged_block_needs_face_down_card(
    g0: Game,
    gf: Option<Game>,
    challenger: u128,
    o0: Seq<Outgoing>,
    o1: Seq<Outgoing>,
    u: u128,
)
    requires
        block_challenge_resolved(g0, gf, challenger, o0, o1, u),
        g0.turn_context is Some,
        g0.turn_context->Some_0.block_info is Some,
        has_seat(g0.players@, g0.turn_context->Some_0.block_info->Some_0.blocker_uuid),
        has_seat(g0.players@, challenger) ==> g0.players@[seat_of(g0.players@, challenger)].coins < 255,
    ensures
        ({
            let b = g0.turn_context->Some_0.block_info->Some_0;
            let ps = g0.players@;
            let held = has_face_down(ps[seat_of(ps, b.blocker_uuid)].cards@, b.claimed_role);
            &&& o1.len() > o0.len()
            &&& result_sent(
                o1[o0.len() as int],
                challenge_text(seat_name(ps, challenger), b.blocker_name@, b.claimed_role, held, true),
                seat_ids(g0),
            )
        }),
{
    let b = g0.turn_context->Some_0.block_info->Some_0;
    lemma_holds_face_down(g0.players@, b.blocker_uuid, b.claimed_role);
}


/// Offer `o` lists `name` among its targets.
pub open spec fn targets_name(o: ActionOffer, name: Seq<char>) -> bool {
    match o.targets {
        Some(ts) => ts.contains(name),
        None => false,
    }
}

/// A living player other than `me` (holding coins, when `need_coins`) is
/// listed as a target.
proof fn lemma_target_listed(ps: Seq<Player>, me: u128, i: int, need_coins: bool)
    requires
        0 <= i < ps.len(),
        ps[i].is_alive,
        ps[i].uuid != me,
        need_coins ==> ps[i].coins > 0,
    ensures
        (if need_coins { stealable_targets(ps, me) } else { alive_targets(ps, me) }).contains(ps[i].name@),
    decreases ps.len(),
{
    let rest = ps.drop_last();
    let l = if need_coins { stealable_targets(ps, me) } else { alive_targets(ps, me) };
    if i == ps.len() - 1 {
        assert(l.last() == ps[i].name@);
    } else {
        lemma_target_listed(rest, me, i, need_coins);
        assert(rest[i] == ps[i]);
        let lr = if need_coins { stealable_targets(rest, me) } else { alive_targets(rest, me) };
        let j = choose|j: int| 0 <= j < lr.len() && lr[j] == ps[i].name@;
        assert(l[j] == lr[j]);
    }
}

/// The player on turn is offered every action the rules accept from it, as
/// far as the bank can pay what the action pays out (a coin for income, two
/// for foreign aid, three for tax) and, for a steal, the target holds coins;
/// a coup, an assassination or a steal is offered with the accepted target
/// among its targets. So a coup is offered from seven coins on.
#[verifier::rlimit(40)]
pub proof fn law_accepted_actions_offered(
    g: Game,
    me: u128,
    action: Seq<char>,
    target_name: Option<Seq<char>>,
    selected: Seq<Card>,
)
    requires
        g.current_player < g.players@.len(),
        action != "exchange_confirm"@,
        process_check(g, me, action, target_name, selected) is None,
        action == "income"@ ==> g.coins >= 1,
        action == "foreign_aid"@ ==> g.coins >= 2,
        action == "tax"@ ==> g.coins >= 3,
        action == "steal"@ ==> target_name is Some && g.players@[alive_named_seat(
            g.players@,
            target_name->Some_0,
        )].coins > 0,
    ensures
        exists|k: int| 0 <= k < expected_actions(g, me).len() && (#[trigger] expected_actions(g, me)[k]).action == action
            && (action == "coup"@ || action == "assassinate"@ || action == "steal"@ ==> targets_name(
            expected_actions(g, me)[k],
            target_name->Some_0,
        )),
{
    lemma_action_names_distinct();
    let ps = g.players@;
    let p = ps[g.current_player as int];
    let alive = alive_targets(ps, me);
    let steal = stealable_targets(ps, me);
    let e = expected_actions(g, me);
    if action == "coup"@ || action == "assassinate"@ || action == "steal"@ {
        let n = target_name->Some_0;
        let i0 = choose|i: int| 0 <= i < ps.len() && (#[trigger] ps[i]).name@ == n && ps[i].is_alive;
        lemma_first_alive_named(ps, n, i0);
        let t = alive_named_seat(ps, n);
        assert(is_first_alive_named(ps, n, t));
        lemma_target_listed(ps, me, t, false);
        if action == "steal"@ {
            lemma_target_listed(ps, me, t, true);
        }
    }
    if p.coins >= 10 {
        assert(e[0] == offer("coup"@, Some(alive)));
    } else {
        let s1 = offer_if(g.coins > 0, offer("income"@, None));
        let s2 = s1 + offer_if(g.coins >= 2, offer("foreign_aid"@, None));
        let s3 = s2 + offer_if(g.coins >= 3, offer("tax"@, None));
        let s4 = s3 + seq![offer("exchange_draw"@, None)];
        let s5 = s4 + offer_if(p.coins >= 7, offer("coup"@, Some(alive)));
        let s6 = s5 + offer_if(p.coins >= 3, offer("assassinate"@, Some(alive)));
        let s7 = s6 + offer_if(steal.len() > 0, offer("steal"@, Some(steal)));
        assert(e == s7);
        if action == "income"@ {
            assert(s7[0] == s1[0]);
        } else if action == "foreign_aid"@ {
            assert(s7[s1.len() as int] == s2[s1.len() as int]);
        } else if action == "tax"@ {
            assert(s7[s2.len() as int] == s3[s2.len() as int]);
        } else if action == "exchange_draw"@ {
            assert(s7[s3.len() as int] == s4[s3.len() as int]);
        } else if action == "coup"@ {
            assert(s7[s4.len() as int] == s5[s4.len() as int]);
        } else if action == "assassinate"@ {
            assert(s7[s5.len() as int] == s6[s5.len() as int]);
        } else {
            assert(action == "steal"@);
            assert(s7[s6.len() as int] == offer("steal"@, Some(steal)));
        }
    }
}


/// A steal from another seated player takes two of its coins, or all of them
/// when it holds fewer, and gives them to the thief (whose purse has room);
/// the bank and every other purse keep their coins, and the turn is over.
pub proof fn law_steal_takes_up_to_two_coins(
    g0: Game,
    g1: Game,
    actor: u128,
    target: u128,
    r: Result<ActionOutcome, String>,
)
    requires
        effect_post(g0, g1, "steal"@, actor, Some(target), r),
        has_seat(g0.players@, actor),
        has_seat(g0.players@, target),
        actor != target,
        ({
            let ps = g0.players@;
            let t = ps[seat_of(ps, target)].coins;
            ps[seat_of(ps, actor)].coins + (if t < 2 { t as int } else { 2int }) <= 255
        }),
    ensures
        ({
            let ps = g0.players@;
            let a = seat_of(ps, actor);
            let ti = seat_of(ps, target);
            let moved: int = if ps[ti].coins < 2 { ps[ti].coins as int } else { 2int };
            &&& r == Ok::<ActionOutcome, String>(ActionOutcome::TurnComplete)
            &&& g1.players@.len() == ps.len()
            &&& g1.players@[a].coins == ps[a].coins + moved
            &&& g1.players@[ti].coins == ps[ti].coins - moved
            &&& forall|k: int| 0 <= k < ps.len() && k != a && k != ti ==> (#[trigger] g1.players@[k]).coins
                == ps[k].coins
            &&& g1.coins == g0.coins
        }),
{
    lemma_action_names_distinct();
    lemma_distinct_seats(g0.players@, actor, target);
    lemma_seat_of(g0.players@, actor);
    lemma_seat_of(g0.players@, target);
}


/// The character each character action claims: the Duke for tax, the
/// Assassin for an assassination, the Captain for a steal, the Ambassador for
/// an exchange.
pub open spec fn character_of(action: Seq<char>) -> Option<crate::card::Role> {
    if action == "tax"@ {
        Some(crate::card::Role::Duke)
    } else if action == "assassinate"@ {
        Some(crate::card::Role::Assassin)
    } else if action == "steal"@ {
        Some(crate::card::Role::Captain)
    } else if action == "exchange_draw"@ {
        Some(crate::card::Role::Ambassador)
    } else {
        None
    }
}

/// What a declaration the rules accept opens and costs: a character action
/// (tax, an assassination, a steal, an exchange) claims its character and
/// opens the challenge phase; a foreign aid claims nothing and opens the
/// block phase; an income or a coup claims nothing and opens no phase. An
/// assassination costs three coins and a coup seven, paid into the bank;
/// the other actions cost nothing.
pub proof fn law_declared_action_claims_its_character(
    g0: Game,
    g1: Game,
    client: u128,
    action: Seq<char>,
    target_name: Option<Seq<char>>,
    selected: Seq<Card>,
    r: Result<ActionOutcome, String>,
)
    requires
        process_post(g0, g1, client, action, target_name, selected, r),
        process_check(g0, client, action, target_name, selected) is None,
        crate::actions::process_fits(g0, client, action, target_name, selected),
        g0.current_player < g0.players@.len(),
        action != "exchange_confirm"@,
    ensures
        character_of(action) is Some || action == "foreign_aid"@ ==> {
            let cp = g0.current_player as int;
            let cost: int = if action == "assassinate"@ { 3 } else { 0 };
            &&& g1.players@[cp].coins == g0.players@[cp].coins - cost
            &&& g1.coins == g0.coins + cost
        },
        action == "coup"@ ==> {
            let cp = g0.current_player as int;
            &&& g1.players@[cp].coins == g0.players@[cp].coins - 7
            &&& g1.coins == g0.coins + 7
        },
        character_of(action) is Some ==> {
            &&& r == Ok::<ActionOutcome, String>(ActionOutcome::PhaseStarted)
            &&& g1.turn_context is Some
            &&& g1.turn_context->Some_0.claimed_role == character_of(action)
            &&& g1.turn_context->Some_0.phase == TurnPhase::AwaitingChallengeResponses
        },
        action == "foreign_aid"@ ==> {
            &&& r == Ok::<ActionOutcome, String>(ActionOutcome::PhaseStarted)
            &&& g1.turn_context is Some
            &&& g1.turn_context->Some_0.claimed_role is None
            &&& g1.turn_context->Some_0.phase == TurnPhase::AwaitingBlockResponses
        },
        action == "income"@ || action == "coup"@ ==> g1.turn_context is None,
{
    lemma_action_names_distinct();
    if action == "income"@ || action == "coup"@ {
        let rules = crate::action_properties::action_rules(action)->Some_0;
        let target = crate::actions::target_of(g0, action, target_name);
        let gm = choose|gm: Game| crate::actions::cost_paid(g0, gm, g0.current_player as int, rules.cost)
            && #[trigger] effect_post(gm, g1, action, client, target, r);
        assert(gm.turn_context is None);
        if action == "coup"@ {
            let ps = g0.players@;
            let cp = g0.current_player as int;
            let t = target->Some_0;
            crate::laws::lemma_first_alive_named(ps, target_name->Some_0, choose|i: int| 0 <= i < ps.len()
                && (#[trigger] ps[i]).name@ == target_name->Some_0 && ps[i].is_alive);
            assert(t != client);
            let gps = gm.players@;
            assert(gps.len() == ps.len());
            assert forall|k: int| 0 <= k < ps.len() implies (#[trigger] gps[k]).uuid == ps[k].uuid by {
                if k == cp {
                    assert(gps[k] == crate::actions::with_coins(ps[cp], ps[cp].coins - 7));
                }
            }
            assert(gps[cp].uuid == client);
            if has_seat(gps, t) {
                lemma_seat_of(gps, t);
                let ti = seat_of(gps, t);
                assert(ti != cp);
            }
        }
    }
}


/// Income, foreign aid and tax pay the actor (whose purse has room) one, two
/// and three coins from the bank, or what the bank holds when it holds
/// fewer, and end the turn; every other purse keeps its coins. An income
/// from an empty bank is refused and changes nothing.
pub proof fn law_bank_pays_income_aid_and_tax(
    g0: Game,
    g1: Game,
    action: Seq<char>,
    actor: u128,
    target: Option<u128>,
    r: Result<ActionOutcome, String>,
)
    requires
        effect_post(g0, g1, action, actor, target, r),
        action == "income"@ || action == "foreign_aid"@ || action == "tax"@,
        has_seat(g0.players@, actor),
        effect_fits(g0, action, actor, target),
    ensures
        ({
            let ps = g0.players@;
            let a = seat_of(ps, actor);
            let want: int = if action == "income"@ { 1 } else if action == "foreign_aid"@ { 2 } else { 3 };
            let paid: int = if g0.coins < want { g0.coins as int } else { want };
            if action == "income"@ && g0.coins == 0 {
                r is Err && g1 == g0
            } else {
                &&& r == Ok::<ActionOutcome, String>(ActionOutcome::TurnComplete)
                &&& g1.players@.len() == ps.len()
                &&& g1.players@[a].coins == ps[a].coins + paid
                &&& g1.coins == g0.coins - paid
                &&& forall|k: int| 0 <= k < ps.len() && k != a ==> (#[trigger] g1.players@[k]).coins == ps[k].coins
            }
        }),
{
    lemma_action_names_distinct();
    lemma_seat_of(g0.players@, actor);
}


/// Swapping a defended card changes no purse, no seat, and no other hand.
proof fn lemma_swap_keeps_purses(g0: Game, g1: Game, v: u128, role: crate::card::Role)
    requires
        card_swapped(g0, g1, v, role),
        has_seat(g0.players@, v),
    ensures
        g1.players@.len() == g0.players@.len(),
        forall|k: int| 0 <= k < g0.players@.len() ==> (#[trigger] g1.players@[k]).uuid == g0.players@[k].uuid
            && g1.players@[k].coins == g0.players@[k].coins && g1.players@[k].is_alive == g0.players@[k].is_alive,
        forall|k: int| 0 <= k < g0.players@.len() && k != seat_of(g0.players@, v)
            ==> (#[trigger] g1.players@[k]).cards@ == g0.players@[k].cards@,
        g1.turn_context == g0.turn_context,
        g1.current_player == g0.current_player,
        g1.coins == g0.coins,
{
    let ps = g0.players@;
    let k = seat_of(ps, v);
    let hand = ps[k].cards@;
    lemma_seat_of(ps, v);
    if (exists|j: int| is_first_hidden_of(hand, role, j)) && g0.deck.cards@.len() < TOTAL_CARDS {
        let j = choose|j: int| is_first_hidden_of(hand, role, j);
        let sh = choose|sh: Seq<Card>| #[trigger] swapped_through(g0, g1, k, j, role, sh);
        assert(swapped_through(g0, g1, k, j, role, sh));
        assert forall|i: int| 0 <= i < ps.len() implies (#[trigger] g1.players@[i]).uuid == ps[i].uuid
            && g1.players@[i].coins == ps[i].coins && g1.players@[i].is_alive == ps[i].is_alive by {
            if i != k {
                assert(g1.players@[i] == ps[i]);
            }
        }
        assert forall|i: int| 0 <= i < ps.len() && i != k implies (#[trigger] g1.players@[i]).cards@
            == ps[i].cards@ by {
            assert(g1.players@[i] == ps[i]);
        }
    } else {
        assert forall|i: int| 0 <= i < ps.len() implies (#[trigger] g1.players@[i]).uuid == ps[i].uuid
            && g1.players@[i].coins == ps[i].coins && g1.players@[i].is_alive == ps[i].is_alive by {
            assert(g1.players@[i] == (Player { cards: g1.players@[i].cards, ..ps[i] }));
        }
    }
}

/// A challenged claim that turns out a bluff is not carried out: once the
/// bluffer has lost influence at once (holding fewer than two face-down
/// cards), the turn ends with every purse as it was but for the challenger's
/// coin from the bank. This holds for every table where the challenger is
/// seated, alive, not the claimant, and has room in its purse.
pub proof fn law_bluffed_claim_is_not_carried_out(
    g0: Game,
    gf: Option<Game>,
    challenger: u128,
    o0: Seq<Outgoing>,
    o1: Seq<Outgoing>,
    u: u128,
)
    requires
        challenge_resolved(g0, gf, challenger, o0, o1, u),
        g0.turn_context is Some,
        g0.turn_context->Some_0.claimed_role is Some,
        has_seat(g0.players@, g0.turn_context->Some_0.actor_uuid),
        !has_face_down(
            g0.players@[seat_of(g0.players@, g0.turn_context->Some_0.actor_uuid)].cards@,
            g0.turn_context->Some_0.claimed_role->Some_0,
        ),
        count_hidden(g0.players@[seat_of(g0.players@, g0.turn_context->Some_0.actor_uuid)].cards@) < 2,
        has_seat(g0.players@, challenger),
        challenger != g0.turn_context->Some_0.actor_uuid,
        g0.players@[seat_of(g0.players@, challenger)].is_alive,
        g0.players@[seat_of(g0.players@, challenger)].coins < 255,
        g0.current_player != usize::MAX,
    ensures
        gf is Some,
        gf->Some_0.players@.len() == g0.players@.len(),
        forall|k: int| 0 <= k < g0.players@.len() ==> (#[trigger] gf->Some_0.players@[k]).coins
            == g0.players@[k].coins + if k == seat_of(g0.players@, challenger) { 1int } else { 0int },
        gf->Some_0.coins == bank_after_reward(g0, challenger),
{
    let c = g0.turn_context->Some_0;
    let role = c.claimed_role->Some_0;
    let ps = g0.players@;
    let kc = seat_of(ps, challenger);
    let a = seat_of(ps, c.actor_uuid);
    lemma_holds_face_down(ps, c.actor_uuid, role);
    lemma_distinct_seats(ps, challenger, c.actor_uuid);
    lemma_seat_of(ps, challenger);
    lemma_seat_of(ps, c.actor_uuid);
    let o0b = o0.push(o1[o0.len() as int]);
    let g1 = choose|g1: Game| #[trigger] rewarded(g0, g1, challenger) && influence_required(
        g1,
        gf,
        c.actor_uuid,
        AfterInfluenceLoss::TurnEnds,
        o0b,
        o1,
        u,
    );
    lemma_reward_facts(g0, g1, challenger, c.actor_uuid);
    let ps1 = g1.players@;
    assert(ps1 == ps.update(kc, crate::actions::with_coins(ps[kc], ps[kc].coins + 1)));
    assert(count_hidden(ps1[a].cards@) < 2);
    let g2 = choose|g2: Game| #[trigger] lost_influence(g1, g2, c.actor_uuid) && went_on(
        g2,
        gf,
        AfterInfluenceLoss::TurnEnds,
        o0b,
        o1,
        u,
    );
    lemma_lost_keeps_purses(g1, g2, c.actor_uuid);
    assert(g2.players@[kc] == ps1[kc]);
    lemma_turn_ends(g2, gf, AfterInfluenceLoss::TurnEnds, o0b, o1, u, kc);
    assert forall|k: int| 0 <= k < ps.len() implies (#[trigger] gf->Some_0.players@[k]).coins == ps[k].coins
        + if k == kc { 1int } else { 0int } by {
        assert(gf->Some_0.players@[k].coins == g2.players@[k].coins);
        assert(g2.players@[k].coins == ps1[k].coins);
    }
}

/// A defended tax claim is carried out: once the challenger has lost
/// influence at once (holding fewer than two face-down cards), the actor is
/// paid three coins from the bank, or what the bank holds when it holds
/// fewer. This holds for every table where the actor holds a face-down card
/// of the claimed role, is alive and has room in its purse, and the
/// challenger is seated and is not the actor.
pub proof fn law_defended_tax_is_paid(
    g0: Game,
    gf: Option<Game>,
    challenger: u128,
    o0: Seq<Outgoing>,
    o1: Seq<Outgoing>,
    u: u128,
)
    requires
        challenge_resolved(g0, gf, challenger, o0, o1, u),
        g0.turn_context is Some,
        g0.turn_context->Some_0.action@ == "tax"@,
        g0.turn_context->Some_0.claimed_role is Some,
        has_seat(g0.players@, g0.turn_context->Some_0.actor_uuid),
        has_face_down(
            g0.players@[seat_of(g0.players@, g0.turn_context->Some_0.actor_uuid)].cards@,
            g0.turn_context->Some_0.claimed_role->Some_0,
        ),
        g0.players@[seat_of(g0.players@, g0.turn_context->Some_0.actor_uuid)].is_alive,
        g0.players@[seat_of(g0.players@, g0.turn_context->Some_0.actor_uuid)].coins + min_int(g0.coins as int, 3)
            <= 255,
        has_seat(g0.players@, challenger),
        challenger != g0.turn_context->Some_0.actor_uuid,
        count_hidden(g0.players@[seat_of(g0.players@, challenger)].cards@) < 2,
        g0.current_player != usize::MAX,
    ensures
        ({
            let a = seat_of(g0.players@, g0.turn_context->Some_0.actor_uuid);
            &&& gf is Some
            &&& gf->Some_0.players@[a].coins == g0.players@[a].coins + min_int(g0.coins as int, 3)
            &&& gf->Some_0.coins == g0.coins - min_int(g0.coins as int, 3)
        }),
{
    lemma_action_names_distinct();
    let c = g0.turn_context->Some_0;
    let role = c.claimed_role->Some_0;
    let ps = g0.players@;
    let kc = seat_of(ps, challenger);
    let a = seat_of(ps, c.actor_uuid);
    lemma_holds_face_down(ps, c.actor_uuid, role);
    lemma_distinct_seats(ps, challenger, c.actor_uuid);
    lemma_seat_of(ps, challenger);
    lemma_seat_of(ps, c.actor_uuid);
    let o0b = o0.push(o1[o0.len() as int]);
    let g1 = choose|g1: Game| #[trigger] card_swapped(g0, g1, c.actor_uuid, role) && influence_required(
        g1,
        gf,
        challenger,
        AfterInfluenceLoss::ProceedAfterFailedChallenge,
        o0b,
        o1,
        u,
    );
    lemma_swap_keeps_purses(g0, g1, c.actor_uuid, role);
    let ps1 = g1.players@;
    lemma_seats_kept(ps, ps1, challenger);
    lemma_seats_kept(ps, ps1, c.actor_uuid);
    assert(ps1[kc].cards@ == ps[kc].cards@);
    let g2 = choose|g2: Game| #[trigger] lost_influence(g1, g2, challenger) && went_on(
        g2,
        gf,
        AfterInfluenceLoss::ProceedAfterFailedChallenge,
        o0b,
        o1,
        u,
    );
    lemma_lost_keeps_purses(g1, g2, challenger);
    let ps2 = g2.players@;
    assert(ps2[a] == ps1[a]);
    lemma_seats_kept(ps1, ps2, c.actor_uuid);
    assert(!blockable(g2));
    assert(carried_out(g2, gf, o0b, o1));
    assert(bank_pay(c.action@) == 3);
    lemma_bank_action_carried_out(g2, gf, o0b, o1);
}

/// A challenged block the blocker can back with a face-down card of the
/// claimed role stands: once the challenger has lost influence at once
/// (holding fewer than two face-down cards), the turn ends with every purse
/// and the bank as they were, the blocked action not carried out. This holds
/// for every table where the blocker is alive and the challenger is seated
/// and is not the blocker.
pub proof fn law_held_block_stands(
    g0: Game,
    gf: Option<Game>,
    challenger: u128,
    o0: Seq<Outgoing>,
    o1: Seq<Outgoing>,
    u: u128,
)
    requires
        block_challenge_resolved(g0, gf, challenger, o0, o1, u),
        g0.turn_context is Some,
        g0.turn_context->Some_0.block_info is Some,
        has_seat(g0.players@, g0.turn_context->Some_0.block_info->Some_0.blocker_uuid),
        has_face_down(
            g0.players@[seat_of(g0.players@, g0.turn_context->Some_0.block_info->Some_0.blocker_uuid)].cards@,
            g0.turn_context->Some_0.block_info->Some_0.claimed_role,
        ),
        g0.players@[seat_of(g0.players@, g0.turn_context->Some_0.block_info->Some_0.blocker_uuid)].is_alive,
        has_seat(g0.players@, challenger),
        challenger != g0.turn_context->Some_0.block_info->Some_0.blocker_uuid,
        count_hidden(g0.players@[seat_of(g0.players@, challenger)].cards@) < 2,
        g0.current_player != usize::MAX,
    ensures
        gf is Some,
        gf->Some_0.players@.len() == g0.players@.len(),
        forall|k: int| 0 <= k < g0.players@.len() ==> (#[trigger] gf->Some_0.players@[k]).coins
            == g0.players@[k].coins,
        gf->Some_0.coins == g0.coins,
{
    let b = g0.turn_context->Some_0.block_info->Some_0;
    let ps = g0.players@;
    let kc = seat_of(ps, challenger);
    let kb = seat_of(ps, b.blocker_uuid);
    lemma_holds_face_down(ps, b.blocker_uuid, b.claimed_role);
    lemma_distinct_seats(ps, challenger, b.blocker_uuid);
    lemma_seat_of(ps, challenger);
    lemma_seat_of(ps, b.blocker_uuid);
    let o0b = o0.push(o1[o0.len() as int]);
    let g1 = choose|g1: Game| #[trigger] card_swapped(g0, g1, b.blocker_uuid, b.claimed_role) && influence_required(
        g1,
        gf,
        challenger,
        AfterInfluenceLoss::BlockSucceeds,
        o0b,
        o1,
        u,
    );
    lemma_swap_keeps_purses(g0, g1, b.blocker_uuid, b.claimed_role);
    let ps1 = g1.players@;
    lemma_seats_kept(ps, ps1, challenger);
    assert(ps1[kc].cards@ == ps[kc].cards@);
    let g2 = choose|g2: Game| #[trigger] lost_influence(g1, g2, challenger) && went_on(
        g2,
        gf,
        AfterInfluenceLoss::BlockSucceeds,
        o0b,
        o1,
        u,
    );
    lemma_lost_keeps_purses(g1, g2, challenger);
    assert(g2.players@[kb] == ps1[kb]);
    lemma_turn_ends(g2, gf, AfterInfluenceLoss::BlockSucceeds, o0b, o1, u, kb);
    assert forall|k: int| 0 <= k < ps.len() implies (#[trigger] gf->Some_0.players@[k]).coins == ps[k].coins by {
        assert(gf->Some_0.players@[k].coins == g2.players@[k].coins);
        assert(g2.players@[k].coins == ps1[k].coins);
    }
}


/// The player on turn is offered an income only when the bank holds a coin,
/// a foreign aid only when it holds two, and a tax only when it holds three;
/// a coup only from seven coins and an assassination only from three; a
/// steal only with the players who hold coins as its targets.
#[verifier::rlimit(40)]
pub proof fn law_offers_follow_purses_and_bank(g: Game, me: u128, k: int)
    requires
        0 <= k < expected_actions(g, me).len(),
    ensures
        ({
            let o = expected_actions(g, me)[k];
            let p = g.players@[g.current_player as int];
            &&& o.action == "income"@ ==> g.coins >= 1
            &&& o.action == "foreign_aid"@ ==> g.coins >= 2
            &&& o.action == "tax"@ ==> g.coins >= 3
            &&& o.action == "coup"@ ==> p.coins >= 7
            &&& o.action == "assassinate"@ ==> p.coins >= 3
            &&& o.action == "steal"@ ==> o.targets == Some(stealable_targets(g.players@, me))
        }),
{
    lemma_action_names_distinct();
    let ps = g.players@;
    let p = ps[g.current_player as int];
    let alive = alive_targets(ps, me);
    let steal = stealable_targets(ps, me);
    let e = expected_actions(g, me);
    if p.uuid != me || g.pending_influence_loss is Some || g.turn_context is Some || p.exchange_cards@.len() > 0 {
        assert(e.len() == 0);
    } else if p.coins >= 10 {
        assert(e[k] == offer("coup"@, Some(alive)));
    } else {
        let s1 = offer_if(g.coins > 0, offer("income"@, None));
        let s2 = s1 + offer_if(g.coins >= 2, offer("foreign_aid"@, None));
        let s3 = s2 + offer_if(g.coins >= 3, offer("tax"@, None));
        let s4 = s3 + seq![offer("exchange_draw"@, None)];
        let s5 = s4 + offer_if(p.coins >= 7, offer("coup"@, Some(alive)));
        let s6 = s5 + offer_if(p.coins >= 3, offer("assassinate"@, Some(alive)));
        let s7 = s6 + offer_if(steal.len() > 0, offer("steal"@, Some(steal)));
        assert(e == s7);
        if k >= s6.len() {
            assert(e[k] == offer("steal"@, Some(steal)));
        } else if k >= s5.len() {
            assert(e[k] == s6[k]);
            assert(e[k] == offer("assassinate"@, Some(alive)) && p.coins >= 3);
        } else if k >= s4.len() {
            assert(e[k] == s5[k]);
            assert(e[k] == offer("coup"@, Some(alive)) && p.coins >= 7);
        } else if k >= s3.len() {
            assert(e[k] == s4[k]);
        } else if k >= s2.len() {
            assert(e[k] == s3[k]);
            assert(e[k] == offer("tax"@, None) && g.coins >= 3);
        } else if k >= s1.len() {
            assert(e[k] == s2[k]);
            assert(e[k] == offer("foreign_aid"@, None) && g.coins >= 2);
        } else {
            assert(e[k] == s1[k]);
            assert(e[k] == offer("income"@, None) && g.coins > 0);
        }
    }
}

} // verus!
