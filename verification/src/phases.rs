use vstd::prelude::*;
use vstd::string::*;
use crate::action_properties::{ActionRules, action_rules, display_action_name, display_name, get_action_properties};
use crate::actions::{
    ActionOutcome, cost_paid, effect_fits, effect_fits_now, effect_post, execute_action_effect, process_check, process_post,
    card_swapped, is_first_hidden_of, lost_last_card, swapped_through, swap_revealed_card, target_of, with_coins,
};
use crate::card::{Card, Role, role_name, role_name_spec};
use crate::deck::TOTAL_CARDS;
use crate::game::{Game, alive_count, find_seat, has_seat, is_next_alive, seat_of};
use crate::player::{Player, count_hidden, hidden_count};
use crate::server::{ChatServer, Outgoing, PHASE_DEADLINE_SECS, Room, phase_rank, room_game, same_room_ids};
use crate::state::{CardView, GameState, ServerMessage, view_for};
use crate::turn_phase::{AfterInfluenceLoss, TurnContext, TurnPhase};

verus! {

/// The players of a table that are alive and are not `except`, in seat order.
pub open spec fn alive_except(ps: Seq<Player>, except: Option<u128>) -> Seq<u128>
    decreases ps.len(),
{
    if ps.len() == 0 {
        Seq::empty()
    } else if ps.last().is_alive && except != Some(ps.last().uuid) {
        alive_except(ps.drop_last(), except).push(ps.last().uuid)
    } else {
        alive_except(ps.drop_last(), except)
    }
}

/// Who may answer the phase a table's turn waits in: everyone alive but the
/// actor for a challenge; for a block, only the target (if alive) of an
/// action that only its target may block, else everyone alive but the
/// actor; for a challenge of a block, everyone alive but the blocker.
pub open spec fn eligible_of(g: Game) -> Seq<u128> {
    match g.turn_context {
        None => Seq::empty(),
        Some(ctx) => match ctx.phase {
            TurnPhase::AwaitingChallengeResponses => alive_except(g.players@, Some(ctx.actor_uuid)),
            TurnPhase::AwaitingBlockResponses => {
                let target_only = match action_rules(ctx.action@) {
                    Some(r) => r.block_target_only,
                    None => false,
                };
                if target_only {
                    match ctx.target_uuid {
                        Some(t) => if exists|i: int| 0 <= i < g.players@.len() && (#[trigger] g.players@[i]).uuid == t
                            && g.players@[i].is_alive {
                            seq![t]
                        } else {
                            Seq::empty()
                        },
                        None => Seq::empty(),
                    }
                } else {
                    alive_except(g.players@, Some(ctx.actor_uuid))
                }
            },
            TurnPhase::AwaitingBlockChallengeResponses => alive_except(
                g.players@,
                match ctx.block_info {
                    Some(b) => Some(b.blocker_uuid),
                    None => None,
                },
            ),
        },
    }
}

/// Table `g1` is `g0` with its phase opened afresh: nobody has answered yet
/// and a new timer generation has started.
pub open spec fn opened_phase(g0: Game, g1: Option<Game>) -> bool {
    let c0 = g0.turn_context->Some_0;
    match g1 {
        Some(g) => match g.turn_context {
            Some(c1) => {
                &&& g == (Game { turn_context: g.turn_context, ..g0 })
                &&& c1 == (TurnContext { responded: c1.responded, timer_generation: c1.timer_generation, ..c0 })
                &&& c1.responded@ == Set::<u128>::empty()
                &&& c1.timer_generation == c0.timer_generation + 1
            },
            None => false,
        },
        None => false,
    }
}

/// The turn of table `g` ends as `finish_turn` ends it, leaving table `gf`
/// and the messages `o1` after `o0`: a winner is announced to everyone and
/// the table shown, the table left as it is; otherwise the turn passes and
/// the new table is shown (a table with no living seat to pass to halts).
pub open spec fn turn_finished(g: Game, gf: Option<Game>, o0: Seq<Outgoing>, o1: Seq<Outgoing>) -> bool {
    let n = o0.len() as int;
    if alive_count(g.players@) == 1 {
        &&& gf == Some(g)
        &&& o1.len() > n
        &&& game_over_sent(o1[n], g)
        &&& table_shown(g, o0.push(o1[n]), o1)
    } else if alive_count(g.players@) == 0 || g.current_player == usize::MAX {
        o1.len() == n + 1 && o1.last() is Halt
    } else {
        &&& passed_turn(g, gf)
        &&& table_shown(gf->Some_0, o0, o1)
    }
}

/// Table `gf` and messages `o1` after `o0` are what the effect of the action
/// of table `g0` and what follows it leave: an influence choice waits (the
/// table is shown and the target asked), an exchange waits for the actor
/// (the table is shown), or the turn ends.
pub open spec fn after_effect(
    g0: Game,
    gf: Option<Game>,
    action: Seq<char>,
    actor: u128,
    target: Option<u128>,
    o0: Seq<Outgoing>,
    o1: Seq<Outgoing>,
) -> bool {
    exists|ge: Game, r: Result<ActionOutcome, String>| {
        &&& #[trigger] effect_post(g0, ge, action, actor, target, r)
        &&& match r {
            Ok(ActionOutcome::WaitingForInfluenceChoice(t)) => gf == Some(ge) && choice_asked(ge, t, o0, o1),
            Ok(ActionOutcome::WaitingForExchange) => gf == Some(Game { turn_context: None, ..ge }) && table_shown(
                Game { turn_context: None, ..ge },
                o0,
                o1,
            ),
            _ => turn_finished(Game { turn_context: None, ..ge }, gf, o0, o1),
        }
    }
}

/// Table `gf` and messages `o1` after `o0` are what carrying out the action
/// of table `g0` leaves: what its effect and what follows it leave when the
/// effect fits (no purse or bank overflows, the deck holds the cards an
/// exchange draws); otherwise the request halts with the table unchanged.
pub open spec fn carried_out(g0: Game, gf: Option<Game>, o0: Seq<Outgoing>, o1: Seq<Outgoing>) -> bool {
    let c0 = g0.turn_context->Some_0;
    if effect_fits(g0, c0.action@, c0.actor_uuid, c0.target_uuid) {
        after_effect(g0, gf, c0.action@, c0.actor_uuid, c0.target_uuid, o0, o1)
    } else {
        &&& gf == Some(g0)
        &&& o1.len() == o0.len() + 1
        &&& o1.last() is Halt
    }
}

/// The action of table `g` can be blocked.
pub open spec fn blockable(g: Game) -> bool {
    match action_rules(g.turn_context->Some_0.action@) {
        Some(r) => r.blockable_by.len() > 0,
        None => false,
    }
}

/// Table `gf` and messages `o1` after `o0` are what room `u` comes to once
/// everyone who may answer the phase of table `g0` let it pass: a blockable
/// action's challenge phase gives way to its block phase (announced when
/// someone may block; when nobody may block, the action is carried out at
/// once); an unblockable one, or a block phase, has the action carried out;
/// a block nobody challenged stands and the turn ends.
pub open spec fn all_allowed(g0: Game, gf: Option<Game>, o0: Seq<Outgoing>, o1: Seq<Outgoing>, u: u128) -> bool {
    let c0 = g0.turn_context->Some_0;
    let g_block = Game {
        turn_context: Some(TurnContext { phase: TurnPhase::AwaitingBlockResponses, ..c0 }),
        ..g0
    };
    &&& c0.phase == TurnPhase::AwaitingChallengeResponses && blockable(g0) ==> (c0.timer_generation < u64::MAX
        && eligible_of(g_block).len() > 0 ==> opened_phase(g_block, gf)
        && phase_announced(g_block, o0, o1, u))
    &&& c0.phase == TurnPhase::AwaitingChallengeResponses && blockable(g0) && c0.timer_generation < u64::MAX
        && eligible_of(g_block).len() == 0 ==> exists|gm: Game| #[trigger] opened_phase(g_block, Some(gm)) && carried_out(gm, gf, o0, o1)
    &&& c0.phase == TurnPhase::AwaitingChallengeResponses && !blockable(g0) || c0.phase
        == TurnPhase::AwaitingBlockResponses ==> carried_out(g0, gf, o0, o1)
    &&& c0.phase == TurnPhase::AwaitingBlockChallengeResponses ==> turn_finished(
        Game { turn_context: None, ..g0 },
        gf,
        o0,
        o1,
    )
}

/// Table `gf` and messages `o1` after `o0` are what room `u` comes to once
/// the turn of table `g0` went on after influence was lost, as `after` says:
/// the turn ends; or, after a failed challenge, the block phase opens and is
/// announced (when the action can be blocked and someone may block) or the
/// action is carried out; or, after a bluffed block, the action is carried
/// out.
pub open spec fn went_on(
    g0: Game,
    gf: Option<Game>,
    after: AfterInfluenceLoss,
    o0: Seq<Outgoing>,
    o1: Seq<Outgoing>,
    u: u128,
) -> bool {
    let c0 = g0.turn_context->Some_0;
    let g_block = Game {
        turn_context: Some(
            TurnContext { phase: TurnPhase::AwaitingBlockResponses, after_influence_loss: None, ..c0 },
        ),
        ..g0
    };
    match after {
        AfterInfluenceLoss::ProceedAfterFailedChallenge => g0.turn_context is Some ==> {
            &&& blockable(g0) ==> (c0.timer_generation < u64::MAX && eligible_of(g_block).len() > 0
                ==> opened_phase(g_block, gf) && phase_announced(g_block, o0, o1, u))
            &&& blockable(g0) && c0.timer_generation < u64::MAX && eligible_of(g_block).len() == 0 ==> exists|
                gm: Game,
            | #[trigger] opened_phase(g_block, Some(gm)) && all_allowed(gm, gf, o0, o1, u)
            &&& !blockable(g0) ==> carried_out(g0, gf, o0, o1)
        },
        AfterInfluenceLoss::ExecuteAction => g0.turn_context is Some ==> carried_out(g0, gf, o0, o1),
        _ => turn_finished(Game { turn_context: None, ..g0 }, gf, o0, o1),
    }
}

/// Table `g1` is `g0` after `player` lost influence without a choice: with
/// one hidden card left, that card is turned up and the player is out; with
/// none (or no seat), nothing changes.
pub open spec fn lost_influence(g0: Game, g1: Game, player: u128) -> bool {
    let ps = g0.players@;
    let k = seat_of(ps, player);
    if has_seat(ps, player) && count_hidden(ps[k].cards@) == 1 {
        &&& g1.players@ == ps.update(k, g1.players@[k])
        &&& lost_last_card(ps[k], g1.players@[k])
        &&& g1 == (Game { players: g1.players, ..g0 })
    } else {
        g1.players@ == ps && g1 == (Game { players: g1.players, ..g0 })
    }
}

/// Table `gf` and messages `o1` after `o0` are what room `u` comes to after
/// `player` was made to lose influence at table `g0`: with two hidden cards
/// (or more) the phase timer moves on, `after` waits for the choice, the
/// table is shown and the player asked which card to give up; otherwise the
/// card is lost at once and the turn goes on as `after` says.
pub open spec fn influence_required(
    g0: Game,
    gf: Option<Game>,
    player: u128,
    after: AfterInfluenceLoss,
    o0: Seq<Outgoing>,
    o1: Seq<Outgoing>,
    u: u128,
) -> bool {
    let ps = g0.players@;
    if has_seat(ps, player) && count_hidden(ps[seat_of(ps, player)].cards@) >= 2 {
        match g0.turn_context {
            Some(c0) => c0.timer_generation < u64::MAX ==> {
                let g1 = Game {
                    pending_influence_loss: Some(player),
                    turn_context: Some(
                        TurnContext {
                            after_influence_loss: Some(after),
                            timer_generation: (c0.timer_generation + 1) as u64,
                            ..c0
                        },
                    ),
                    ..g0
                };
                gf == Some(g1) && choice_asked(g1, player, o0, o1)
            },
            None => gf == Some(Game { pending_influence_loss: Some(player), ..g0 }) && choice_asked(
                Game { pending_influence_loss: Some(player), ..g0 },
                player,
                o0,
                o1,
            ),
        }
    } else {
        exists|g1: Game| #[trigger] lost_influence(g0, g1, player) && went_on(g1, gf, after, o0, o1, u)
    }
}

/// The first player seated as `u` holds a hidden card of `role`.
pub open spec fn holds_role(ps: Seq<Player>, u: u128, role: Role) -> bool {
    let cards = ps[seat_of(ps, u)].cards@;
    has_seat(ps, u) && exists|j: int| 0 <= j < cards.len() && (#[trigger] cards[j]).role == role && !cards[j].visible
}

/// A reward can be paid to `challenger` without overflowing its purse.
pub open spec fn reward_fits(g0: Game, challenger: u128) -> bool {
    let ps = g0.players@;
    has_seat(ps, challenger) ==> ps[seat_of(ps, challenger)].coins < 255
}

/// Table `g1` is `g0` after `challenger` earned a coin, taken from the bank
/// when the bank has one.
pub open spec fn rewarded(g0: Game, g1: Game, challenger: u128) -> bool {
    let ps = g0.players@;
    let k = seat_of(ps, challenger);
    if has_seat(ps, challenger) {
        &&& g1.players@ == ps.update(k, with_coins(ps[k], ps[k].coins + 1))
        &&& g1 == (Game { players: g1.players, coins: if g0.coins > 0 { (g0.coins - 1) as u8 } else { 0 }, ..g0 })
    } else {
        g1 == g0
    }
}

/// Table `gf` and messages `o1` after `o0` are what room `u` comes to after
/// `challenger` challenged the actor's claim at table `g0`. Everyone is first
/// told how it turned out. An actor holding the claimed role swaps it for a
/// card from the deck and the challenger loses influence; a bluffing actor
/// loses influence and the challenger earns a coin (when its purse has room).
pub open spec fn challenge_resolved(
    g0: Game,
    gf: Option<Game>,
    challenger: u128,
    o0: Seq<Outgoing>,
    o1: Seq<Outgoing>,
    u: u128,
) -> bool {
    let c0 = g0.turn_context->Some_0;
    let n = o0.len() as int;
    match c0.claimed_role {
        None => gf == Some(g0),
        Some(role) => {
            let held = holds_role(g0.players@, c0.actor_uuid, role);
            let text = challenge_text(seat_name(g0.players@, challenger), c0.actor_name@, role, held, false);
            if held {
                &&& o1.len() > n
                &&& result_sent(o1[n], text, seat_ids(g0))
                &&& exists|g1: Game| #[trigger] card_swapped(g0, g1, c0.actor_uuid, role) && influence_required(
                    g1,
                    gf,
                    challenger,
                    AfterInfluenceLoss::ProceedAfterFailedChallenge,
                    o0.push(o1[n]),
                    o1,
                    u,
                )
            } else {
                reward_fits(g0, challenger) ==> {
                    &&& o1.len() > n
                    &&& result_sent(o1[n], text, seat_ids(g0))
                    &&& exists|g1: Game| #[trigger] rewarded(g0, g1, challenger) && influence_required(
                        g1,
                        gf,
                        c0.actor_uuid,
                        AfterInfluenceLoss::TurnEnds,
                        o0.push(o1[n]),
                        o1,
                        u,
                    )
                }
            }
        },
    }
}

/// Table `gf` and messages `o1` after `o0` are what room `u` comes to after
/// `challenger` challenged the block at table `g0`. Everyone is first told
/// how it turned out. A blocker holding the claimed role swaps it for a card
/// from the deck and the challenger loses influence (the block stands); a
/// bluffing blocker loses influence, the challenger earns a coin (when its
/// purse has room), and the action is carried out.
pub open spec fn block_challenge_resolved(
    g0: Game,
    gf: Option<Game>,
    challenger: u128,
    o0: Seq<Outgoing>,
    o1: Seq<Outgoing>,
    u: u128,
) -> bool {
    let c0 = g0.turn_context->Some_0;
    let n = o0.len() as int;
    match c0.block_info {
        None => gf == Some(g0),
        Some(b) => {
            let held = holds_role(g0.players@, b.blocker_uuid, b.claimed_role);
            let text = challenge_text(seat_name(g0.players@, challenger), b.blocker_name@, b.claimed_role, held, true);
            if held {
                &&& o1.len() > n
                &&& result_sent(o1[n], text, seat_ids(g0))
                &&& exists|g1: Game| #[trigger] card_swapped(g0, g1, b.blocker_uuid, b.claimed_role)
                    && influence_required(g1, gf, challenger, AfterInfluenceLoss::BlockSucceeds, o0.push(o1[n]), o1, u)
            } else {
                reward_fits(g0, challenger) ==> {
                    &&& o1.len() > n
                    &&& result_sent(o1[n], text, seat_ids(g0))
                    &&& exists|g1: Game| #[trigger] rewarded(g0, g1, challenger) && influence_required(
                        g1,
                        gf,
                        b.blocker_uuid,
                        AfterInfluenceLoss::ExecuteAction,
                        o0.push(o1[n]),
                        o1,
                        u,
                    )
                }
            }
        },
    }
}

/// The name of the first player seated as `u`, or an empty name.
pub open spec fn seat_name(ps: Seq<Player>, u: u128) -> Seq<char> {
    if has_seat(ps, u) {
        ps[seat_of(ps, u)].name@
    } else {
        Seq::empty()
    }
}

/// What everyone is told of a challenge of `actor`'s claim to `role` by
/// `challenger`, as the claim was held or bluffed; `block` when the claim
/// is a block's.
pub open spec fn challenge_text(
    challenger: Seq<char>,
    actor: Seq<char>,
    role: Role,
    held: bool,
    block: bool,
) -> Seq<char> {
    if held {
        let challenged = if block { " challenged the block but "@ } else { " challenged but "@ };
        challenger + challenged + actor + " revealed "@ + role_name_spec(role) + "! "@ + challenger
            + " loses influence."@
    } else {
        let challenged = if block { " challenged the block and "@ } else { " challenged and "@ };
        challenger + challenged + actor + " was bluffing! "@ + actor + " loses influence. "@ + challenger
            + " earns 1 coin."@
    }
}

/// The message tells the players `to` the text `text`.
pub open spec fn result_sent(o: Outgoing, text: Seq<char>, to: Seq<u128>) -> bool {
    o matches Outgoing::Send { to: t, message: ServerMessage::ActionResult { message } } && message@ == text
        && t@ == to
}

/// The message goes to every player seated at table `g`, in seat order.
pub open spec fn sent_to_all(o: Outgoing, g: Game) -> bool {
    o matches Outgoing::Send { to, .. } && to@ == seat_ids(g)
}

/// The identifiers of the players seated at table `g`, in seat order.
pub open spec fn seat_ids(g: Game) -> Seq<u128> {
    g.players@.map_values(|p: Player| p.uuid)
}

/// From position `n` on, the messages `o` show every player of table `g`
/// the table as it sees it, in seat order.
pub open spec fn tables_sent(o: Seq<Outgoing>, n: int, g: Game) -> bool {
    &&& 0 <= n
    &&& n + g.players@.len() <= o.len()
    &&& forall|k: int| 0 <= k < g.players@.len() ==> table_sent_to(#[trigger] o[n + k], g, g.players@[k].uuid)
}

/// The messages `o1` are `o0` followed by table `g` shown to every player;
/// or by a halt when the table cannot be shown.
pub open spec fn table_shown(g: Game, o0: Seq<Outgoing>, o1: Seq<Outgoing>) -> bool {
    let n = o0.len() as int;
    if g.players@.len() > 0 && !crate::state::viewable(g) {
        o1.len() == n + 1 && o1.last() is Halt
    } else {
        o1.len() == n + g.players@.len() && tables_sent(o1, n, g)
    }
}

/// The message asks player `t` which of the hidden cards of the hand
/// `cards` to give up, showing them face up.
pub open spec fn choice_sent(o: Outgoing, t: u128, cards: Seq<Card>) -> bool {
    o matches Outgoing::Send { to, message: ServerMessage::LoseInfluenceChoice { cards: cv } } && to@ == seq![t]
        && cv@ == crate::player::hidden_of(cards).map_values(|c: Card| CardView { role: Some(c.role), visible: false })
}

/// The messages `o1` are `o0` followed by table `g` shown to every player,
/// then player `t` (when seated) asked which hidden card to give up; or by a
/// halt when the table cannot be shown.
pub open spec fn choice_asked(g: Game, t: u128, o0: Seq<Outgoing>, o1: Seq<Outgoing>) -> bool {
    let n = o0.len() as int;
    let m = g.players@.len() as int;
    if m > 0 && !crate::state::viewable(g) {
        o1.len() == n + 1 && o1.last() is Halt
    } else {
        &&& tables_sent(o1, n, g)
        &&& o1.len() == n + m + (if has_seat(g.players@, t) { 1int } else { 0int })
        &&& has_seat(g.players@, t) ==> choice_sent(o1[n + m], t, g.players@[seat_of(g.players@, t)].cards@)
    }
}

/// The message tells every player of table `g` that the one player still
/// alive won.
pub open spec fn game_over_sent(o: Outgoing, g: Game) -> bool {
    o matches Outgoing::Send { to, message: ServerMessage::GameOver { winner } } && to@ == seat_ids(g) && exists|
        i: int,
    | 0 <= i < g.players@.len() && (#[trigger] g.players@[i]).is_alive && winner@ == g.players@[i].name@
}

/// The messages `o1` are `o0` followed by the announcement of the phase that
/// table `g` opens in room `u`: every player is shown the table, then those
/// who may answer are prompted, then its timer is scheduled; or by a halt
/// when the table cannot be shown.
pub open spec fn phase_announced(g: Game, o0: Seq<Outgoing>, o1: Seq<Outgoing>, u: u128) -> bool {
    let c = g.turn_context->Some_0;
    let n = o0.len() as int;
    let m = g.players@.len() as int;
    let prompted = c.phase != TurnPhase::AwaitingBlockChallengeResponses || c.block_info is Some;
    if m > 0 && !crate::state::viewable(g) {
        o1.len() == n + 1 && o1.last() is Halt
    } else {
        &&& o1.len() == n + m + (if prompted { 1int } else { 0int }) + 1
        &&& tables_sent(o1, n, g)
        &&& prompted ==> prompt_sent(o1[n + m], c, eligible_of(g))
        &&& o1.last() == (Outgoing::ScheduleTimeout { room_uuid: u, generation: (c.timer_generation + 1) as u64 })
    }
}

/// Messages added after the first ones keep them.
pub proof fn lemma_tables_kept(o1: Seq<Outgoing>, o2: Seq<Outgoing>, n: int, g: Game)
    requires
        tables_sent(o1, n, g),
        o1.len() <= o2.len(),
        o2.subrange(0, o1.len() as int) == o1,
    ensures
        tables_sent(o2, n, g),
{
    assert forall|k: int| 0 <= k < g.players@.len() implies table_sent_to(#[trigger] o2[n + k], g, g.players@[k].uuid) by {
        assert(o2.subrange(0, o1.len() as int)[n + k] == o1[n + k]);
    }
}

/// The names of the roles that may block an action with rules `r`.
pub open spec fn blocker_names(r: Option<ActionRules>) -> Seq<Seq<char>> {
    match r {
        Some(rules) => rules.blockable_by.map_values(|role: Role| role_name_spec(role)),
        None => Seq::empty(),
    }
}

/// The message prompts the players `to` to answer the phase of turn context
/// `c0`, naming what the phase is about, within the phase deadline.
pub open spec fn prompt_sent(o: Outgoing, c0: TurnContext, to: Seq<u128>) -> bool {
    match o {
        Outgoing::Send { to: t, message } => t@ == to && match c0.phase {
            TurnPhase::AwaitingChallengeResponses => match message {
                ServerMessage::ChallengePrompt { actor, action, claimed_role, target, deadline_secs } => {
                    &&& actor@ == c0.actor_name@
                    &&& action@ == display_name(c0.action@)
                    &&& claimed_role@ == crate::state::claimed_text(c0.claimed_role)
                    &&& target == c0.target_name
                    &&& deadline_secs == PHASE_DEADLINE_SECS
                },
                _ => false,
            },
            TurnPhase::AwaitingBlockResponses => match message {
                ServerMessage::BlockPrompt { actor, action, blockable_by, target, deadline_secs } => {
                    &&& actor@ == c0.actor_name@
                    &&& action@ == display_name(c0.action@)
                    &&& blockable_by.deep_view() == blocker_names(action_rules(c0.action@))
                    &&& target == c0.target_name
                    &&& deadline_secs == PHASE_DEADLINE_SECS
                },
                _ => false,
            },
            TurnPhase::AwaitingBlockChallengeResponses => match message {
                ServerMessage::BlockChallengePrompt { blocker, claimed_role, original_action, deadline_secs } => {
                    &&& c0.block_info matches Some(b) && blocker@ == b.blocker_name@ && claimed_role@
                        == role_name_spec(b.claimed_role)
                    &&& original_action@ == display_name(c0.action@)
                    &&& deadline_secs == PHASE_DEADLINE_SECS
                },
                _ => false,
            },
        },
        _ => false,
    }
}

/// The same rooms, in the same order (their tables may differ).
pub open spec fn kept_rooms(s0: ChatServer, s1: ChatServer) -> bool {
    same_room_ids(s0.rooms@, s1.rooms@)
}

/// Keeping the rooms keeps their identifiers distinct.
pub proof fn lemma_kept_wf(s0: ChatServer, s1: ChatServer)
    requires
        s0.wf(),
        kept_rooms(s0, s1),
    ensures
        s1.wf(),
{
    assert forall|i: int, j: int| 0 <= i < j < s1.rooms@.len() implies
        (#[trigger] s1.rooms@[i]).uuid != (#[trigger] s1.rooms@[j]).uuid by {
        assert(s0.rooms@[i].uuid != s0.rooms@[j].uuid);
    }
}

/// A table keeps its seats (identifiers and names, in order), its code and
/// its size.
pub open spec fn same_table(g0: Game, g1: Game) -> bool {
    &&& g1.players@.len() == g0.players@.len()
    &&& forall|k: int| 0 <= k < g0.players@.len() ==> (#[trigger] g1.players@[k]).uuid == g0.players@[k].uuid
        && g1.players@[k].name@ == g0.players@[k].name@
    &&& g1.room_code@ == g0.room_code@
    &&& g1.max_players == g0.max_players
}

/// Room `r1` is room `r0` after play in room `u`.
pub open spec fn room_played(r0: Room, r1: Room, u: u128) -> bool {
    &&& r1.uuid == r0.uuid
    &&& if r0.uuid == u {
        same_table(r0.game, r1.game)
    } else {
        r1 == r0
    }
}

/// `s1` is `s0` after play in room `u`: the same rooms in the same order,
/// every other room as it was, and in room `u` the same table.
pub open spec fn played_in_room(s0: ChatServer, s1: ChatServer, u: u128) -> bool {
    &&& kept_rooms(s0, s1)
    &&& forall|j: int| 0 <= j < s0.rooms@.len() ==> room_played(s0.rooms@[j], #[trigger] s1.rooms@[j], u)
}

/// Where a message of room `u` may go: to players seated at table `g`; a
/// timer only for room `u`.
pub open spec fn within_room(o: Outgoing, g: Game, u: u128) -> bool {
    match o {
        Outgoing::Send { to, .. } => forall|j: int| 0 <= j < to@.len() ==> has_seat(g.players@, #[trigger] to@[j]),
        Outgoing::ScheduleTimeout { room_uuid, .. } => room_uuid == u,
        Outgoing::Halt { .. } => true,
    }
}

/// Message `o` of room `u` may go where it goes, at the table of `s`.
pub open spec fn sent_for(o: Outgoing, s: ChatServer, u: u128) -> bool {
    match room_game(s, u) {
        Some(g) => within_room(o, g, u),
        None => false,
    }
}

/// `o1` is `o0` followed by messages of room `u` of server `s`.
pub open spec fn sent_in_room(o0: Seq<Outgoing>, o1: Seq<Outgoing>, s: ChatServer, u: u128) -> bool {
    &&& o0.len() <= o1.len()
    &&& o1.subrange(0, o0.len() as int) == o0
    &&& forall|i: int| o0.len() <= i < o1.len() ==> sent_for(#[trigger] o1[i], s, u)
}

/// The message shows player `p` table `g` as `p` sees it.
pub open spec fn table_sent_to(o: Outgoing, g: Game, p: u128) -> bool {
    o matches Outgoing::Send { to, message: ServerMessage::GameState(gs) } && to@ == seq![p] && view_for(gs, g, p)
}

/// Room `u` has no influence choice pending (or there is no such room).
pub open spec fn no_pending(s: ChatServer, u: u128) -> bool {
    match room_game(s, u) {
        Some(g) => g.pending_influence_loss is None,
        None => true,
    }
}

/// Room `u` waits in a phase of timer generation `generation`, with no
/// influence choice pending.
pub open spec fn waits_with(s: ChatServer, u: u128, generation: u64) -> bool {
    match room_game(s, u) {
        Some(g) => g.pending_influence_loss is None && (g.turn_context matches Some(c) && c.timer_generation
            == generation),
        None => false,
    }
}

/// A timer among the messages from position `n` on comes last, and the
/// phase it is for still waits with its generation in `s`.
pub open spec fn timers_live(o: Seq<Outgoing>, n: int, s: ChatServer) -> bool {
    forall|i: int| n <= i < o.len() && (#[trigger] o[i]) is ScheduleTimeout ==> i == o.len() - 1
        && waits_with(s, o[i]->room_uuid, o[i]->generation)
}

/// No timer among the messages from position `n` on.
pub open spec fn no_timers(o: Seq<Outgoing>, n: int) -> bool {
    forall|i: int| n <= i < o.len() ==> !((#[trigger] o[i]) is ScheduleTimeout)
}

/// Keeping the seats twice keeps them.
pub proof fn lemma_same_table_trans(g0: Game, g1: Game, g2: Game)
    requires
        same_table(g0, g1),
        same_table(g1, g2),
    ensures
        same_table(g0, g2),
{
    assert forall|k: int| 0 <= k < g0.players@.len() implies (#[trigger] g2.players@[k]).uuid == g0.players@[k].uuid
        && g2.players@[k].name@ == g0.players@[k].name@ by {
        assert(g1.players@[k].uuid == g0.players@[k].uuid);
    }
}

/// Seats are the same at tables that keep them.
pub proof fn lemma_same_table_seats(g0: Game, g1: Game, x: u128)
    requires
        same_table(g0, g1),
    ensures
        has_seat(g0.players@, x) == has_seat(g1.players@, x),
{
    if has_seat(g0.players@, x) {
        let k = choose|k: int| 0 <= k < g0.players@.len() && (#[trigger] g0.players@[k]).uuid == x;
        assert(g1.players@[k].uuid == x);
    }
    if has_seat(g1.players@, x) {
        let k = choose|k: int| 0 <= k < g1.players@.len() && (#[trigger] g1.players@[k]).uuid == x;
        assert(g1.players@[k].uuid == g0.players@[k].uuid);
    }
}

/// Doing nothing is play in any room.
pub proof fn lemma_played_refl(s: ChatServer, u: u128)
    ensures
        played_in_room(s, s, u),
{
}

/// Two steps of play in room `u` are play in room `u`.
pub proof fn lemma_played_trans(s0: ChatServer, s1: ChatServer, s2: ChatServer, u: u128)
    requires
        played_in_room(s0, s1, u),
        played_in_room(s1, s2, u),
    ensures
        played_in_room(s0, s2, u),
{
    assert forall|j: int| 0 <= j < s0.rooms@.len() implies room_played(s0.rooms@[j], #[trigger] s2.rooms@[j], u) by {
        assert(room_played(s0.rooms@[j], s1.rooms@[j], u));
        assert(room_played(s1.rooms@[j], s2.rooms@[j], u));
        if s0.rooms@[j].uuid == u {
            lemma_same_table_trans(s0.rooms@[j].game, s1.rooms@[j].game, s2.rooms@[j].game);
        }
    }
}

/// Play in room `u` that changes only the table at position `i`, keeping its
/// seats.
pub proof fn lemma_played_at(s0: ChatServer, s1: ChatServer, i: int, u: u128)
    requires
        0 <= i < s0.rooms@.len(),
        s0.rooms@[i].uuid == u,
        s1.rooms@.len() == s0.rooms@.len(),
        s1.rooms@[i].uuid == u,
        same_table(s0.rooms@[i].game, s1.rooms@[i].game),
        forall|j: int| 0 <= j < s0.rooms@.len() && j != i ==> s1.rooms@[j] == s0.rooms@[j],
    ensures
        played_in_room(s0, s1, u),
{
    assert forall|j: int| 0 <= j < s0.rooms@.len() implies room_played(s0.rooms@[j], #[trigger] s1.rooms@[j], u) by {
        if j != i {
            assert(s1.rooms@[j] == s0.rooms@[j]);
        }
    }
}

/// The room `u` of a well-formed server sits at position `i`.
pub proof fn lemma_room_game_at(s: ChatServer, i: int, u: u128)
    requires
        s.wf(),
        0 <= i < s.rooms@.len(),
        s.rooms@[i].uuid == u,
    ensures
        room_game(s, u) == Some(s.rooms@[i].game),
{
    assert(crate::server::has_room(s.rooms@, u));
    let k = crate::server::room_pos(s.rooms@, u);
    if k < i {
        assert(s.rooms@[k].uuid != s.rooms@[i].uuid);
    } else if k > i {
        assert(s.rooms@[i].uuid != s.rooms@[k].uuid);
    }
}

/// After play in room `u`, the room is still there (or still missing), with
/// the same seats.
pub proof fn lemma_played_room_game(s0: ChatServer, s1: ChatServer, u: u128)
    requires
        s0.wf(),
        played_in_room(s0, s1, u),
    ensures
        s1.wf(),
        room_game(s0, u) is Some == room_game(s1, u) is Some,
        room_game(s0, u) is Some ==> same_table(room_game(s0, u)->Some_0, room_game(s1, u)->Some_0),
        room_game(s0, u) is None ==> s1.rooms@ == s0.rooms@,
{
    lemma_kept_wf(s0, s1);
    if crate::server::has_room(s0.rooms@, u) {
        let i = crate::server::room_pos(s0.rooms@, u);
        lemma_room_game_at(s0, i, u);
        assert(room_played(s0.rooms@[i], s1.rooms@[i], u));
        lemma_room_game_at(s1, i, u);
    } else {
        assert(!crate::server::has_room(s1.rooms@, u)) by {
            if crate::server::has_room(s1.rooms@, u) {
                let k = choose|k: int| 0 <= k < s1.rooms@.len() && (#[trigger] s1.rooms@[k]).uuid == u;
                assert(s0.rooms@[k].uuid == u);
            }
        }
        assert forall|j: int| 0 <= j < s0.rooms@.len() implies #[trigger] s1.rooms@[j] == s0.rooms@[j] by {
            assert(room_played(s0.rooms@[j], s1.rooms@[j], u));
        }
        assert(s1.rooms@ =~= s0.rooms@);
    }
}

/// Messages sent by two steps of play in room `u`.
pub proof fn lemma_sent_trans(
    o0: Seq<Outgoing>,
    o1: Seq<Outgoing>,
    o2: Seq<Outgoing>,
    s0: ChatServer,
    s1: ChatServer,
    u: u128,
)
    requires
        s0.wf(),
        played_in_room(s0, s1, u),
        sent_in_room(o0, o1, s0, u),
        sent_in_room(o1, o2, s1, u),
    ensures
        sent_in_room(o0, o2, s0, u),
{
    lemma_played_room_game(s0, s1, u);
    assert(o2.subrange(0, o0.len() as int) =~= o1.subrange(0, o0.len() as int)) by {
        assert forall|i: int| 0 <= i < o0.len() implies o2[i] == o1[i] by {
            assert(o2.subrange(0, o1.len() as int)[i] == o1[i]);
        }
    }
    assert forall|i: int| o0.len() <= i < o2.len() implies sent_for(#[trigger] o2[i], s0, u) by {
        if i < o1.len() {
            assert(o2.subrange(0, o1.len() as int)[i] == o1[i]);
            assert(sent_for(o1[i], s0, u));
        } else {
            assert(sent_for(o2[i], s1, u));
            let g0 = room_game(s0, u)->Some_0;
            let g1 = room_game(s1, u)->Some_0;
            match o2[i] {
                Outgoing::Send { to, .. } => {
                    assert forall|j: int| 0 <= j < to@.len() implies has_seat(g0.players@, #[trigger] to@[j]) by {
                        lemma_same_table_seats(g0, g1, to@[j]);
                    }
                },
                _ => {},
            }
        }
    }
}

/// Timers of a later step stay live when the earlier step scheduled none.
pub proof fn lemma_timers_after(o1: Seq<Outgoing>, o2: Seq<Outgoing>, n: int, s: ChatServer)
    requires
        0 <= n <= o1.len() <= o2.len(),
        o2.subrange(0, o1.len() as int) == o1,
        no_timers(o1, n),
        timers_live(o2, o1.len() as int, s),
    ensures
        timers_live(o2, n, s),
{
    assert forall|i: int| n <= i < o2.len() && (#[trigger] o2[i]) is ScheduleTimeout implies i == o2.len() - 1
        && waits_with(s, o2[i]->room_uuid, o2[i]->generation) by {
        if i < o1.len() {
            assert(o2.subrange(0, o1.len() as int)[i] == o1[i]);
        }
    }
}

/// Two steps that schedule no timer schedule none.
pub proof fn lemma_no_timers_after(o1: Seq<Outgoing>, o2: Seq<Outgoing>, n: int)
    requires
        0 <= n <= o1.len() <= o2.len(),
        o2.subrange(0, o1.len() as int) == o1,
        no_timers(o1, n),
        no_timers(o2, o1.len() as int),
    ensures
        no_timers(o2, n),
{
    assert forall|i: int| n <= i < o2.len() implies !((#[trigger] o2[i]) is ScheduleTimeout) by {
        if i < o1.len() {
            assert(o2.subrange(0, o1.len() as int)[i] == o1[i]);
        }
    }
}

fn alive_except_list(ps: &Vec<Player>, except: Option<u128>) -> (v: Vec<u128>)
    ensures
        v@ == alive_except(ps@, except),
{
    let mut v: Vec<u128> = Vec::new();
    let mut i: usize = 0;
    while i < ps.len()
        invariant
            i <= ps@.len(),
            v@ == alive_except(ps@.take(i as int), except),
        decreases ps@.len() - i,
    {
        assert(ps@.take(i + 1).drop_last() =~= ps@.take(i as int));
        if ps[i].is_alive && except != Some(ps[i].uuid) {
            v.push(ps[i].uuid);
        }
        i = i + 1;
    }
    assert(ps@.take(ps@.len() as int) =~= ps@);
    v
}

fn is_alive_player(ps: &Vec<Player>, u: u128) -> (r: bool)
    ensures
        r == exists|i: int| 0 <= i < ps@.len() && (#[trigger] ps@[i]).uuid == u && ps@[i].is_alive,
{
    let mut i: usize = 0;
    while i < ps.len()
        invariant
            i <= ps@.len(),
            forall|j: int| 0 <= j < i ==> !((#[trigger] ps@[j]).uuid == u && ps@[j].is_alive),
        decreases ps@.len() - i,
    {
        if ps[i].uuid == u && ps[i].is_alive {
            return true;
        }
        i = i + 1;
    }
    false
}

fn cat(a: String, b: &str) -> (r: String)
    ensures
        r@ == a@ + b@,
{
    a.concat(b)
}

fn clone_opt(s: &Option<String>) -> (r: Option<String>)
    ensures
        r == *s,
{
    match s {
        Some(x) => Some(x.clone()),
        None => None,
    }
}

fn role_names(roles: &Vec<Role>) -> (v: Vec<String>)
    ensures
        v.deep_view() == roles@.map_values(|role: Role| role_name_spec(role)),
{
    let mut v: Vec<String> = Vec::new();
    let mut i: usize = 0;
    while i < roles.len()
        invariant
            i <= roles@.len(),
            v.deep_view() == roles@.take(i as int).map_values(|role: Role| role_name_spec(role)),
        decreases roles@.len() - i,
    {
        let ghost before = v.deep_view();
        let name = role_name(roles[i]).to_owned();
        v.push(name);
        assert(v.deep_view() =~= before.push(name@));
        assert(roles@.take(i + 1).map_values(|role: Role| role_name_spec(role)) =~= roles@.take(
            i as int,
        ).map_values(|role: Role| role_name_spec(role)).push(role_name_spec(roles@[i as int])));
        i = i + 1;
    }
    assert(roles@.take(roles@.len() as int) =~= roles@);
    v
}

/// The name of the first player seated as `u`, or an empty name.
fn name_of(ps: &Vec<Player>, u: u128) -> (s: String)
    ensures
        s@ == seat_name(ps@, u),
{
    match find_seat(ps, u) {
        Some(i) => ps[i].name.clone(),
        None => String::new(),
    }
}

fn viewable_now(game: &Game) -> (r: bool)
    ensures
        r == crate::state::viewable(*game),
{
    if game.current_player >= game.players.len() {
        return false;
    }
    match game.pending_influence_loss {
        Some(u) => match find_seat(&game.players, u) {
            Some(_) => true,
            None => false,
        },
        None => true,
    }
}

impl ChatServer {
    /// Who may answer the phase the room's turn waits in (see [`eligible_of`]).
    pub fn get_eligible_responders(&self, room_uuid: &u128) -> (v: Vec<u128>)
        requires
            self.wf(),
        ensures
            match room_game(*self, *room_uuid) {
                Some(g) => v@ == eligible_of(g),
                None => v@ == Seq::<u128>::empty(),
            },
    {
        let i = match self.room_index(*room_uuid) {
            Some(i) => i,
            None => {
                return Vec::new();
            },
        };
        let game = &self.rooms[i].game;
        let turn_ctx = match &game.turn_context {
            Some(c) => c,
            None => {
                return Vec::new();
            },
        };
        match turn_ctx.phase {
            TurnPhase::AwaitingChallengeResponses => alive_except_list(&game.players, Some(turn_ctx.actor_uuid)),
            TurnPhase::AwaitingBlockResponses => {
                let block_target_only = match get_action_properties(turn_ctx.action.as_str()) {
                    Some(p) => p.block_target_only,
                    None => false,
                };
                if block_target_only {
                    let mut v: Vec<u128> = Vec::new();
                    match turn_ctx.target_uuid {
                        Some(t) => {
                            if is_alive_player(&game.players, t) {
                                v.push(t);
                            }
                        },
                        None => {},
                    }
                    assert(v@ =~= eligible_of(*game));
                    v
                } else {
                    alive_except_list(&game.players, Some(turn_ctx.actor_uuid))
                }
            },
            TurnPhase::AwaitingBlockChallengeResponses => {
                let blocker = match &turn_ctx.block_info {
                    Some(b) => Some(b.blocker_uuid),
                    None => None,
                };
                alive_except_list(&game.players, blocker)
            },
        }
    }

    /// Sends each player of the room the table as they see it. Returns false
    /// (after a halt) when the table cannot be shown.
    pub(crate) fn broadcast_game_state(&self, room_uuid: &u128, out: &mut Vec<Outgoing>) -> (ok: bool)
        requires
            self.wf(),
        ensures
            sent_in_room(old(out)@, final(out)@, *self, *room_uuid),
            no_timers(final(out)@, old(out)@.len() as int),
            match room_game(*self, *room_uuid) {
                None => ok && final(out)@ == old(out)@,
                Some(g) => if g.players@.len() == 0 {
                    ok && final(out)@ == old(out)@
                } else if !crate::state::viewable(g) {
                    !ok && final(out)@.len() == old(out)@.len() + 1 && final(out)@.last() is Halt
                } else {
                    &&& ok
                    &&& final(out)@.len() == old(out)@.len() + g.players@.len()
                    &&& forall|k: int| 0 <= k < g.players@.len() ==> table_sent_to(
                        #[trigger] final(out)@[old(out)@.len() + k],
                        g,
                        g.players@[k].uuid,
                    )
                },
            },
    {
        let ghost o0 = out@;
        assert(o0.subrange(0, o0.len() as int) =~= o0);
        let i = match self.room_index(*room_uuid) {
            Some(i) => i,
            None => {
                return true;
            },
        };
        proof { lemma_room_game_at(*self, i as int, *room_uuid); }
        let game = &self.rooms[i].game;
        if game.players.len() == 0 {
            return true;
        }
        if !viewable_now(game) {
            out.push(Outgoing::Halt { reason: "the table has no current seat or no seat for the pending player".to_owned() });
            assert(out@.subrange(0, o0.len() as int) =~= o0);
            return false;
        }
        let mut k: usize = 0;
        while k < game.players.len()
            invariant
                k <= game.players@.len(),
                crate::state::viewable(*game),
                room_game(*self, *room_uuid) == Some(*game),
                out@.len() == o0.len() + k,
                out@.subrange(0, o0.len() as int) == o0,
                forall|j: int| 0 <= j < k ==> table_sent_to(#[trigger] out@[o0.len() + j], *game, game.players@[j].uuid),
            decreases game.players@.len() - k,
        {
            let u = game.players[k].uuid;
            let gs = GameState::for_player(&u, game);
            out.push(Outgoing::Send { to: one_of(u), message: ServerMessage::GameState(gs) });
            assert(out@.subrange(0, o0.len() as int) =~= o0);
            k = k + 1;
        }
        assert forall|i2: int| o0.len() <= i2 < out@.len() implies sent_for(#[trigger] out@[i2], *self, *room_uuid) by {
            let j = i2 - o0.len();
            assert(out@[o0.len() + j] == out@[i2]);
            match out@[i2] {
                Outgoing::Send { to, .. } => {
                    assert forall|m: int| 0 <= m < to@.len() implies has_seat(game.players@, #[trigger] to@[m]) by {
                        assert(game.players@[j].uuid == to@[m]);
                    }
                },
                _ => {},
            }
        }
        assert forall|i2: int| o0.len() <= i2 < out@.len() implies !((#[trigger] out@[i2]) is ScheduleTimeout) by {
            let j = i2 - o0.len();
            assert(out@[o0.len() + j] == out@[i2]);
        }
        true
    }

    /// Sends the message to every player of the room.
    pub(crate) fn broadcast_to_room(&self, room_uuid: &u128, message: ServerMessage, out: &mut Vec<Outgoing>)
        ensures
            self.wf() ==> sent_in_room(old(out)@, final(out)@, *self, *room_uuid),
            self.wf() ==> forall|i: int| 0 <= i < self.rooms@.len() && (#[trigger] self.rooms@[i]).uuid == *room_uuid
                ==> sent_to_all(final(out)@.last(), self.rooms@[i].game),
            no_timers(final(out)@, old(out)@.len() as int),
            !crate::server::has_room(self.rooms@, *room_uuid) ==> final(out)@ == old(out)@,
            crate::server::has_room(self.rooms@, *room_uuid) ==> {
                &&& final(out)@.len() == old(out)@.len() + 1
                &&& final(out)@.drop_last() == old(out)@
                &&& exists|i: int| 0 <= i < self.rooms@.len() && (#[trigger] self.rooms@[i]).uuid == *room_uuid
                    && (final(out)@.last() matches Outgoing::Send { to, message: m }
                        && to@ == self.rooms@[i].game.players@.map_values(|p: Player| p.uuid) && m == message)
            },
    {
        let ghost o0 = out@;
        assert(o0.subrange(0, o0.len() as int) =~= o0);
        match self.room_index(*room_uuid) {
            Some(i) => {
                let to = uuids_of(&self.rooms[i].game.players);
                out.push(Outgoing::Send { to, message });
                assert(out@.subrange(0, o0.len() as int) =~= o0);
                proof {
                    if self.wf() {
                        assert forall|j: int| 0 <= j < self.rooms@.len() && (#[trigger] self.rooms@[j]).uuid == *room_uuid
                            implies sent_to_all(out@.last(), self.rooms@[j].game) by {
                            if j < i {
                                assert(self.rooms@[j].uuid != self.rooms@[i as int].uuid);
                            } else if j > i {
                                assert(self.rooms@[i as int].uuid != self.rooms@[j].uuid);
                            }
                        }
                        lemma_room_game_at(*self, i as int, *room_uuid);
                        let ps = self.rooms@[i as int].game.players@;
                        match out@.last() {
                            Outgoing::Send { to, .. } => {
                                assert forall|m: int| 0 <= m < to@.len() implies has_seat(ps, #[trigger] to@[m]) by {
                                    assert(ps[m].uuid == to@[m]);
                                }
                            },
                            _ => {},
                        }
                        assert(sent_for(out@[o0.len() as int], *self, *room_uuid));
                    }
                }
            },
            None => {},
        }
    }

    /// Announces the winner when one player is left, else passes the turn.
    /// Returns `Some(true)` when the game is over, `None` after a halt.
    pub(crate) fn check_game_over_and_advance(&mut self, room_uuid: &u128, out: &mut Vec<Outgoing>) -> (r: Option<bool>)
        requires
            old(self).wf(),
        ensures
            played_in_room(*old(self), *final(self), *room_uuid),
            sent_in_room(old(out)@, final(out)@, *old(self), *room_uuid),
            no_timers(final(out)@, old(out)@.len() as int),
            match room_game(*old(self), *room_uuid) {
                None => r == Some(false) && *final(self) == *old(self) && final(out)@ == old(out)@,
                Some(g0) => if alive_count(g0.players@) == 1 {
                    &&& r == (if crate::state::viewable(g0) { Some(true) } else { None })
                    &&& *final(self) == *old(self)
                    &&& final(out)@.len() > old(out)@.len()
                    &&& game_over_sent(final(out)@[old(out)@.len() as int], g0)
                    &&& table_shown(g0, old(out)@.push(final(out)@[old(out)@.len() as int]), final(out)@)
                } else if alive_count(g0.players@) == 0 || g0.current_player == usize::MAX {
                    &&& r is None
                    &&& *final(self) == *old(self)
                    &&& final(out)@.len() == old(out)@.len() + 1
                    &&& final(out)@.last() is Halt
                } else {
                    &&& r == Some(false)
                    &&& final(out)@ == old(out)@
                    &&& passed_turn(g0, room_game(*final(self), *room_uuid))
                },
            },
    {
        let ghost o0 = out@;
        assert(o0.subrange(0, o0.len() as int) =~= o0);
        let i = match self.room_index(*room_uuid) {
            Some(i) => i,
            None => {
                return Some(false);
            },
        };
        proof { lemma_room_game_at(*self, i as int, *room_uuid); }
        let winner = match self.rooms[i].game.check_game_over() {
            Some(w) => Some(w.name.clone()),
            None => None,
        };
        match winner {
            Some(w) => {
                self.broadcast_to_room(room_uuid, ServerMessage::GameOver { winner: w }, out);
                let ghost o1 = out@;
                proof {
                    assert(sent_to_all(o1.last(), self.rooms@[i as int].game));
                    assert(o1 == o0.push(o1.last()));
                }
                let ok = self.broadcast_game_state(room_uuid, out);
                proof {
                    lemma_played_refl(*self, *room_uuid);
                    lemma_sent_trans(o0, o1, out@, *self, *self, *room_uuid);
                    lemma_no_timers_after(o1, out@, o0.len() as int);
                    assert(out@[o0.len() as int] == o1[o0.len() as int]) by {
                        assert(out@.subrange(0, o1.len() as int)[o0.len() as int] == o1[o0.len() as int]);
                    }
                }
                if !ok {
                    return None;
                }
                return Some(true);
            },
            None => {},
        }
        let game = &self.rooms[i].game;
        proof {
            lemma_alive_exists(game.players@);
        }
        if game.players.len() == 0 || game.current_player == usize::MAX || !any_alive(&game.players) {
            out.push(Outgoing::Halt { reason: "no living player to pass the turn to".to_owned() });
            assert(out@.subrange(0, o0.len() as int) =~= o0);
            assert(sent_for(out@[o0.len() as int], *old(self), *room_uuid));
            return None;
        }
        let ghost s0 = *self;
        let _ = self.rooms[i].game.next_player();
        proof {
            lemma_played_at(s0, *self, i as int, *room_uuid);
            lemma_room_game_at(*self, i as int, *room_uuid);
        }
        Some(false)
    }

    /// Ends the turn: a winner is announced, or the turn passes and everyone
    /// sees the new table.
    pub(crate) fn finish_turn(&mut self, room_uuid: &u128, out: &mut Vec<Outgoing>) -> (ok: bool)
        requires
            old(self).wf(),
        ensures
            played_in_room(*old(self), *final(self), *room_uuid),
            sent_in_room(old(out)@, final(out)@, *old(self), *room_uuid),
            no_timers(final(out)@, old(out)@.len() as int),
            match room_game(*old(self), *room_uuid) {
                None => ok && *final(self) == *old(self) && final(out)@ == old(out)@,
                Some(g0) => {
                    &&& alive_count(g0.players@) == 1 ==> *final(self) == *old(self)
                    &&& alive_count(g0.players@) != 1 && (alive_count(g0.players@) == 0 || g0.current_player
                        == usize::MAX) ==> !ok
                        && *final(self) == *old(self)
                    &&& turn_finished(g0, room_game(*final(self), *room_uuid), old(out)@, final(out)@)
                },
            },
    {
        let ghost o0 = out@;
        match self.check_game_over_and_advance(room_uuid, out) {
            None => false,
            Some(true) => true,
            Some(false) => {
                proof { lemma_played_room_game(*old(self), *self, *room_uuid); }
                let ghost o1 = out@;
                let ok = self.broadcast_game_state(room_uuid, out);
                proof {
                    lemma_sent_trans(o0, o1, out@, *old(self), *self, *room_uuid);
                    lemma_no_timers_after(o1, out@, o0.len() as int);
                }
                ok
            },
        }
    }
}

/// The turn passed from `g0` to the next living player: the table `g1` is
/// `g0` with only its current seat moved.
pub open spec fn passed_turn(g0: Game, g1: Option<Game>) -> bool {
    g1 matches Some(g) && g == (Game { current_player: g.current_player, ..g0 }) && is_next_alive(
        g0.players@,
        g0.current_player as int,
        g.current_player as int,
    )
}

/// A table with a positive count of living players has a living player.
pub proof fn lemma_alive_exists(ps: Seq<Player>)
    ensures
        alive_count(ps) > 0 <==> exists|k: int| 0 <= k < ps.len() && (#[trigger] ps[k]).is_alive,
    decreases ps.len(),
{
    if ps.len() > 0 {
        lemma_alive_exists(ps.drop_last());
        if alive_count(ps.drop_last()) > 0 {
            let k = choose|k: int| 0 <= k < ps.drop_last().len() && (#[trigger] ps.drop_last()[k]).is_alive;
            assert(ps[k].is_alive);
        }
        if exists|k: int| 0 <= k < ps.len() && (#[trigger] ps[k]).is_alive {
            let k = choose|k: int| 0 <= k < ps.len() && (#[trigger] ps[k]).is_alive;
            if k < ps.len() - 1 {
                assert(ps.drop_last()[k].is_alive);
            }
        }
    }
}

impl ChatServer {
    /// Opens the phase the room's turn waits in: clears the answers, starts a
    /// new timer generation, and prompts the players who may answer (or, when
    /// nobody may, resolves the phase at once), then schedules the timeout.
    pub(crate) fn start_current_phase(&mut self, room_uuid: &u128, out: &mut Vec<Outgoing>) -> (ok: bool)
        requires
            old(self).wf(),
        ensures
            played_in_room(*old(self), *final(self), *room_uuid),
            sent_in_room(old(out)@, final(out)@, *old(self), *room_uuid),
            no_pending(*old(self), *room_uuid) ==> timers_live(final(out)@, old(out)@.len() as int, *final(self)),
            match room_game(*old(self), *room_uuid) {
                None => ok && *final(self) == *old(self) && final(out)@ == old(out)@,
                Some(g0) => match g0.turn_context {
                    None => ok && *final(self) == *old(self) && final(out)@ == old(out)@,
                    Some(c0) => (c0.timer_generation < u64::MAX && eligible_of(g0).len() == 0 ==> exists|gm: Game|
                        #[trigger] opened_phase(g0, Some(gm)) && all_allowed(
                            gm,
                            room_game(*final(self), *room_uuid),
                            old(out)@,
                            final(out)@,
                            *room_uuid,
                        ))
                        && (c0.timer_generation < u64::MAX && eligible_of(g0).len() > 0 ==> {
                        &&& ok == crate::state::viewable(g0)
                        &&& opened_phase(g0, room_game(*final(self), *room_uuid))
                        &&& phase_announced(g0, old(out)@, final(out)@, *room_uuid)
                    }),
                },
            },
        decreases phase_rank(*old(self), *room_uuid), 1int,
    {
        let ghost o0 = out@;
        assert(o0.subrange(0, o0.len() as int) =~= o0);
        let i = match self.room_index(*room_uuid) {
            Some(i) => i,
            None => {
                return true;
            },
        };
        proof { lemma_room_game_at(*self, i as int, *room_uuid); }
        let ghost s0 = *self;
        let gen0 = match &self.rooms[i].game.turn_context {
            Some(c) => c.timer_generation,
            None => {
                return true;
            },
        };
        if gen0 == u64::MAX {
            out.push(Outgoing::Halt { reason: "timer generation overflow".to_owned() });
            proof { lemma_push_sent(o0, o0, out@.last(), *self, *room_uuid); }
            return false;
        }
        let generation = match &mut self.rooms[i].game.turn_context {
            Some(turn_ctx) => {
                turn_ctx.responded.clear();
                turn_ctx.next_generation()
            },
            None => 0,
        };
        let ghost s1 = *self;
        proof {
            lemma_played_at(s0, s1, i as int, *room_uuid);
            lemma_played_room_game(s0, s1, *room_uuid);
            lemma_room_game_at(s1, i as int, *room_uuid);
            assert(phase_rank(s1, *room_uuid) == phase_rank(s0, *room_uuid));
        }
        let eligible = self.get_eligible_responders(room_uuid);
        if eligible.len() == 0 {
            let ok = self.on_all_allowed(room_uuid, out);
            proof {
                lemma_played_trans(s0, s1, *self, *room_uuid);
                lemma_sent_trans(o0, o0, out@, s0, s1, *room_uuid);
                assert(opened_phase(s0.rooms@[i as int].game, Some(s1.rooms@[i as int].game)));
            }
            return ok;
        }
        let ok = self.broadcast_game_state(room_uuid, out);
        let ghost o1 = out@;
        proof { lemma_sent_trans(o0, o0, o1, s0, s1, *room_uuid); }
        if !ok {
            return false;
        }
        let game = &self.rooms[i].game;
        let turn_ctx = match &game.turn_context {
            Some(c) => c,
            None => {
                return true;
            },
        };
        let ghost ps = game.players@;
        let ghost g0 = s0.rooms@[i as int].game;
        let ghost c0 = g0.turn_context->Some_0;
        proof { lemma_alive_except_seated(ps); }
        let action_display = display_action_name(turn_ctx.action.as_str());
        match turn_ctx.phase {
            TurnPhase::AwaitingChallengeResponses => {
                let msg = ServerMessage::ChallengePrompt {
                    actor: turn_ctx.actor_name.clone(),
                    action: action_display,
                    claimed_role: match turn_ctx.claimed_role {
                        Some(r) => role_name(r).to_owned(),
                        None => String::new(),
                    },
                    target: clone_opt(&turn_ctx.target_name),
                    deadline_secs: PHASE_DEADLINE_SECS,
                };
                let to = alive_except_list(&game.players, Some(turn_ctx.actor_uuid));
                out.push(Outgoing::Send { to, message: msg });
                proof {
                    lemma_push_sent(o0, o1, out@.last(), s1, *room_uuid);
                    assert(prompt_sent(out@.last(), c0, eligible_of(g0)));
                }
            },
            TurnPhase::AwaitingBlockResponses => {
                let props = get_action_properties(turn_ctx.action.as_str());
                let (blockable_by, block_target_only) = match &props {
                    Some(p) => (role_names(&p.blockable_by), p.block_target_only),
                    None => (Vec::new(), false),
                };
                assert(blockable_by.deep_view() =~= blocker_names(action_rules(turn_ctx.action@)));
                let msg = ServerMessage::BlockPrompt {
                    actor: turn_ctx.actor_name.clone(),
                    action: action_display,
                    blockable_by,
                    target: clone_opt(&turn_ctx.target_name),
                    deadline_secs: PHASE_DEADLINE_SECS,
                };
                if block_target_only {
                    match turn_ctx.target_uuid {
                        Some(t) => {
                            if is_alive_player(&game.players, t) {
                                out.push(Outgoing::Send { to: one_of(t), message: msg });
                                proof {
                                    lemma_push_sent(o0, o1, out@.last(), s1, *room_uuid);
                                    assert(prompt_sent(out@.last(), c0, eligible_of(g0)));
                                }
                            }
                        },
                        None => {},
                    }
                } else {
                    let to = alive_except_list(&game.players, Some(turn_ctx.actor_uuid));
                    out.push(Outgoing::Send { to, message: msg });
                    proof {
                        lemma_push_sent(o0, o1, out@.last(), s1, *room_uuid);
                        assert(prompt_sent(out@.last(), c0, eligible_of(g0)));
                    }
                }
            },
            TurnPhase::AwaitingBlockChallengeResponses => {
                match &turn_ctx.block_info {
                    Some(block_info) => {
                        let msg = ServerMessage::BlockChallengePrompt {
                            blocker: block_info.blocker_name.clone(),
                            claimed_role: role_name(block_info.claimed_role).to_owned(),
                            original_action: action_display,
                            deadline_secs: PHASE_DEADLINE_SECS,
                        };
                        let to = alive_except_list(&game.players, Some(block_info.blocker_uuid));
                        out.push(Outgoing::Send { to, message: msg });
                        proof {
                            lemma_push_sent(o0, o1, out@.last(), s1, *room_uuid);
                            assert(prompt_sent(out@.last(), c0, eligible_of(g0)));
                        }
                    },
                    None => {},
                }
            },
        }
        let ghost o2 = out@;
        assert(no_timers(o2, o0.len() as int)) by {
            assert forall|k: int| o0.len() <= k < o2.len() implies !((#[trigger] o2[k]) is ScheduleTimeout) by {
                if k < o1.len() {
                    assert(o2.subrange(0, o1.len() as int)[k] == o1[k]);
                }
            }
        }
        out.push(Outgoing::ScheduleTimeout { room_uuid: *room_uuid, generation });
        proof {
            lemma_push_sent(o0, o2, out@.last(), s1, *room_uuid);
            lemma_sent_trans(o0, o0, out@, s0, s1, *room_uuid);
            assert forall|k: int| o0.len() <= k < out@.len() && (#[trigger] out@[k]) is ScheduleTimeout implies k
                == out@.len() - 1 && (no_pending(s0, *room_uuid) ==> waits_with(
                *self,
                out@[k]->room_uuid,
                out@[k]->generation,
            )) by {
                if k < o2.len() {
                    assert(out@[k] == o2[k]);
                }
            }
        }
        true
    }

    /// Everyone who may answer let the phase pass (or its time ran out): a
    /// challenge phase moves on to blocks when the action can be blocked,
    /// else the action is carried out; a block phase carries the action out;
    /// an unchallenged block ends the turn.
    pub(crate) fn on_all_allowed(&mut self, room_uuid: &u128, out: &mut Vec<Outgoing>) -> (ok: bool)
        requires
            old(self).wf(),
        ensures
            played_in_room(*old(self), *final(self), *room_uuid),
            sent_in_room(old(out)@, final(out)@, *old(self), *room_uuid),
            no_pending(*old(self), *room_uuid) ==> timers_live(final(out)@, old(out)@.len() as int, *final(self)),
            match room_game(*old(self), *room_uuid) {
                Some(g0) => match g0.turn_context {
                    Some(_) => all_allowed(g0, room_game(*final(self), *room_uuid), old(out)@, final(out)@, *room_uuid),
                    None => *final(self) == *old(self),
                },
                None => *final(self) == *old(self),
            },
        decreases phase_rank(*old(self), *room_uuid), 0int,
    {
        let ghost o0 = out@;
        assert(o0.subrange(0, o0.len() as int) =~= o0);
        let i = match self.room_index(*room_uuid) {
            Some(i) => i,
            None => {
                return true;
            },
        };
        proof { lemma_room_game_at(*self, i as int, *room_uuid); }
        let (phase, is_blockable) = match &self.rooms[i].game.turn_context {
            Some(c) => (
                c.phase,
                match get_action_properties(c.action.as_str()) {
                    Some(p) => p.blockable_by.len() > 0,
                    None => false,
                },
            ),
            None => {
                return true;
            },
        };
        let ghost s0 = *self;
        match phase {
            TurnPhase::AwaitingChallengeResponses => {
                if is_blockable {
                    match &mut self.rooms[i].game.turn_context {
                        Some(turn_ctx) => {
                            turn_ctx.phase = TurnPhase::AwaitingBlockResponses;
                        },
                        None => {},
                    }
                    let ghost s1 = *self;
                    proof {
                        lemma_played_at(s0, s1, i as int, *room_uuid);
                        lemma_played_room_game(s0, s1, *room_uuid);
                        lemma_room_game_at(s1, i as int, *room_uuid);
                        assert(phase_rank(s0, *room_uuid) == 2);
                        assert(phase_rank(s1, *room_uuid) == 1);
                    }
                    let ok = self.start_current_phase(room_uuid, out);
                    proof {
                        lemma_played_trans(s0, s1, *self, *room_uuid);
                        lemma_sent_trans(o0, o0, out@, s0, s1, *room_uuid);
                    }
                    ok
                } else {
                    self.execute_and_finish(room_uuid, out)
                }
            },
            TurnPhase::AwaitingBlockResponses => self.execute_and_finish(room_uuid, out),
            TurnPhase::AwaitingBlockChallengeResponses => {
                self.rooms[i].game.turn_context = None;
                let ghost s1 = *self;
                proof {
                    lemma_played_at(s0, s1, i as int, *room_uuid);
                    lemma_played_room_game(s0, s1, *room_uuid);
                }
                let ok = self.finish_turn(room_uuid, out);
                proof {
                    lemma_played_trans(s0, s1, *self, *room_uuid);
                    lemma_sent_trans(o0, o0, out@, s0, s1, *room_uuid);
                }
                ok
            },
        }
    }

    /// Carries out the action of the room's turn and goes on from its
    /// outcome: the turn ends, a target is asked which influence to lose, or
    /// an exchange waits for the actor's choice.
    pub(crate) fn execute_and_finish(&mut self, room_uuid: &u128, out: &mut Vec<Outgoing>) -> (ok: bool)
        requires
            old(self).wf(),
        ensures
            played_in_room(*old(self), *final(self), *room_uuid),
            sent_in_room(old(out)@, final(out)@, *old(self), *room_uuid),
            no_timers(final(out)@, old(out)@.len() as int),
            match room_game(*old(self), *room_uuid) {
                Some(g0) => match g0.turn_context {
                    Some(_) => carried_out(g0, room_game(*final(self), *room_uuid), old(out)@, final(out)@),
                    None => *final(self) == *old(self),
                },
                None => *final(self) == *old(self),
            },
    {
        let ghost o0 = out@;
        assert(o0.subrange(0, o0.len() as int) =~= o0);
        let i = match self.room_index(*room_uuid) {
            Some(i) => i,
            None => {
                return true;
            },
        };
        proof { lemma_room_game_at(*self, i as int, *room_uuid); }
        let (action, actor_uuid, target_uuid) = match &self.rooms[i].game.turn_context {
            Some(c) => (c.action.clone(), c.actor_uuid, c.target_uuid),
            None => {
                return true;
            },
        };
        if !effect_fits_now(&self.rooms[i].game, action.as_str(), actor_uuid, target_uuid) {
            out.push(Outgoing::Halt { reason: "a coin count overflows or the deck is short".to_owned() });
            proof { lemma_push_sent(o0, o0, out@.last(), *self, *room_uuid); }
            return false;
        }
        let ghost s0 = *self;
        let outcome = execute_action_effect(&mut self.rooms[i].game, action.as_str(), actor_uuid, target_uuid);
        let ghost s1 = *self;
        let ghost g0 = s0.rooms@[i as int].game;
        let ghost ge = s1.rooms@[i as int].game;
        proof {
            lemma_effect_same_table(
                s0.rooms@[i as int].game,
                s1.rooms@[i as int].game,
                action@,
                actor_uuid,
                target_uuid,
                outcome,
            );
            lemma_played_at(s0, s1, i as int, *room_uuid);
            lemma_played_room_game(s0, s1, *room_uuid);
            lemma_room_game_at(s1, i as int, *room_uuid);
        }
        match outcome {
            Ok(ActionOutcome::WaitingForInfluenceChoice(target)) => {
                let ok = self.broadcast_game_state(room_uuid, out);
                let ghost o1 = out@;
                proof {
                    lemma_sent_trans(o0, o0, o1, s0, s1, *room_uuid);
                    assert(effect_post(g0, ge, action@, actor_uuid, target_uuid, outcome));
                }
                if !ok {
                    return false;
                }
                let game = &self.rooms[i].game;
                match find_seat(&game.players, target) {
                    Some(t) => {
                        let cards = hidden_card_views(&game.players[t]);
                        out.push(Outgoing::Send {
                            to: one_of(target),
                            message: ServerMessage::LoseInfluenceChoice { cards },
                        });
                        proof {
                            lemma_push_sent(o0, o1, out@.last(), s1, *room_uuid);
                            lemma_sent_trans(o0, o0, out@, s0, s1, *room_uuid);
                            assert(out@.subrange(0, o1.len() as int) =~= o1);
                            lemma_no_timers_after(o1, out@, o0.len() as int);
                        }
                    },
                    None => {},
                }
                true
            },
            Ok(ActionOutcome::WaitingForExchange) => {
                self.rooms[i].game.turn_context = None;
                let ghost s2 = *self;
                proof {
                    lemma_played_at(s1, s2, i as int, *room_uuid);
                    lemma_played_trans(s0, s1, s2, *room_uuid);
                    lemma_played_room_game(s0, s2, *room_uuid);
                }
                let ok = self.broadcast_game_state(room_uuid, out);
                proof {
                    lemma_sent_trans(o0, o0, out@, s0, s2, *room_uuid);
                    lemma_room_game_at(s2, i as int, *room_uuid);
                    assert(effect_post(g0, ge, action@, actor_uuid, target_uuid, outcome));
                }
                ok
            },
            _ => {
                self.rooms[i].game.turn_context = None;
                let ghost s2 = *self;
                proof {
                    lemma_played_at(s1, s2, i as int, *room_uuid);
                    lemma_played_trans(s0, s1, s2, *room_uuid);
                    lemma_played_room_game(s0, s2, *room_uuid);
                }
                proof { lemma_room_game_at(s2, i as int, *room_uuid); }
                let ok = self.finish_turn(room_uuid, out);
                proof {
                    lemma_played_trans(s0, s2, *self, *room_uuid);
                    lemma_sent_trans(o0, o0, out@, s0, s2, *room_uuid);
                    assert(effect_post(g0, ge, action@, actor_uuid, target_uuid, outcome));
                }
                ok
            },
        }
    }
}

impl ChatServer {
    /// A player who left the room's turn stale (timer) is resolved as if
    /// everyone had let the phase pass, unless an influence choice is
    /// pending or a newer phase has started since.
    pub fn handle_phase_timeout(&mut self, room_uuid: u128, generation: u64) -> (out: Vec<Outgoing>)
        requires
            old(self).wf(),
        ensures
            final(self).wf(),
            played_in_room(*old(self), *final(self), room_uuid),
            sent_in_room(Seq::empty(), out@, *old(self), room_uuid),
            timers_live(out@, 0, *final(self)),
            !waits_with(*old(self), room_uuid, generation) ==> *final(self) == *old(self) && out@.len() == 0,
            waits_with(*old(self), room_uuid, generation) ==> all_allowed(
                room_game(*old(self), room_uuid)->Some_0,
                room_game(*final(self), room_uuid),
                Seq::empty(),
                out@,
                room_uuid,
            ),
    {
        let mut out: Vec<Outgoing> = Vec::new();
        assert(out@.subrange(0, 0) =~= Seq::<Outgoing>::empty());
        let i = match self.room_index(room_uuid) {
            Some(i) => i,
            None => {
                return out;
            },
        };
        proof { lemma_room_game_at(*self, i as int, room_uuid); }
        let game = &self.rooms[i].game;
        if game.pending_influence_loss.is_some() {
            return out;
        }
        let current_gen = match &game.turn_context {
            Some(c) => c.timer_generation,
            None => {
                return out;
            },
        };
        if current_gen != generation {
            return out;
        }
        let _ = self.on_all_allowed(&room_uuid, &mut out);
        proof { lemma_played_room_game(*old(self), *self, room_uuid); }
        out
    }

    /// Makes a player lose influence. With two hidden cards the player is
    /// asked to choose (and the phase timer is invalidated); with one or none
    /// the card is lost at once and the turn goes on as `after` says.
    pub(crate) fn require_influence_loss(
        &mut self,
        room_uuid: &u128,
        player_uuid: u128,
        after: AfterInfluenceLoss,
        out: &mut Vec<Outgoing>,
    ) -> (ok: bool)
        requires
            old(self).wf(),
        ensures
            played_in_room(*old(self), *final(self), *room_uuid),
            sent_in_room(old(out)@, final(out)@, *old(self), *room_uuid),
            no_pending(*old(self), *room_uuid) ==> timers_live(final(out)@, old(out)@.len() as int, *final(self)),
            match room_game(*old(self), *room_uuid) {
                Some(g0) => influence_required(
                    g0,
                    room_game(*final(self), *room_uuid),
                    player_uuid,
                    after,
                    old(out)@,
                    final(out)@,
                    *room_uuid,
                ),
                None => *final(self) == *old(self),
            },
    {
        let ghost o0 = out@;
        assert(o0.subrange(0, o0.len() as int) =~= o0);
        let i = match self.room_index(*room_uuid) {
            Some(i) => i,
            None => {
                return true;
            },
        };
        proof { lemma_room_game_at(*self, i as int, *room_uuid); }
        let seat = find_seat(&self.rooms[i].game.players, player_uuid);
        let hidden = match seat {
            Some(k) => hidden_count(&self.rooms[i].game.players[k].cards),
            None => 0,
        };
        let ghost s0 = *self;
        if hidden <= 1 {
            match seat {
                Some(k) => {
                    let _ = self.rooms[i].game.players[k].lose_influence(None);
                    proof {
                        lemma_seat_update(s0.rooms@[i as int].game, self.rooms@[i as int].game, k as int);
                    }
                },
                None => {},
            }
            let ghost s1 = *self;
            proof {
                lemma_played_at(s0, s1, i as int, *room_uuid);
                lemma_played_room_game(s0, s1, *room_uuid);
                lemma_room_game_at(s1, i as int, *room_uuid);
            }
            let ok = self.after_influence_lost(room_uuid, after, out);
            proof {
                lemma_played_trans(s0, s1, *self, *room_uuid);
                lemma_sent_trans(o0, o0, out@, s0, s1, *room_uuid);
                let g0 = s0.rooms@[i as int].game;
                let g1 = s1.rooms@[i as int].game;
                match seat {
                    Some(k) => {
                        let p0 = g0.players@[k as int];
                        let p1 = g1.players@[k as int];
                        assert(g1.players@ =~= g0.players@.update(k as int, p1));
                        if count_hidden(p0.cards@) == 1 {
                            assert(p1 == (Player { cards: p1.cards, is_alive: false, ..p0 }));
                            assert(lost_last_card(p0, p1));
                        } else {
                            assert(p1 == p0);
                            assert(g1.players@ =~= g0.players@);
                        }
                    },
                    None => {},
                }
                assert(lost_influence(g0, g1, player_uuid));
            }
            ok
        } else {
            let overflow = match &self.rooms[i].game.turn_context {
                Some(c) => c.timer_generation == u64::MAX,
                None => false,
            };
            if overflow {
                out.push(Outgoing::Halt { reason: "timer generation overflow".to_owned() });
                proof { lemma_push_sent(o0, o0, out@.last(), *self, *room_uuid); }
                return false;
            }
            self.rooms[i].game.pending_influence_loss = Some(player_uuid);
            match &mut self.rooms[i].game.turn_context {
                Some(turn_ctx) => {
                    turn_ctx.after_influence_loss = Some(after);
                    let _ = turn_ctx.next_generation();
                },
                None => {},
            }
            let ghost s1 = *self;
            proof {
                lemma_played_at(s0, s1, i as int, *room_uuid);
                lemma_played_room_game(s0, s1, *room_uuid);
                lemma_room_game_at(s1, i as int, *room_uuid);
            }
            let ok = self.broadcast_game_state(room_uuid, out);
            let ghost o1 = out@;
            proof { lemma_sent_trans(o0, o0, o1, s0, s1, *room_uuid); }
            if !ok {
                return false;
            }
            let game = &self.rooms[i].game;
            match find_seat(&game.players, player_uuid) {
                Some(k) => {
                    let cards = hidden_card_views(&game.players[k]);
                    out.push(Outgoing::Send {
                        to: one_of(player_uuid),
                        message: ServerMessage::LoseInfluenceChoice { cards },
                    });
                    proof {
                        lemma_push_sent(o0, o1, out@.last(), s1, *room_uuid);
                        lemma_sent_trans(o0, o0, out@, s0, s1, *room_uuid);
                        assert(out@.subrange(0, o1.len() as int) =~= o1);
                        lemma_no_timers_after(o1, out@, o0.len() as int);
                    }
                },
                None => {},
            }
            true
        }
    }

    /// Goes on once a player has lost influence: the turn ends, or (after a
    /// failed challenge) moves on to blocks or to the action, or (after a
    /// bluffed block) carries the action out.
    pub(crate) fn after_influence_lost(&mut self, room_uuid: &u128, after: AfterInfluenceLoss, out: &mut Vec<Outgoing>) -> (ok: bool)
        requires
            old(self).wf(),
        ensures
            played_in_room(*old(self), *final(self), *room_uuid),
            sent_in_room(old(out)@, final(out)@, *old(self), *room_uuid),
            no_pending(*old(self), *room_uuid) ==> timers_live(final(out)@, old(out)@.len() as int, *final(self)),
            match room_game(*old(self), *room_uuid) {
                Some(g0) => went_on(g0, room_game(*final(self), *room_uuid), after, old(out)@, final(out)@, *room_uuid),
                None => *final(self) == *old(self),
            },
    {
        let ghost o0 = out@;
        assert(o0.subrange(0, o0.len() as int) =~= o0);
        let i = match self.room_index(*room_uuid) {
            Some(i) => i,
            None => {
                // Without the room there is no turn to go on with.
                return true;
            },
        };
        proof { lemma_room_game_at(*self, i as int, *room_uuid); }
        let ghost s0 = *self;
        match after {
            AfterInfluenceLoss::TurnEnds | AfterInfluenceLoss::BlockSucceeds | AfterInfluenceLoss::ActionComplete => {
                self.rooms[i].game.turn_context = None;
                let ghost s1 = *self;
                proof {
                    lemma_played_at(s0, s1, i as int, *room_uuid);
                    lemma_played_room_game(s0, s1, *room_uuid);
                }
                let ok = self.finish_turn(room_uuid, out);
                proof {
                    lemma_played_trans(s0, s1, *self, *room_uuid);
                    lemma_sent_trans(o0, o0, out@, s0, s1, *room_uuid);
                }
                ok
            },
            AfterInfluenceLoss::ProceedAfterFailedChallenge => {
                let is_blockable = match &self.rooms[i].game.turn_context {
                    Some(c) => match get_action_properties(c.action.as_str()) {
                        Some(p) => p.blockable_by.len() > 0,
                        None => false,
                    },
                    None => {
                        return true;
                    },
                };
                if is_blockable {
                    match &mut self.rooms[i].game.turn_context {
                        Some(turn_ctx) => {
                            turn_ctx.phase = TurnPhase::AwaitingBlockResponses;
                            turn_ctx.after_influence_loss = None;
                        },
                        None => {},
                    }
                    let ghost s1 = *self;
                    proof {
                        lemma_played_at(s0, s1, i as int, *room_uuid);
                        lemma_played_room_game(s0, s1, *room_uuid);
                        lemma_room_game_at(s1, i as int, *room_uuid);
                    }
                    let ok = self.start_current_phase(room_uuid, out);
                    proof {
                        lemma_played_trans(s0, s1, *self, *room_uuid);
                        lemma_sent_trans(o0, o0, out@, s0, s1, *room_uuid);
                    }
                    ok
                } else {
                    self.execute_and_finish(room_uuid, out)
                }
            },
            AfterInfluenceLoss::ExecuteAction => self.execute_and_finish(room_uuid, out),
        }
    }

    /// Resolves a challenge of the actor's claim. If the actor holds the
    /// claimed role the challenger loses influence and the turn goes on;
    /// otherwise the challenger earns a coin and the bluffing actor loses
    /// influence, which ends the turn.
    pub(crate) fn resolve_challenge(&mut self, room_uuid: &u128, challenger_uuid: u128, out: &mut Vec<Outgoing>) -> (ok: bool)
        requires
            old(self).wf(),
        ensures
            played_in_room(*old(self), *final(self), *room_uuid),
            sent_in_room(old(out)@, final(out)@, *old(self), *room_uuid),
            no_pending(*old(self), *room_uuid) ==> timers_live(final(out)@, old(out)@.len() as int, *final(self)),
            match room_game(*old(self), *room_uuid) {
                Some(g0) => match g0.turn_context {
                    Some(_) => challenge_resolved(
                        g0,
                        room_game(*final(self), *room_uuid),
                        challenger_uuid,
                        old(out)@,
                        final(out)@,
                        *room_uuid,
                    ),
                    None => *final(self) == *old(self),
                },
                None => *final(self) == *old(self),
            },
    {
        let ghost o0 = out@;
        assert(o0.subrange(0, o0.len() as int) =~= o0);
        let i = match self.room_index(*room_uuid) {
            Some(i) => i,
            None => {
                return true;
            },
        };
        proof { lemma_room_game_at(*self, i as int, *room_uuid); }
        let (actor_uuid, claimed_role, actor_name) = match &self.rooms[i].game.turn_context {
            Some(c) => (c.actor_uuid, c.claimed_role, c.actor_name.clone()),
            None => {
                return true;
            },
        };
        let challenger_name = name_of(&self.rooms[i].game.players, challenger_uuid);
        let claimed_role = match claimed_role {
            Some(r) => r,
            None => {
                return true;
            },
        };
        let actor_has_role = holds_hidden_role(&self.rooms[i].game.players, actor_uuid, claimed_role);
        let ghost s0 = *self;
        if actor_has_role {
            let message = cat(cat(cat(cat(cat(cat(challenger_name.clone(), " challenged but "), actor_name.as_str()),
                " revealed "), role_name(claimed_role)), "! "), challenger_name.as_str()).concat(" loses influence.");
            self.broadcast_to_room(room_uuid, ServerMessage::ActionResult { message }, out);
            let ghost o1 = out@;
            assert(sent_to_all(o1.last(), s0.rooms@[i as int].game));
            swap_revealed_card(&mut self.rooms[i].game, actor_uuid, claimed_role);
            let ghost s1 = *self;
            proof {
                lemma_card_swapped_table(s0.rooms@[i as int].game, s1.rooms@[i as int].game, actor_uuid, claimed_role);
                lemma_played_at(s0, s1, i as int, *room_uuid);
                lemma_played_room_game(s0, s1, *room_uuid);
                lemma_room_game_at(s1, i as int, *room_uuid);
            }
            let ok = self.require_influence_loss(
                room_uuid,
                challenger_uuid,
                AfterInfluenceLoss::ProceedAfterFailedChallenge,
                out,
            );
            proof {
                assert(card_swapped(s0.rooms@[i as int].game, s1.rooms@[i as int].game, actor_uuid, claimed_role));
                assert(out@[o0.len() as int] == o1[o0.len() as int]) by {
                    assert(out@.subrange(0, o1.len() as int)[o0.len() as int] == o1[o0.len() as int]);
                }
                lemma_played_trans(s0, s1, *self, *room_uuid);
                lemma_sent_trans(o0, o1, out@, s0, s1, *room_uuid);
                if no_pending(s0, *room_uuid) {
                    lemma_timers_after(o1, out@, o0.len() as int, *self);
                }
            }
            ok
        } else {
            if !self.reward_challenger(i, challenger_uuid, out) {
                return false;
            }
            let ghost s1 = *self;
            let ghost o1 = out@;
            proof {
                lemma_played_room_game(s0, s1, *room_uuid);
                lemma_room_game_at(s1, i as int, *room_uuid);
            }
            let message = cat(cat(cat(cat(cat(cat(cat(challenger_name.clone(), " challenged and "), actor_name.as_str()),
                " was bluffing! "), actor_name.as_str()), " loses influence. "), challenger_name.as_str()),
                " earns 1 coin.");
            self.broadcast_to_room(room_uuid, ServerMessage::ActionResult { message }, out);
            let ghost o2 = out@;
            assert(sent_to_all(o2.last(), s1.rooms@[i as int].game));
            assert(seat_ids(s1.rooms@[i as int].game) =~= seat_ids(s0.rooms@[i as int].game));
            let ok = self.require_influence_loss(room_uuid, actor_uuid, AfterInfluenceLoss::TurnEnds, out);
            proof {
                assert(rewarded(s0.rooms@[i as int].game, s1.rooms@[i as int].game, challenger_uuid));
                assert(out@[o0.len() as int] == o2[o0.len() as int]) by {
                    assert(out@.subrange(0, o2.len() as int)[o0.len() as int] == o2[o0.len() as int]);
                }
                lemma_played_trans(s0, s1, *self, *room_uuid);
                lemma_sent_trans(o1, o2, out@, s1, s1, *room_uuid);
                lemma_sent_trans(o0, o1, out@, s0, s1, *room_uuid);
                if no_pending(s0, *room_uuid) {
                    lemma_timers_after(o2, out@, o1.len() as int, *self);
                    lemma_timers_after(o1, out@, o0.len() as int, *self);
                }
            }
            ok
        }
    }

    /// Resolves a challenge of a block. If the blocker holds the claimed role
    /// the challenger loses influence and the block stands; otherwise the
    /// challenger earns a coin, the bluffing blocker loses influence and the
    /// action is carried out.
    pub(crate) fn resolve_block_challenge(&mut self, room_uuid: &u128, challenger_uuid: u128, out: &mut Vec<Outgoing>) -> (ok: bool)
        requires
            old(self).wf(),
        ensures
            played_in_room(*old(self), *final(self), *room_uuid),
            sent_in_room(old(out)@, final(out)@, *old(self), *room_uuid),
            no_pending(*old(self), *room_uuid) ==> timers_live(final(out)@, old(out)@.len() as int, *final(self)),
            match room_game(*old(self), *room_uuid) {
                Some(g0) => match g0.turn_context {
                    Some(_) => block_challenge_resolved(
                        g0,
                        room_game(*final(self), *room_uuid),
                        challenger_uuid,
                        old(out)@,
                        final(out)@,
                        *room_uuid,
                    ),
                    None => *final(self) == *old(self),
                },
                None => *final(self) == *old(self),
            },
    {
        let ghost o0 = out@;
        assert(o0.subrange(0, o0.len() as int) =~= o0);
        let i = match self.room_index(*room_uuid) {
            Some(i) => i,
            None => {
                return true;
            },
        };
        proof { lemma_room_game_at(*self, i as int, *room_uuid); }
        let (blocker_uuid, blocker_name, claimed_role) = match &self.rooms[i].game.turn_context {
            Some(c) => match &c.block_info {
                Some(b) => (b.blocker_uuid, b.blocker_name.clone(), b.claimed_role),
                None => {
                    return true;
                },
            },
            None => {
                return true;
            },
        };
        let challenger_name = name_of(&self.rooms[i].game.players, challenger_uuid);
        let blocker_has_role = holds_hidden_role(&self.rooms[i].game.players, blocker_uuid, claimed_role);
        let ghost s0 = *self;
        if blocker_has_role {
            let message = cat(cat(cat(cat(cat(cat(challenger_name.clone(), " challenged the block but "),
                blocker_name.as_str()), " revealed "), role_name(claimed_role)), "! "), challenger_name.as_str())
                .concat(" loses influence.");
            self.broadcast_to_room(room_uuid, ServerMessage::ActionResult { message }, out);
            let ghost o1 = out@;
            assert(sent_to_all(o1.last(), s0.rooms@[i as int].game));
            swap_revealed_card(&mut self.rooms[i].game, blocker_uuid, claimed_role);
            let ghost s1 = *self;
            proof {
                lemma_card_swapped_table(s0.rooms@[i as int].game, s1.rooms@[i as int].game, blocker_uuid, claimed_role);
                lemma_played_at(s0, s1, i as int, *room_uuid);
                lemma_played_room_game(s0, s1, *room_uuid);
                lemma_room_game_at(s1, i as int, *room_uuid);
            }
            let ok = self.require_influence_loss(room_uuid, challenger_uuid, AfterInfluenceLoss::BlockSucceeds, out);
            proof {
                assert(card_swapped(s0.rooms@[i as int].game, s1.rooms@[i as int].game, blocker_uuid, claimed_role));
                assert(out@[o0.len() as int] == o1[o0.len() as int]) by {
                    assert(out@.subrange(0, o1.len() as int)[o0.len() as int] == o1[o0.len() as int]);
                }
                lemma_played_trans(s0, s1, *self, *room_uuid);
                lemma_sent_trans(o0, o1, out@, s0, s1, *room_uuid);
                if no_pending(s0, *room_uuid) {
                    lemma_timers_after(o1, out@, o0.len() as int, *self);
                }
            }
            ok
        } else {
            if !self.reward_challenger(i, challenger_uuid, out) {
                return false;
            }
            let ghost s1 = *self;
            let ghost o1 = out@;
            proof {
                lemma_played_room_game(s0, s1, *room_uuid);
                lemma_room_game_at(s1, i as int, *room_uuid);
            }
            let message = cat(cat(cat(cat(cat(cat(cat(challenger_name.clone(), " challenged the block and "),
                blocker_name.as_str()), " was bluffing! "), blocker_name.as_str()), " loses influence. "),
                challenger_name.as_str()), " earns 1 coin.");
            self.broadcast_to_room(room_uuid, ServerMessage::ActionResult { message }, out);
            let ghost o2 = out@;
            assert(sent_to_all(o2.last(), s1.rooms@[i as int].game));
            assert(seat_ids(s1.rooms@[i as int].game) =~= seat_ids(s0.rooms@[i as int].game));
            let ok = self.require_influence_loss(room_uuid, blocker_uuid, AfterInfluenceLoss::ExecuteAction, out);
            proof {
                assert(rewarded(s0.rooms@[i as int].game, s1.rooms@[i as int].game, challenger_uuid));
                assert(out@[o0.len() as int] == o2[o0.len() as int]) by {
                    assert(out@.subrange(0, o2.len() as int)[o0.len() as int] == o2[o0.len() as int]);
                }
                lemma_played_trans(s0, s1, *self, *room_uuid);
                lemma_sent_trans(o1, o2, out@, s1, s1, *room_uuid);
                lemma_sent_trans(o0, o1, out@, s0, s1, *room_uuid);
                if no_pending(s0, *room_uuid) {
                    lemma_timers_after(o2, out@, o1.len() as int, *self);
                    lemma_timers_after(o1, out@, o0.len() as int, *self);
                }
            }
            ok
        }
    }

    /// A successful challenger earns a coin, taken from the bank when the
    /// bank has one. Returns false (after a halt) when the challenger's
    /// purse is full.
    fn reward_challenger(&mut self, i: usize, challenger_uuid: u128, out: &mut Vec<Outgoing>) -> (ok: bool)
        requires
            old(self).wf(),
            i < old(self).rooms@.len(),
        ensures
            ({
                let u = old(self).rooms@[i as int].uuid;
                let g0 = old(self).rooms@[i as int].game;
                let g1 = final(self).rooms@[i as int].game;
                &&& played_in_room(*old(self), *final(self), u)
                &&& sent_in_room(old(out)@, final(out)@, *old(self), u)
                &&& no_timers(final(out)@, old(out)@.len() as int)
                &&& g1.pending_influence_loss == g0.pending_influence_loss
                &&& ok ==> final(out)@ == old(out)@
                &&& !has_seat(g0.players@, challenger_uuid) ==> ok && *final(self) == *old(self)
                &&& has_seat(g0.players@, challenger_uuid) ==> {
                    let k = seat_of(g0.players@, challenger_uuid);
                    if g0.players@[k].coins == 255 {
                        !ok && *final(self) == *old(self)
                    } else {
                        &&& ok
                        &&& g1.players@ == g0.players@.update(k, with_coins(g0.players@[k], g0.players@[k].coins + 1))
                        &&& g1 == (Game {
                            players: g1.players,
                            coins: if g0.coins > 0 { (g0.coins - 1) as u8 } else { 0 },
                            ..g0
                        })
                    }
                }
            }),
    {
        let ghost o0 = out@;
        let ghost u = self.rooms@[i as int].uuid;
        assert(o0.subrange(0, o0.len() as int) =~= o0);
        proof { lemma_room_game_at(*self, i as int, u); }
        let ghost s0 = *self;
        match find_seat(&self.rooms[i].game.players, challenger_uuid) {
            Some(k) => {
                if self.rooms[i].game.players[k].coins == 255 {
                    out.push(Outgoing::Halt { reason: "a player's coin count overflows".to_owned() });
                    proof { lemma_push_sent(o0, o0, out@.last(), *self, u); }
                    return false;
                }
                self.rooms[i].game.players[k].coins = self.rooms[i].game.players[k].coins + 1;
                if self.rooms[i].game.coins > 0 {
                    self.rooms[i].game.coins = self.rooms[i].game.coins - 1;
                }
                proof {
                    assert(self.rooms@[i as int].game.players@ =~= s0.rooms@[i as int].game.players@.update(
                        k as int,
                        with_coins(s0.rooms@[i as int].game.players@[k as int], s0.rooms@[i as int].game.players@[k as int].coins + 1),
                    ));
                    lemma_seat_update(s0.rooms@[i as int].game, self.rooms@[i as int].game, k as int);
                    lemma_played_at(s0, *self, i as int, u);
                }
            },
            None => {},
        }
        true
    }
}

/// One more message of room `u`.
pub proof fn lemma_push_sent(o0: Seq<Outgoing>, o1: Seq<Outgoing>, x: Outgoing, s: ChatServer, u: u128)
    requires
        sent_in_room(o0, o1, s, u),
        sent_for(x, s, u),
    ensures
        sent_in_room(o0, o1.push(x), s, u),
{
    let o2 = o1.push(x);
    assert(o2.subrange(0, o0.len() as int) =~= o1.subrange(0, o0.len() as int)) by {
        assert forall|k: int| 0 <= k < o0.len() implies o2[k] == o1[k] by {}
    }
    assert forall|k: int| o0.len() <= k < o2.len() implies sent_for(#[trigger] o2[k], s, u) by {
        if k < o1.len() {
            assert(o2[k] == o1[k]);
        }
    }
}

/// The players who may answer are seated at the table.
pub proof fn lemma_alive_except_seated(ps: Seq<Player>)
    ensures
        forall|e: Option<u128>, j: int| 0 <= j < alive_except(ps, e).len() ==> has_seat(
            ps,
            #[trigger] alive_except(ps, e)[j],
        ),
    decreases ps.len(),
{
    if ps.len() > 0 {
        lemma_alive_except_seated(ps.drop_last());
        assert forall|e: Option<u128>, j: int| 0 <= j < alive_except(ps, e).len() implies has_seat(
            ps,
            #[trigger] alive_except(ps, e)[j],
        ) by {
            let inner = alive_except(ps.drop_last(), e);
            if j < inner.len() {
                assert(alive_except(ps, e)[j] == inner[j]);
                let x = inner[j];
                assert(has_seat(ps.drop_last(), x));
                let k = choose|k: int| 0 <= k < ps.drop_last().len() && (#[trigger] ps.drop_last()[k]).uuid == x;
                assert(ps[k].uuid == x);
            } else {
                assert(ps[ps.len() - 1].uuid == alive_except(ps, e)[j]);
            }
        }
    }
}

/// A table whose seat `k` changed in nothing but what a player holds.
pub proof fn lemma_seat_update(g0: Game, g1: Game, k: int)
    requires
        0 <= k < g0.players@.len(),
        g1.players@ == g0.players@.update(k, g1.players@[k]),
        g1.players@[k].uuid == g0.players@[k].uuid,
        g1.players@[k].name@ == g0.players@[k].name@,
        g1.room_code@ == g0.room_code@,
        g1.max_players == g0.max_players,
    ensures
        same_table(g0, g1),
{
    assert forall|j: int| 0 <= j < g0.players@.len() implies (#[trigger] g1.players@[j]).uuid == g0.players@[j].uuid
        && g1.players@[j].name@ == g0.players@[j].name@ by {
        if j != k {
            assert(g1.players@[j] == g0.players@[j]);
        }
    }
}

/// Swapping a revealed card keeps the table's seats.
pub proof fn lemma_card_swapped_table(g0: Game, g1: Game, u: u128, role: Role)
    requires
        card_swapped(g0, g1, u, role),
    ensures
        same_table(g0, g1),
        g1.pending_influence_loss == g0.pending_influence_loss,
        g1.turn_context == g0.turn_context,
{
    let ps = g0.players@;
    let k = seat_of(ps, u);
    let hand = ps[k].cards@;
    if has_seat(ps, u) && (exists|j: int| is_first_hidden_of(hand, role, j)) && g0.deck.cards@.len() < TOTAL_CARDS {
        let j = choose|j: int| is_first_hidden_of(hand, role, j);
        let sh = choose|sh: Seq<Card>| #[trigger] swapped_through(g0, g1, k, j, role, sh);
        assert(swapped_through(g0, g1, k, j, role, sh));
        assert forall|i: int| 0 <= i < ps.len() implies (#[trigger] g1.players@[i]).uuid == ps[i].uuid
            && g1.players@[i].name@ == ps[i].name@ by {
            if i != k {
                assert(g1.players@[i] == ps[i]);
            }
        }
    } else {
        assert forall|i: int| 0 <= i < ps.len() implies (#[trigger] g1.players@[i]).uuid == ps[i].uuid
            && g1.players@[i].name@ == ps[i].name@ by {
            assert(g1.players@[i] == (Player { cards: g1.players@[i].cards, ..ps[i] }));
        }
    }
}

/// The effect of an action keeps the table's seats.
pub proof fn lemma_effect_same_table(
    g0: Game,
    g1: Game,
    action: Seq<char>,
    actor: u128,
    target: Option<u128>,
    r: Result<ActionOutcome, String>,
)
    requires
        effect_post(g0, g1, action, actor, target, r),
    ensures
        same_table(g0, g1),
{
    let ps = g0.players@;
    if has_seat(ps, actor) {
        crate::laws::lemma_seat_of(ps, actor);
        let a = seat_of(ps, actor);
        if action == "income"@ || action == "foreign_aid"@ || action == "tax"@ {
            if g1 != g0 {
                lemma_seat_update(g0, g1, a);
            }
        } else if action == "exchange_draw"@ {
            lemma_seat_update(g0, g1, a);
        } else if action == "coup"@ || action == "assassinate"@ {
            match target {
                Some(t) => if has_seat(ps, t) {
                    crate::laws::lemma_seat_of(ps, t);
                    let ti = seat_of(ps, t);
                    if g1.players@ != ps {
                        lemma_seat_update(g0, g1, ti);
                    }
                },
                None => {},
            }
        } else if action == "steal"@ {
            match target {
                Some(t) => if has_seat(ps, t) {
                    crate::laws::lemma_seat_of(ps, t);
                    let ti = seat_of(ps, t);
                    let g_mid = Game { players: g1.players, ..g0 };
                    assert forall|j: int| 0 <= j < ps.len() implies (#[trigger] g1.players@[j]).uuid == ps[j].uuid
                        && g1.players@[j].name@ == ps[j].name@ by {
                        if j == ti {
                        } else if j == a {
                        } else {
                            assert(g1.players@[j] == ps[j]);
                        }
                    }
                },
                None => {},
            }
        }
    }
}

/// A declared action keeps the table's seats; when it opens a phase, no
/// influence choice is pending.
pub proof fn lemma_process_same_table(
    g0: Game,
    g1: Game,
    client: u128,
    action: Seq<char>,
    target_name: Option<Seq<char>>,
    selected: Seq<Card>,
    r: Result<ActionOutcome, String>,
)
    requires
        process_post(g0, g1, client, action, target_name, selected, r),
        g0.pending_influence_loss is None && g0.turn_context is None ==> g0.current_player < g0.players@.len(),
    ensures
        same_table(g0, g1),
        r == Ok::<ActionOutcome, String>(ActionOutcome::PhaseStarted) ==> g1.pending_influence_loss is None,
{
    let cp = g0.current_player as int;
    let rules = action_rules(action)->Some_0;
    match process_check(g0, client, action, target_name, selected) {
        Some(_) => {},
        None => {
            if action == "exchange_confirm"@ {
                lemma_seat_update(g0, g1, cp);
            } else if rules.claimed_role is None && rules.blockable_by.len() == 0 {
                let gm = choose|gm: Game| cost_paid(g0, gm, cp, rules.cost) && #[trigger] effect_post(
                    gm,
                    g1,
                    action,
                    client,
                    target_of(g0, action, target_name),
                    r,
                );
                if rules.cost > 0 {
                    lemma_seat_update(g0, gm, cp);
                }
                lemma_effect_same_table(gm, g1, action, client, target_of(g0, action, target_name), r);
                lemma_same_table_trans(g0, gm, g1);
                lemma_effect_outcome(gm, g1, action, client, target_of(g0, action, target_name), r);
            } else {
                lemma_seat_update(g0, g1, cp);
            }
        },
    }
}

/// The effect of an action never opens a phase.
pub proof fn lemma_effect_outcome(
    g0: Game,
    g1: Game,
    action: Seq<char>,
    actor: u128,
    target: Option<u128>,
    r: Result<ActionOutcome, String>,
)
    requires
        effect_post(g0, g1, action, actor, target, r),
    ensures
        r != Ok::<ActionOutcome, String>(ActionOutcome::PhaseStarted),
{
}

/// Whether the first player seated as `u` holds a hidden card of the role.
fn holds_hidden_role(ps: &Vec<Player>, u: u128, role: Role) -> (r: bool)
    ensures
        r == holds_role(ps@, u, role),
{
    match find_seat(ps, u) {
        Some(k) => {
            let cards = &ps[k].cards;
            let mut j: usize = 0;
            while j < cards.len()
                invariant
                    j <= cards@.len(),
                    k < ps@.len(),
                    seat_of(ps@, u) == k,
                    has_seat(ps@, u),
                    cards@ == ps@[k as int].cards@,
                    forall|jj: int| 0 <= jj < j ==> !((#[trigger] cards@[jj]).role == role && !cards@[jj].visible),
                decreases cards@.len() - j,
            {
                if cards[j].role == role && !cards[j].visible {
                    assert(ps@[k as int].cards@[j as int].role == role);
                    return true;
                }
                j = j + 1;
            }
            false
        },
        None => false,
    }
}

/// The hidden cards of a player, face up for that player.
pub(crate) fn hidden_card_views(p: &Player) -> (v: Vec<CardView>)
    ensures
        v@ == crate::player::hidden_of(p.cards@).map_values(|c: crate::card::Card| CardView { role: Some(c.role), visible: false }),
{
    let mut v: Vec<CardView> = Vec::new();
    let mut i: usize = 0;
    while i < p.cards.len()
        invariant
            i <= p.cards@.len(),
            v@ == crate::player::hidden_of(p.cards@.take(i as int)).map_values(
                |c: crate::card::Card| CardView { role: Some(c.role), visible: false },
            ),
        decreases p.cards@.len() - i,
    {
        proof {
            crate::player::lemma_hidden_of_step(p.cards@, i as int);
        }
        if !p.cards[i].visible {
            v.push(CardView { role: Some(p.cards[i].role), visible: false });
            assert(v@ =~= crate::player::hidden_of(p.cards@.take(i + 1)).map_values(
                |c: crate::card::Card| CardView { role: Some(c.role), visible: false },
            ));
        }
        i = i + 1;
    }
    assert(p.cards@.take(p.cards@.len() as int) =~= p.cards@);
    v
}

fn one_of(u: u128) -> (v: Vec<u128>)
    ensures
        v@ == seq![u],
{
    let mut v: Vec<u128> = Vec::new();
    v.push(u);
    v
}

fn uuids_of(ps: &Vec<Player>) -> (v: Vec<u128>)
    ensures
        v@ == ps@.map_values(|p: Player| p.uuid),
{
    let mut v: Vec<u128> = Vec::new();
    let mut i: usize = 0;
    while i < ps.len()
        invariant
            i <= ps@.len(),
            v@ == ps@.take(i as int).map_values(|p: Player| p.uuid),
        decreases ps@.len() - i,
    {
        v.push(ps[i].uuid);
        assert(ps@.take(i + 1).map_values(|p: Player| p.uuid)
            =~= ps@.take(i as int).map_values(|p: Player| p.uuid).push(ps@[i as int].uuid));
        i = i + 1;
    }
    assert(ps@.take(ps@.len() as int) =~= ps@);
    v
}

fn any_alive(ps: &Vec<Player>) -> (r: bool)
    ensures
        r == exists|k: int| 0 <= k < ps@.len() && (#[trigger] ps@[k]).is_alive,
{
    let mut i: usize = 0;
    while i < ps.len()
        invariant
            i <= ps@.len(),
            forall|j: int| 0 <= j < i ==> !(#[trigger] ps@[j]).is_alive,
        decreases ps@.len() - i,
    {
        if ps[i].is_alive {
            return true;
        }
        i = i + 1;
    }
    false
}

} // verus!
