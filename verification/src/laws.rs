use vstd::prelude::*;
use crate::actions::{
    card_swapped, is_first_hidden_of, swapped_through, cost_paid, effect_fits, effect_post, min_int, with_coins, process_check, process_post,
    lemma_action_names_distinct,
};
use crate::action_properties::action_rules;
use crate::game::{expected_actions, offer, alive_targets, stealable_targets};
use crate::card::{Card, Role, hidden_card};
use crate::deck::TOTAL_CARDS;
use crate::game::{Game, seat_of, has_seat};
use crate::player::{Player, count_hidden, count_of, returned_cards, is_first_hidden, is_first_hidden_named, reveal_at};
use crate::handlers::influence_chosen;
use crate::phases::{reward_fits, rewarded, timers_live, waits_with};
use crate::server::{ChatServer, Outgoing};
use crate::game::dealt_to;

verus! {

/// The coins in all purses of a table.
pub open spec fn purse_total(ps: Seq<Player>) -> int
    decreases ps.len(),
{
    if ps.len() == 0 {
        0
    } else {
        purse_total(ps.drop_last()) + ps.last().coins
    }
}

/// The coins of a table: the bank and every purse.
pub open spec fn total_coins(g: Game) -> int {
    g.coins + purse_total(g.players@)
}

pub proof fn lemma_purse_total_update(ps: Seq<Player>, i: int, p: Player)
    requires
        0 <= i < ps.len(),
    ensures
        purse_total(ps.update(i, p)) == purse_total(ps) - ps[i].coins + p.coins,
    decreases ps.len(),
{
    if i == ps.len() - 1 {
        assert(ps.update(i, p).drop_last() =~= ps.drop_last());
    } else {
        lemma_purse_total_update(ps.drop_last(), i, p);
        assert(ps.update(i, p).drop_last() =~= ps.drop_last().update(i, p));
    }
}

/// Paying the cost of an action moves coins from the actor's purse to the
/// bank: the coins of the table stay the same.
pub proof fn law_cost_conserves_coins(g0: Game, g1: Game, cp: int, cost: u8)
    requires
        0 <= cp < g0.players@.len(),
        g0.players@[cp].coins >= cost,
        g0.coins + cost <= 255,
        cost_paid(g0, g1, cp, cost),
    ensures
        total_coins(g1) == total_coins(g0),
{
    if cost > 0 {
        lemma_purse_total_update(g0.players@, cp, with_coins(g0.players@[cp], g0.players@[cp].coins - cost));
    }
}

/// A player with a seat has a first seat.
pub proof fn lemma_seat_of(ps: Seq<Player>, u: u128)
    requires
        has_seat(ps, u),
    ensures
        crate::game::is_first_seat(ps, u, seat_of(ps, u)),
{
    let i = choose|i: int| 0 <= i < ps.len() && (#[trigger] ps[i]).uuid == u;
    lemma_some_first_seat(ps, u, i);
}

proof fn lemma_some_first_seat(ps: Seq<Player>, u: u128, i: int)
    requires
        0 <= i < ps.len(),
        ps[i].uuid == u,
    ensures
        exists|k: int| crate::game::is_first_seat(ps, u, k),
    decreases i,
{
    if exists|j: int| 0 <= j < i && (#[trigger] ps[j]).uuid == u {
        let j = choose|j: int| 0 <= j < i && (#[trigger] ps[j]).uuid == u;
        lemma_some_first_seat(ps, u, j);
    } else {
        assert(crate::game::is_first_seat(ps, u, i));
    }
}

/// The effect of an action only moves coins between the bank and the
/// purses, or between purses: the coins of the table stay the same.
pub proof fn law_effect_conserves_coins(
    g0: Game,
    g1: Game,
    action: Seq<char>,
    actor: u128,
    target: Option<u128>,
    r: Result<crate::actions::ActionOutcome, String>,
)
    requires
        effect_fits(g0, action, actor, target),
        effect_post(g0, g1, action, actor, target, r),
    ensures
        total_coins(g1) == total_coins(g0),
{
    let ps = g0.players@;
    if !has_seat(ps, actor) {
        return;
    }
    lemma_seat_of(ps, actor);
    let a = seat_of(ps, actor);
    if action == "income"@ {
        if g0.coins > 0 {
            lemma_purse_total_update(ps, a, with_coins(ps[a], ps[a].coins + 1));
        }
    } else if action == "foreign_aid"@ {
        lemma_purse_total_update(ps, a, with_coins(ps[a], ps[a].coins + min_int(g0.coins as int, 2)));
    } else if action == "tax"@ {
        lemma_purse_total_update(ps, a, with_coins(ps[a], ps[a].coins + min_int(g0.coins as int, 3)));
    } else if action == "exchange_draw"@ {
        lemma_purse_total_update(ps, a, g1.players@[a]);
    } else if action == "coup"@ || action == "assassinate"@ {
        match target {
            Some(t) => {
                if has_seat(ps, t) {
                    lemma_seat_of(ps, t);
                    let ti = seat_of(ps, t);
                    if ps[ti].is_alive && crate::player::count_hidden(ps[ti].cards@) == 1 {
                        lemma_purse_total_update(ps, ti, g1.players@[ti]);
                    }
                }
            },
            None => {},
        }
    } else if action == "steal"@ {
        match target {
            Some(t) => {
                if has_seat(ps, t) {
                    lemma_seat_of(ps, t);
                    let ti = seat_of(ps, t);
                    let c = min_int(ps[ti].coins as int, 2);
                    let s1 = ps.update(a, with_coins(ps[a], ps[a].coins + c));
                    lemma_purse_total_update(ps, a, with_coins(ps[a], ps[a].coins + c));
                    lemma_purse_total_update(s1, ti, with_coins(s1[ti], s1[ti].coins - c));
                }
            },
            None => {},
        }
    }
}

/// On a deck of at most the fifteen cards, drawing the top card and putting
/// it back leaves the deck as it was, except that the top card is hidden.
pub proof fn law_draw_then_return(d0: Seq<Card>, d1: Seq<Card>, d2: Seq<Card>, drawn: Card)
    requires
        0 < d0.len() <= crate::deck::TOTAL_CARDS,
        drawn == hidden_card(d0.last().role),
        d1 == d0.drop_last(),
        d1.len() < crate::deck::TOTAL_CARDS ==> d2 == d1.push(hidden_card(drawn.role)),
        d1.len() >= crate::deck::TOTAL_CARDS ==> d2 == d1,
    ensures
        d2 == d0.update(d0.len() - 1, hidden_card(d0.last().role)),
{
    assert(d2 =~= d0.update(d0.len() - 1, hidden_card(d0.last().role)));
}

/// Every purse holds part of the purses' total; two purses too.
pub proof fn lemma_purse_part(ps: Seq<Player>, i: int, j: int)
    requires
        0 <= i < ps.len(),
        0 <= j < ps.len(),
    ensures
        ps[i].coins <= purse_total(ps),
        i != j ==> ps[i].coins + ps[j].coins <= purse_total(ps),
    decreases ps.len(),
{
    let n = ps.len() - 1;
    if i < n {
        lemma_purse_part(ps.drop_last(), i, if j < n { j } else { i });
        assert(ps.drop_last()[i] == ps[i]);
        if j < n {
            assert(ps.drop_last()[j] == ps[j]);
        }
    } else if j < n {
        lemma_purse_part(ps.drop_last(), j, j);
        assert(ps.drop_last()[j] == ps[j]);
    } else {
        lemma_purse_nonneg(ps.drop_last());
    }
}

proof fn lemma_purse_nonneg(ps: Seq<Player>)
    ensures
        purse_total(ps) >= 0,
    decreases ps.len(),
{
    if ps.len() > 0 {
        lemma_purse_nonneg(ps.drop_last());
    }
}

/// Declaring an action neither creates nor destroys coins, whatever the
/// result: a refused declaration changes nothing, a cost goes to the bank
/// and an effect only moves coins (the coins of the table fitting in a
/// byte, as they start).
pub proof fn law_declared_action_conserves_coins(
    g0: Game,
    g1: Game,
    client: u128,
    action: Seq<char>,
    target_name: Option<Seq<char>>,
    selected: Seq<Card>,
    r: Result<crate::actions::ActionOutcome, String>,
)
    requires
        g0.pending_influence_loss is None && g0.turn_context is None ==> g0.current_player < g0.players@.len(),
        total_coins(g0) <= 255,
        process_post(g0, g1, client, action, target_name, selected, r),
    ensures
        total_coins(g1) == total_coins(g0),
{
    lemma_action_names_distinct();
    let ps = g0.players@;
    let cp = g0.current_player as int;
    if process_check(g0, client, action, target_name, selected) is Some {
    } else if action == "exchange_confirm"@ {
        lemma_purse_total_update(ps, cp, g1.players@[cp]);
    } else {
        let rules = action_rules(action)->Some_0;
        if rules.claimed_role is None && rules.blockable_by.len() == 0 {
            let gm = choose|gm: Game| cost_paid(g0, gm, cp, rules.cost)
                && #[trigger] effect_post(gm, g1, action, client, crate::actions::target_of(g0, action, target_name), r);
            lemma_purse_part(ps, cp, cp);
            law_cost_conserves_coins(g0, gm, cp, rules.cost);
            if action == "income"@ && has_seat(gm.players@, client) {
                lemma_seat_of(gm.players@, client);
                lemma_purse_part(gm.players@, seat_of(gm.players@, client), seat_of(gm.players@, client));
            }
            assert(effect_fits(gm, action, client, crate::actions::target_of(g0, action, target_name)));
            law_effect_conserves_coins(gm, g1, action, client, crate::actions::target_of(g0, action, target_name), r);
        } else {
            lemma_purse_total_update(ps, cp, with_coins(ps[cp], ps[cp].coins - rules.cost));
        }
    }
}

/// With ten coins or more, a coup is the only action offered, and any other
/// declared action is refused.
pub proof fn law_forced_coup(g: Game, me: u128, action: Seq<char>, target_name: Option<Seq<char>>, selected: Seq<Card>)
    requires
        g.current_player < g.players@.len(),
        g.players@[g.current_player as int].uuid == me,
        g.pending_influence_loss is None,
        g.turn_context is None,
        g.players@[g.current_player as int].exchange_cards@.len() == 0,
        g.players@[g.current_player as int].coins >= 10,
        action != "coup"@,
    ensures
        expected_actions(g, me) == seq![offer("coup"@, Some(alive_targets(g.players@, me)))],
        process_check(g, me, action, target_name, selected) is Some,
{
}

/// Every player names a different name.
pub open spec fn distinct_names(ps: Seq<Player>) -> bool {
    forall|i: int, j: int| 0 <= i < j < ps.len() ==> (#[trigger] ps[i]).name@ != (#[trigger] ps[j]).name@
}

proof fn lemma_alive_target(ps: Seq<Player>, me: u128, t: Seq<char>, need_coins: bool)
    requires
        (if need_coins { stealable_targets(ps, me) } else { alive_targets(ps, me) }).contains(t),
    ensures
        exists|i: int| 0 <= i < ps.len() && (#[trigger] ps[i]).name@ == t && ps[i].is_alive && ps[i].uuid != me,
    decreases ps.len(),
{
    if ps.len() > 0 {
        let last = ps.last();
        let rest = ps.drop_last();
        let prev = if need_coins { stealable_targets(rest, me) } else { alive_targets(rest, me) };
        if prev.contains(t) {
            lemma_alive_target(rest, me, t, need_coins);
            let i = choose|i: int| 0 <= i < rest.len() && (#[trigger] rest[i]).name@ == t && rest[i].is_alive
                && rest[i].uuid != me;
            assert(ps[i] == rest[i]);
        } else {
            assert(last.name@ == t && last.is_alive && last.uuid != me);
            assert(ps[ps.len() - 1] == last);
        }
    }
}

proof fn lemma_named_target_accepted(g: Game, me: u128, action: Seq<char>, t: Seq<char>, need_coins: bool)
    requires
        distinct_names(g.players@),
        (if need_coins { stealable_targets(g.players@, me) } else { alive_targets(g.players@, me) }).contains(t),
    ensures
        crate::actions::has_alive_named(g.players@, t),
        g.players@[crate::actions::alive_named_seat(g.players@, t)].uuid != me,
{
    let ps = g.players@;
    lemma_alive_target(ps, me, t, need_coins);
    let i = choose|i: int| 0 <= i < ps.len() && (#[trigger] ps[i]).name@ == t && ps[i].is_alive && ps[i].uuid != me;
    assert(crate::actions::has_alive_named(ps, t));
    lemma_first_alive_named(ps, t, i);
    let k = crate::actions::alive_named_seat(ps, t);
    assert(crate::actions::is_first_alive_named(ps, t, k));
    if k != i {
        if k < i {
            assert(ps[k].name@ != ps[i].name@);
        } else {
            assert(ps[i].name@ != ps[k].name@);
        }
    }
}

pub(crate) proof fn lemma_first_alive_named(ps: Seq<Player>, t: Seq<char>, i: int)
    requires
        0 <= i < ps.len(),
        ps[i].name@ == t && ps[i].is_alive,
    ensures
        exists|k: int| crate::actions::is_first_alive_named(ps, t, k),
    decreases i,
{
    if exists|j: int| 0 <= j < i && (#[trigger] ps[j]).name@ == t && ps[j].is_alive {
        let j = choose|j: int| 0 <= j < i && (#[trigger] ps[j]).name@ == t && ps[j].is_alive;
        lemma_first_alive_named(ps, t, j);
    } else {
        assert(crate::actions::is_first_alive_named(ps, t, i));
    }
}

/// What an offered action can be, and what the table is like when it is
/// offered.
proof fn lemma_offer_shape(g: Game, me: u128, k: int)
    requires
        0 <= k < expected_actions(g, me).len(),
    ensures
        ({
            let p = g.players@[g.current_player as int];
            let o = expected_actions(g, me)[k];
            let alive = alive_targets(g.players@, me);
            let steal = stealable_targets(g.players@, me);
            &&& p.uuid == me && g.pending_influence_loss is None && g.turn_context is None
            &&& p.exchange_cards@.len() == 0
            &&& (o == offer("coup"@, Some(alive)) && p.coins >= 7)
                || (p.coins < 10 && (
                    o == offer("income"@, None)
                    || o == offer("foreign_aid"@, None)
                    || o == offer("tax"@, None)
                    || o == offer("exchange_draw"@, None)
                    || (o == offer("assassinate"@, Some(alive)) && p.coins >= 3)
                    || o == offer("steal"@, Some(steal))
                ))
        }),
{
    let p = g.players@[g.current_player as int];
    let alive = alive_targets(g.players@, me);
    let steal = stealable_targets(g.players@, me);
    if p.uuid != me || g.pending_influence_loss is Some || g.turn_context is Some || p.exchange_cards@.len() > 0 {
        assert(expected_actions(g, me).len() == 0);
    } else if p.coins >= 10 {
    } else {
        let s1 = crate::game::offer_if(g.coins > 0, offer("income"@, None));
        let s2 = s1 + crate::game::offer_if(g.coins >= 2, offer("foreign_aid"@, None));
        let s3 = s2 + crate::game::offer_if(g.coins >= 3, offer("tax"@, None));
        let s4 = s3 + seq![offer("exchange_draw"@, None)];
        let s5 = s4 + crate::game::offer_if(p.coins >= 7, offer("coup"@, Some(alive)));
        let s6 = s5 + crate::game::offer_if(p.coins >= 3, offer("assassinate"@, Some(alive)));
        let s7 = s6 + crate::game::offer_if(steal.len() > 0, offer("steal"@, Some(steal)));
        assert(expected_actions(g, me) == s7);
        let o = s7[k];
        if k >= s6.len() {
            assert(o == offer("steal"@, Some(steal)));
        } else if k >= s5.len() {
            assert(o == s6[k]);
        } else if k >= s4.len() {
            assert(o == s5[k]);
        } else if k >= s3.len() {
            assert(o == s4[k]);
        } else if k >= s2.len() {
            assert(o == s3[k]);
        } else if k >= s1.len() {
            assert(o == s2[k]);
        } else {
            assert(o == s1[k]);
        }
    }
}

/// Every action offered to the player on turn, with any target offered for
/// it, passes the rules' checks when declared (players having different
/// names).
#[verifier::rlimit(40)]
pub proof fn law_offered_actions_accepted(g: Game, me: u128, k: int, target: Option<Seq<char>>)
    requires
        g.current_player < g.players@.len(),
        distinct_names(g.players@),
        0 <= k < expected_actions(g, me).len(),
        match expected_actions(g, me)[k].targets {
            Some(ts) => target matches Some(t) && ts.contains(t),
            None => target is None,
        },
    ensures
        process_check(g, me, expected_actions(g, me)[k].action, target, Seq::empty()) is None,
{
    lemma_action_names_distinct();
    lemma_offer_shape(g, me, k);
    let o = expected_actions(g, me)[k];
    match target {
        Some(t) => {
            if o.action == "steal"@ {
                lemma_named_target_accepted(g, me, o.action, t, true);
            } else {
                lemma_named_target_accepted(g, me, o.action, t, false);
            }
        },
        None => {},
    }
}

/// Confirming an exchange gives back to the deck the exchange cards less
/// the kept ones: of every card, as many copies as were offered less as
/// many as were kept (none when more were kept), the exchange cards being
/// face down.
pub proof fn law_exchange_returns_unkept(ex: Seq<Card>, sel: Seq<Card>, c: Card)
    requires
        forall|i: int| 0 <= i < ex.len() ==> !(#[trigger] ex[i]).visible,
    ensures
        count_of(returned_cards(ex, sel), c) == if count_of(ex, c) > count_of(sel, c) {
            count_of(ex, c) - count_of(sel, c)
        } else {
            0
        },
    decreases ex.len(),
{
    if ex.len() > 0 {
        let rest = ex.drop_last();
        let l = ex.last();
        assert forall|i: int| 0 <= i < rest.len() implies !(#[trigger] rest[i]).visible by {
            assert(rest[i] == ex[i]);
        }
        law_exchange_returns_unkept(rest, sel, c);
        assert(hidden_card(l.role) == l);
        let r0 = returned_cards(rest, sel);
        assert(r0.push(l).drop_last() =~= r0);
    }
}

} // verus!

verus! {

/// Turning up a hidden card leaves the hand one hidden card fewer.
pub proof fn lemma_reveal_count(s: Seq<Card>, i: int)
    requires
        0 <= i < s.len(),
        !s[i].visible,
    ensures
        count_hidden(reveal_at(s, i)) == count_hidden(s) - 1,
    decreases s.len(),
{
    let r = reveal_at(s, i);
    if i == s.len() - 1 {
        assert(r.drop_last() =~= s.drop_last());
    } else {
        lemma_reveal_count(s.drop_last(), i);
        assert(r.drop_last() =~= reveal_at(s.drop_last(), i));
    }
}

/// Losing influence turns exactly one hidden card face up; the hand keeps
/// its cards and their roles, and a player who lost the last hidden card is
/// out.
pub proof fn law_losing_influence_reveals_one(p0: Player, p1: Player, name: Seq<char>)
    requires
        influence_chosen(p0, p1, name),
    ensures
        count_hidden(p1.cards@) == count_hidden(p0.cards@) - 1,
        p1.cards@.len() == p0.cards@.len(),
        forall|j: int| 0 <= j < p0.cards@.len() ==> (#[trigger] p1.cards@[j]).role == p0.cards@[j].role,
        count_hidden(p0.cards@) == 1 ==> !p1.is_alive,
        p1.uuid == p0.uuid && p1.coins == p0.coins,
{
    if count_hidden(p0.cards@) == 1 {
        let i = choose|i: int| is_first_hidden(p0.cards@, i) && p1.cards@ == reveal_at(p0.cards@, i);
        lemma_reveal_count(p0.cards@, i);
    } else {
        let i = choose|i: int| is_first_hidden_named(p0.cards@, name, i) && p1.cards@ == reveal_at(p0.cards@, i);
        lemma_reveal_count(p0.cards@, i);
    }
}

/// A successful challenger's coin comes from the bank while the bank has
/// one: the coins of the table stay the same.
pub proof fn law_reward_conserves_coins(g0: Game, g1: Game, challenger: u128)
    requires
        rewarded(g0, g1, challenger),
        has_seat(g0.players@, challenger),
        reward_fits(g0, challenger),
        g0.coins > 0,
    ensures
        total_coins(g1) == total_coins(g0),
{
    lemma_seat_of(g0.players@, challenger);
    let k = seat_of(g0.players@, challenger);
    lemma_purse_total_update(g0.players@, k, with_coins(g0.players@[k], g0.players@[k].coins + 1));
}

/// The timer a request schedules finds, once the request is done, the phase
/// it was scheduled for still waiting with its generation; so a timeout
/// that comes before any other request of the room resolves that phase as
/// if everyone had let it pass.
pub proof fn law_scheduled_timer_is_live(s: ChatServer, out: Seq<Outgoing>)
    requires
        timers_live(out, 0, s),
        out.len() > 0,
        out.last() is ScheduleTimeout,
    ensures
        waits_with(s, out.last()->room_uuid, out.last()->generation),
{
    assert(out[out.len() - 1] is ScheduleTimeout);
}

/// The cards the first `n` seats are dealt from the shuffled deck `sh`.
pub open spec fn dealt_all(sh: Seq<Card>, n: nat) -> Seq<Card>
    decreases n,
{
    if n == 0 {
        Seq::empty()
    } else {
        dealt_all(sh, (n - 1) as nat) + dealt_to(sh, n - 1)
    }
}

proof fn lemma_dealt_top(sh: Seq<Card>, m: nat)
    requires
        2 * m <= sh.len(),
        forall|j: int| 0 <= j < sh.len() ==> !(#[trigger] sh[j]).visible,
    ensures
        dealt_all(sh, m).to_multiset() == sh.subrange(sh.len() - 2 * m, sh.len() as int).to_multiset(),
    decreases m,
{
    broadcast use vstd::seq_lib::lemma_multiset_commutative;

    let len = sh.len() as int;
    if m > 0 {
        lemma_dealt_top(sh, (m - 1) as nat);
        let a = sh[len - 2 * m];
        let b = sh[len - 2 * m + 1];
        assert(hidden_card(a.role) == a);
        assert(hidden_card(b.role) == b);
        let top = sh.subrange(len - 2 * m, len);
        let rest = sh.subrange(len - 2 * m + 2, len);
        assert(top =~= seq![a, b] + rest);
        assert(dealt_to(sh, m - 1) =~= seq![b, a]);
        assert(rest =~= sh.subrange(len - 2 * (m - 1), len));
        assert(dealt_all(sh, m) == dealt_all(sh, (m - 1) as nat) + seq![b, a]);
        broadcast use vstd::multiset::group_multiset_axioms;

        assert(seq![b, a].to_multiset() =~= seq![a, b].to_multiset()) by {
            assert(seq![b, a] =~= seq![b] + seq![a]);
            assert(seq![a, b] =~= seq![a] + seq![b]);
        }
        assert(dealt_all(sh, m).to_multiset() =~= rest.to_multiset().add(seq![a, b].to_multiset()));
        assert(top.to_multiset() =~= seq![a, b].to_multiset().add(rest.to_multiset()));
        assert(dealt_all(sh, m).to_multiset() =~= top.to_multiset());
    } else {
        assert(sh.subrange(len, len) =~= Seq::<Card>::empty());
        broadcast use vstd::multiset::group_multiset_axioms;

        assert(dealt_all(sh, m).to_multiset() =~= sh.subrange(len, len).to_multiset());
    }
}

/// Dealing neither creates nor loses a card: the cards dealt to the first
/// `n` seats and the cards left in the deck are the cards the deck held
/// (the deck's cards being face down).
pub proof fn law_deal_keeps_cards(d0: Seq<Card>, sh: Seq<Card>, d1: Seq<Card>, n: nat)
    requires
        sh.to_multiset() == d0.to_multiset(),
        2 * n <= sh.len(),
        d1 == sh.subrange(0, sh.len() - 2 * n),
        forall|j: int| 0 <= j < sh.len() ==> !(#[trigger] sh[j]).visible,
    ensures
        d0.to_multiset() == d1.to_multiset().add(dealt_all(sh, n).to_multiset()),
{
    broadcast use vstd::seq_lib::lemma_multiset_commutative;

    lemma_dealt_top(sh, n);
    let len = sh.len() as int;
    assert(sh =~= d1 + sh.subrange(len - 2 * n, len));
}


/// Defending a claim neither creates nor loses a card, the deck's cards being
/// face down: the deck and the defender's hand together hold the same cards
/// as before, the defender's hand keeps its size and which of its cards are
/// face up (so its influence), and every other hand is untouched.
pub proof fn law_defended_claim_keeps_cards(g0: Game, g1: Game, u: u128, role: Role)
    requires
        card_swapped(g0, g1, u, role),
        has_seat(g0.players@, u),
        forall|i: int| 0 <= i < g0.deck.cards@.len() ==> !(#[trigger] g0.deck.cards@[i]).visible,
    ensures
        ({
            let k = seat_of(g0.players@, u);
            let h0 = g0.players@[k].cards@;
            let h1 = g1.players@[k].cards@;
            &&& g1.deck.cards@.to_multiset().add(h1.to_multiset()) == g0.deck.cards@.to_multiset().add(
                h0.to_multiset(),
            )
            &&& h1.len() == h0.len()
            &&& forall|i: int| 0 <= i < h0.len() ==> (#[trigger] h1[i]).visible == h0[i].visible
            &&& g1.players@.len() == g0.players@.len()
            &&& forall|i: int| 0 <= i < g0.players@.len() && i != k ==> (#[trigger] g1.players@[i]).cards@
                == g0.players@[i].cards@
        }),
{
    broadcast use vstd::multiset::group_multiset_axioms;

    let ps = g0.players@;
    let k = seat_of(ps, u);
    let h0 = ps[k].cards@;
    let d0 = g0.deck.cards@;
    lemma_seat_of(ps, u);
    if (exists|j: int| is_first_hidden_of(h0, role, j)) && d0.len() < TOTAL_CARDS {
        let j = choose|j: int| is_first_hidden_of(h0, role, j);
        let sh = choose|sh: Seq<Card>| #[trigger] swapped_through(g0, g1, k, j, role, sh);
        assert(swapped_through(g0, g1, k, j, role, sh));
        let h = hidden_card(role);
        let top = sh.last();
        let d1 = sh.drop_last();
        let h1 = g1.players@[k].cards@;
        assert(sh =~= d1.push(top));
        vstd::seq_lib::to_multiset_build(d1, top);
        vstd::seq_lib::to_multiset_build(d0, h);
        assert(sh.contains(top)) by {
            assert(sh[sh.len() - 1] == top);
        }
        vstd::seq_lib::to_multiset_contains(sh, top);
        vstd::seq_lib::to_multiset_contains(d0.push(h), top);
        assert(d0.push(h).contains(top));
        let t = choose|t: int| 0 <= t < d0.push(h).len() && d0.push(h)[t] == top;
        if t < d0.len() {
            assert(d0[t] == top);
        }
        assert(!top.visible);
        assert(hidden_card(top.role) == top);
        vstd::seq_lib::to_multiset_update(h0, j, top);
        assert(h1 == h0.update(j, top));
        vstd::seq_lib::to_multiset_contains(h0, h);
        assert(h0.contains(h)) by {
            assert(h0[j] == h);
        }
        assert(h1.len() == h0.len());
        assert(d1.to_multiset().insert(top) == d0.to_multiset().insert(h));
        assert(h1.to_multiset() == h0.to_multiset().insert(top).remove(h));
        assert(h0.to_multiset().count(h) > 0);
        assert forall|x: Card| #[trigger] d1.to_multiset().add(h1.to_multiset()).count(x) == d0.to_multiset().add(
            h0.to_multiset(),
        ).count(x) by {
            assert(d1.to_multiset().insert(top).count(x) == d0.to_multiset().insert(h).count(x));
            assert(h1.to_multiset().count(x) == h0.to_multiset().insert(top).remove(h).count(x));
        }
        assert(d1.to_multiset().add(h1.to_multiset()) =~= d0.to_multiset().add(h0.to_multiset()));
        assert forall|i: int| 0 <= i < ps.len() && i != k implies (#[trigger] g1.players@[i]).cards@
            == ps[i].cards@ by {
            assert(g1.players@[i] == ps[i]);
        }
    } else {
        assert forall|i: int| 0 <= i < ps.len() implies (#[trigger] g1.players@[i]).cards@ == ps[i].cards@ by {}
        assert(g1.players@[k].cards@ == h0);
    }
}

} // verus!
