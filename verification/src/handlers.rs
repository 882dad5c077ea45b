use vstd::prelude::*;
use crate::action_properties::{action_rules, get_action_properties};
use crate::actions::{
    ActionOutcome, action_fits, check_action, lost_last_card, opt_view, process_action, process_check, process_fits,
    process_post,
};
use crate::card::{Card, Role, parse_role, role_of_name};
use crate::game::{Game, MAX_PLAYERS, MIN_PLAYERS, alive_count, dealt, find_seat, has_seat, seat_of};
use crate::phases::{
    all_allowed, choice_asked, game_over_sent, choice_sent, table_shown, opened_phase, phase_announced, turn_finished, went_on, block_challenge_resolved, challenge_resolved, eligible_of, kept_rooms, lemma_kept_wf, lemma_played_at, lemma_played_refl, lemma_seat_update, lemma_played_room_game,
    lemma_played_trans, lemma_push_sent, lemma_room_game_at, lemma_sent_trans, no_timers, played_in_room,
    sent_in_room, table_sent_to, timers_live,
};
use crate::player::{Player, count_hidden, has_hidden_named, is_first_hidden_named, reveal_at};
use crate::random::fresh_uuid;
use crate::server::{
    AllowAction, BlockAction, ChallengeAction, ChatServer, ClientMessage, Create, Disconnect, Join,
    LoseInfluence, Outgoing, Room, StartGame, Action, has_code_room, in_some_room,
    is_error_to, is_player_room, player_to_game, room_game, uppercase, removed_from_rooms, has_room, room_pos,
};
use crate::state::{LobbyState, ServerMessage};
use crate::turn_phase::{BlockInfo, TurnContext, TurnPhase};

verus! {

/// The table of the first room that seats `player`.
pub open spec fn player_game(s: ChatServer, player: u128) -> Game {
    s.rooms@[choose|k: int| is_player_room(s.rooms@, player, k)].game
}

fn error_out(to: u128, msg: &str) -> (out: Vec<Outgoing>)
    ensures
        is_error_to(out@, to, msg@),
{
    let mut v: Vec<u128> = Vec::new();
    v.push(to);
    let mut out: Vec<Outgoing> = Vec::new();
    out.push(Outgoing::Send { to: v, message: ServerMessage::Error { message: msg.to_owned() } });
    out
}

fn push_error(out: &mut Vec<Outgoing>, to: u128, msg: &str)
    ensures
        final(out)@.len() == old(out)@.len() + 1,
        final(out)@.drop_last() == old(out)@,
        final(out)@.last() matches Outgoing::Send { to: t, message: ServerMessage::Error { message } }
            && t@ == seq![to] && message@ == msg@,
{
    let mut v: Vec<u128> = Vec::new();
    v.push(to);
    out.push(Outgoing::Send { to: v, message: ServerMessage::Error { message: msg.to_owned() } });
}

proof fn lemma_player_room_unique(rs: Seq<Room>, player: u128, k: int)
    requires
        is_player_room(rs, player, k),
    ensures
        (choose|k2: int| is_player_room(rs, player, k2)) == k,
{
    let k2 = choose|k2: int| is_player_room(rs, player, k2);
    assert(is_player_room(rs, player, k2));
    if k2 < k {
    } else if k2 > k {
    }
}

/// The room of the first table that seats `player`.
pub open spec fn player_room_id(s: ChatServer, player: u128) -> u128 {
    s.rooms@[choose|k: int| is_player_room(s.rooms@, player, k)].uuid
}

/// What a request in room `u` keeps: the other rooms and the seats of this
/// one stay, every answer goes to a player of the room, and a timer it
/// schedules finds its phase waiting.
pub open spec fn room_request(s0: ChatServer, s1: ChatServer, out: Seq<Outgoing>, u: u128) -> bool {
    &&& played_in_room(s0, s1, u)
    &&& sent_in_room(Seq::empty(), out, s0, u)
    &&& timers_live(out, 0, s1)
}

proof fn lemma_quiet_request(s: ChatServer, u: u128)
    ensures
        room_request(s, s, Seq::empty(), u),
{
    lemma_played_refl(s, u);
    assert(Seq::<Outgoing>::empty().subrange(0, 0) =~= Seq::<Outgoing>::empty());
}

/// A request whose state went from `s0` through `s1` (with no message) to
/// `s2`, sending `out` from `s1` on.
proof fn lemma_request_after(s0: ChatServer, s1: ChatServer, s2: ChatServer, out: Seq<Outgoing>, u: u128)
    requires
        s0.wf(),
        played_in_room(s0, s1, u),
        played_in_room(s1, s2, u),
        sent_in_room(Seq::empty(), out, s1, u),
        timers_live(out, 0, s2),
    ensures
        room_request(s0, s2, out, u),
{
    lemma_played_trans(s0, s1, s2, u);
    assert(Seq::<Outgoing>::empty().subrange(0, 0) =~= Seq::<Outgoing>::empty());
    lemma_sent_trans(Seq::empty(), Seq::empty(), out, s0, s1, u);
}

/// Table `g1` is `g0` with `client` among those who answered the phase.
pub open spec fn recorded_answer(g0: Game, g1: Option<Game>, client: u128) -> bool {
    let ctx0 = g0.turn_context->Some_0;
    match g1 {
        Some(g) => match g.turn_context {
            Some(ctx1) => {
                &&& g == (Game { turn_context: g.turn_context, ..g0 })
                &&& ctx1 == (TurnContext { responded: ctx1.responded, ..ctx0 })
                &&& ctx1.responded@ == ctx0.responded@.insert(client)
            },
            None => false,
        },
        None => false,
    }
}

/// Table `g1` is `g0` with `client`'s block, claiming `role`, recorded: the
/// turn now waits for challenges of the block.
pub open spec fn block_recorded(g0: Game, g1: Game, client: u128, role: Role) -> bool {
    let c0 = g0.turn_context->Some_0;
    let ps = g0.players@;
    match g1.turn_context {
        Some(c1) => match c1.block_info {
            Some(b) => {
                &&& g1 == (Game { turn_context: g1.turn_context, ..g0 })
                &&& c1 == (TurnContext {
                    block_info: c1.block_info,
                    phase: TurnPhase::AwaitingBlockChallengeResponses,
                    ..c0
                })
                &&& b.blocker_uuid == client
                &&& b.claimed_role == role
                &&& b.blocker_name@ == ps[seat_of(ps, client)].name@
            },
            None => false,
        },
        None => false,
    }
}

/// Table `gf` and the messages `out` of room `u` are what follows a declared
/// action with result `r` at table `g1`: the turn ends; a phase opens and is
/// announced (or, when nobody may answer, is resolved at once); the table
/// waits for an influence choice or an exchange and is shown; or the action
/// was refused.
pub open spec fn declared_then(
    g1: Game,
    r: Result<ActionOutcome, String>,
    gf: Option<Game>,
    out: Seq<Outgoing>,
    u: u128,
) -> bool {
    match r {
        Ok(ActionOutcome::TurnComplete) => turn_finished(g1, gf, Seq::empty(), out),
        Ok(ActionOutcome::WaitingForInfluenceChoice(t)) => gf == Some(g1) && choice_asked(g1, t, Seq::empty(), out),
        Ok(ActionOutcome::WaitingForExchange) => gf == Some(g1) && table_shown(g1, Seq::empty(), out),
        Ok(ActionOutcome::PhaseStarted) => {
            &&& eligible_of(g1).len() > 0 ==> opened_phase(g1, gf)
                && phase_announced(g1, Seq::empty(), out, u)
            &&& eligible_of(g1).len() == 0 ==> exists|gm: Game| #[trigger] opened_phase(g1, Some(gm)) && all_allowed(
                gm,
                gf,
                Seq::empty(),
                out,
                u,
            )
        },
        _ => gf == Some(g1),
    }
}

/// Player `p1` is `p0` after giving up influence by naming `name`: with one
/// hidden card left that card is turned up and the player is out; with two,
/// the first hidden card of the named role is turned up.
pub open spec fn influence_chosen(p0: Player, p1: Player, name: Seq<char>) -> bool {
    if count_hidden(p0.cards@) == 1 {
        lost_last_card(p0, p1)
    } else {
        &&& exists|i: int| is_first_hidden_named(p0.cards@, name, i) && p1.cards@ == reveal_at(p0.cards@, i)
        &&& p1 == (Player { cards: p1.cards, ..p0 })
    }
}

/// Table `gf` and messages `out` are what room `u` comes to once the pending
/// influence choice of table `g1` was made: nothing is pending any more, and
/// the step that waited for the choice runs (or the turn ends).
pub open spec fn choice_then(g1: Game, gf: Option<Game>, out: Seq<Outgoing>, u: u128) -> bool {
    let g2 = Game {
        pending_influence_loss: None,
        turn_context: match g1.turn_context {
            Some(c) => Some(TurnContext { after_influence_loss: None, ..c }),
            None => None,
        },
        ..g1
    };
    match g1.turn_context {
        Some(c) => match c.after_influence_loss {
            Some(a) => went_on(g2, gf, a, Seq::empty(), out, u),
            None => turn_finished(g2, gf, Seq::empty(), out),
        },
        None => turn_finished(g2, gf, Seq::empty(), out),
    }
}

/// An error answer to a player seated at the table at position `k`.
fn error_in_room(s: &ChatServer, k: usize, to: u128, msg: &str) -> (out: Vec<Outgoing>)
    requires
        s.wf(),
        is_player_room(s.rooms@, to, k as int),
    ensures
        is_error_to(out@, to, msg@),
        room_request(*s, *s, out@, s.rooms@[k as int].uuid),
{
    let out = error_out(to, msg);
    proof {
        let u = s.rooms@[k as int].uuid;
        lemma_quiet_request(*s, u);
        lemma_room_game_at(*s, k as int, u);
        assert(out@ =~= Seq::<Outgoing>::empty().push(out@[0]));
        lemma_push_sent(Seq::empty(), Seq::empty(), out@[0], *s, u);
    }
    out
}

/// The position of the room `player_to_game` found, with its proof.
fn player_room(self_: &ChatServer, player: u128) -> (r: Option<usize>)
    requires
        self_.wf(),
    ensures
        match r {
            Some(k) => is_player_room(self_.rooms@, player, k as int)
                && player_game(*self_, player) == self_.rooms@[k as int].game
                && player_room_id(*self_, player) == self_.rooms@[k as int].uuid,
            None => !in_some_room(self_.rooms@, player),
        },
{
    let room_uuid = match player_to_game(&player, self_) {
        Some(u) => u,
        None => {
            return None;
        },
    };
    match self_.room_index(room_uuid) {
        Some(k) => {
            proof {
                let kk = choose|i: int| is_player_room(self_.rooms@, player, i) && self_.rooms@[i].uuid == room_uuid;
                if kk != k {
                    if kk < k {
                        assert(self_.rooms@[kk].uuid != self_.rooms@[k as int].uuid);
                    } else {
                        assert(self_.rooms@[k as int].uuid != self_.rooms@[kk].uuid);
                    }
                }
                lemma_player_room_unique(self_.rooms@, player, k as int);
            }
            Some(k)
        },
        None => {
            proof {
                let kk = choose|i: int| is_player_room(self_.rooms@, player, i) && self_.rooms@[i].uuid == room_uuid;
                assert(self_.rooms@[kk].uuid == room_uuid);
            }
            None
        },
    }
}

/// The player with every card face up and out of the game.
pub open spec fn eliminated(p0: Player, p1: Player) -> bool {
    &&& p1.cards@ == p0.cards@.map_values(|c: Card| Card { role: c.role, visible: true })
    &&& p1 == (Player { cards: p1.cards, is_alive: false, ..p0 })
}

fn eliminate(p: &mut Player)
    ensures
        eliminated(*old(p), *final(p)),
{
    p.is_alive = false;
    let mut j: usize = 0;
    while j < p.cards.len()
        invariant
            j <= p.cards@.len(),
            p.cards@.len() == old(p).cards@.len(),
            forall|k: int| 0 <= k < j ==> #[trigger] p.cards@[k] == (Card { role: old(p).cards@[k].role, visible: true }),
            forall|k: int| j <= k < p.cards@.len() ==> #[trigger] p.cards@[k] == old(p).cards@[k],
            *p == (Player { cards: p.cards, is_alive: false, ..*old(p) }),
        decreases p.cards@.len() - j,
    {
        let role = p.cards[j].role;
        p.cards.set(j, Card { role, visible: true });
        j = j + 1;
    }
    assert(p.cards@ =~= old(p).cards@.map_values(|c: Card| Card { role: c.role, visible: true }));
}

fn count_alive(ps: &Vec<Player>) -> (n: usize)
    ensures
        n == alive_count(ps@),
{
    let mut n: usize = 0;
    let mut i: usize = 0;
    while i < ps.len()
        invariant
            i <= ps@.len(),
            n == alive_count(ps@.take(i as int)),
            n <= i,
        decreases ps@.len() - i,
    {
        assert(ps@.take(i + 1).drop_last() =~= ps@.take(i as int));
        if ps[i].is_alive {
            n = n + 1;
        }
        i = i + 1;
    }
    assert(ps@.take(ps@.len() as int) =~= ps@);
    n
}

/// Asks a player of the room at position `k` which hidden card to give up.
fn lose_choice(s: &ChatServer, k: usize, player_uuid: u128, out: &mut Vec<Outgoing>)
    requires
        s.wf(),
        k < s.rooms@.len(),
    ensures
        sent_in_room(old(out)@, final(out)@, *s, s.rooms@[k as int].uuid),
        no_timers(final(out)@, old(out)@.len() as int),
        ({
            let ps = s.rooms@[k as int].game.players@;
            if has_seat(ps, player_uuid) {
                &&& final(out)@.len() == old(out)@.len() + 1
                &&& final(out)@.drop_last() == old(out)@
                &&& choice_sent(final(out)@.last(), player_uuid, ps[seat_of(ps, player_uuid)].cards@)
            } else {
                final(out)@ == old(out)@
            }
        }),
{
    let ghost o0 = out@;
    let ghost u = s.rooms@[k as int].uuid;
    assert(o0.subrange(0, o0.len() as int) =~= o0);
    proof { lemma_room_game_at(*s, k as int, u); }
    let game = &s.rooms[k].game;
    match find_seat(&game.players, player_uuid) {
        Some(i) => {
            let cards = crate::phases::hidden_card_views(&game.players[i]);
            let mut to: Vec<u128> = Vec::new();
            to.push(player_uuid);
            out.push(Outgoing::Send { to, message: ServerMessage::LoseInfluenceChoice { cards } });
            proof { lemma_push_sent(o0, o0, out@.last(), *s, u); }
        },
        None => {},
    }
}

impl ChatServer {
    /// A client connected: it is told its identifier.
    pub fn handle_connect(&self, uuid: u128) -> (out: Vec<Outgoing>)
        ensures
            out@.len() == 1,
            out@[0] matches Outgoing::Send { to, message: ServerMessage::Connected { player_uuid } }
                && to@ == seq![uuid] && player_uuid == uuid,
    {
        let mut to: Vec<u128> = Vec::new();
        to.push(uuid);
        let mut out: Vec<Outgoing> = Vec::new();
        out.push(Outgoing::Send { to, message: ServerMessage::Connected { player_uuid: uuid } });
        out
    }

    /// A connected client left: in the first room that seats it, its player
    /// is eliminated with every card revealed. A room with nobody alive is
    /// closed; otherwise a started game may announce its winner, and everyone
    /// sees the new table.
    pub fn handle_disconnect(&mut self, msg: Disconnect) -> (out: Vec<Outgoing>)
        requires
            old(self).wf(),
        ensures
            final(self).wf(),
            !in_some_room(old(self).rooms@, msg.uuid) ==> final(self).rooms@ == old(self).rooms@ && out@.len() == 0,
            forall|k: int| #[trigger] is_player_room(old(self).rooms@, msg.uuid, k) ==> {
                let g0 = old(self).rooms@[k].game;
                let i = seat_of(g0.players@, msg.uuid);
                &&& alive_count(g0.players@.update(i, Player { is_alive: false, ..g0.players@[i] })) == 0
                    ==> final(self).rooms@ == old(self).rooms@.remove(k) && out@.len() == 0
                &&& alive_count(g0.players@.update(i, Player { is_alive: false, ..g0.players@[i] })) != 0
                    ==> {
                    let g1 = final(self).rooms@[k].game;
                    &&& final(self).rooms@.len() == old(self).rooms@.len()
                    &&& eliminated(g0.players@[i], g1.players@[i])
                    &&& g1.players@ == g0.players@.update(i, g1.players@[i])
                    &&& g1 == (Game { players: g1.players, ..g0 })
                    &&& forall|j: int| 0 <= j < old(self).rooms@.len() && j != k ==> #[trigger] final(self).rooms@[j]
                        == old(self).rooms@[j]
                    &&& room_request(*old(self), *final(self), out@, old(self).rooms@[k].uuid)
                    &&& if g0.started && alive_count(g1.players@) == 1 {
                        out@.len() > 0 && game_over_sent(out@[0], g1) && table_shown(g1, seq![out@[0]], out@)
                    } else {
                        table_shown(g1, Seq::empty(), out@)
                    }
                }
            },
    {
        let mut out: Vec<Outgoing> = Vec::new();
        let k = match player_room(self, msg.uuid) {
            Some(k) => k,
            None => {
                return out;
            },
        };
        proof { lemma_player_room_unique(old(self).rooms@, msg.uuid, k as int); }
        let room_uuid = self.rooms[k].uuid;
        let seat = match find_seat(&self.rooms[k].game.players, msg.uuid) {
            Some(i) => i,
            None => {
                return out;
            },
        };
        let ghost s0 = *self;
        eliminate(&mut self.rooms[k].game.players[seat]);
        proof {
            let g0 = old(self).rooms@[k as int].game;
            let ps1 = self.rooms@[k as int].game.players@;
            let ps2 = g0.players@.update(seat as int, Player { is_alive: false, ..g0.players@[seat as int] });
            assert forall|j: int| 0 <= j < ps1.len() implies (#[trigger] ps1[j]).is_alive == ps2[j].is_alive by {}
            lemma_alive_count_same(ps1, ps2);
        }
        let alive = count_alive(&self.rooms[k].game.players);
        if alive == 0 {
            let _ = self.rooms.remove(k);
            proof {
                assert forall|i: int, j: int| 0 <= i < j < self.rooms@.len() implies
                    (#[trigger] self.rooms@[i]).uuid != (#[trigger] self.rooms@[j]).uuid by {
                    let oi = if i < k { i } else { i + 1 };
                    let oj = if j < k { j } else { j + 1 };
                    assert(self.rooms@[i] == old(self).rooms@[oi]);
                    assert(self.rooms@[j] == old(self).rooms@[oj]);
                    assert(old(self).rooms@[oi].uuid != old(self).rooms@[oj].uuid);
                }
            }
            return out;
        }
        let ghost s1 = *self;
        proof {
            let g0 = s0.rooms@[k as int].game;
            let g1 = s1.rooms@[k as int].game;
            assert(g1.players@ =~= g0.players@.update(seat as int, g1.players@[seat as int]));
            lemma_seat_update(g0, g1, seat as int);
            lemma_played_at(s0, s1, k as int, room_uuid);
            lemma_played_room_game(s0, s1, room_uuid);
            lemma_room_game_at(s1, k as int, room_uuid);
            lemma_quiet_request(s1, room_uuid);
        }
        if self.rooms[k].game.started {
            let winner = match self.rooms[k].game.check_game_over() {
                Some(w) => Some(w.name.clone()),
                None => None,
            };
            match winner {
                Some(w) => self.broadcast_to_room(&room_uuid, ServerMessage::GameOver { winner: w }, &mut out),
                None => {},
            }
        }
        let ghost o1 = out@;
        proof {
            if o1.len() > 0 {
                assert(o1 =~= seq![o1[0]]);
            } else {
                assert(o1 =~= Seq::<Outgoing>::empty());
            }
        }
        let _ = self.broadcast_game_state(&room_uuid, &mut out);
        proof {
            lemma_sent_trans(Seq::empty(), o1, out@, s1, s1, room_uuid);
            crate::phases::lemma_no_timers_after(o1, out@, 0);
            lemma_request_after(s0, s1, s1, out@, room_uuid);
            if o1.len() > 0 {
                assert(out@[0] == o1[0]) by {
                    assert(out@.subrange(0, o1.len() as int)[0] == o1[0]);
                }
            }
        }
        out
    }

    /// Shows a text to everyone in the room, as an error message.
    pub fn handle_client_message(&self, msg: ClientMessage) -> (out: Vec<Outgoing>)
        ensures
            !crate::server::has_room(self.rooms@, msg.room_uuid) ==> out@.len() == 0,
            crate::server::has_room(self.rooms@, msg.room_uuid) ==> out@.len() == 1 && exists|i: int|
                0 <= i < self.rooms@.len() && (#[trigger] self.rooms@[i]).uuid == msg.room_uuid && (
                out@[0] matches Outgoing::Send { to, message: ServerMessage::Error { message } } && to@
                == self.rooms@[i].game.players@.map_values(|p: Player| p.uuid) && message@ == msg.msg@),
    {
        let mut out: Vec<Outgoing> = Vec::new();
        self.broadcast_to_room(&msg.room_uuid, ServerMessage::Error { message: msg.msg.clone() }, &mut out);
        out
    }
}

proof fn lemma_alive_count_same(a: Seq<Player>, b: Seq<Player>)
    requires
        a.len() == b.len(),
        forall|j: int| 0 <= j < a.len() ==> (#[trigger] a[j]).is_alive == b[j].is_alive,
    ensures
        alive_count(a) == alive_count(b),
    decreases a.len(),
{
    if a.len() > 0 {
        lemma_alive_count_same(a.drop_last(), b.drop_last());
    }
}

/// A freshly seated player: alive, two coins, no cards.
pub open spec fn is_new_player(p: Player, uuid: u128, name: Seq<char>) -> bool {
    &&& p.uuid == uuid
    &&& p.name@ == name
    &&& p.is_alive
    &&& p.cards@.len() == 0
    &&& p.coins == 2
    &&& p.exchange_cards@.len() == 0
}

/// The card a selection names, if it names a role.
pub open spec fn picked(s: Option<Seq<char>>) -> Seq<Card> {
    match s {
        Some(name) => match role_of_name(name) {
            Some(r) => seq![crate::card::hidden_card(r)],
            None => Seq::empty(),
        },
        None => Seq::empty(),
    }
}

pub open spec fn string_view(s: Option<String>) -> Option<Seq<char>> {
    match s {
        Some(x) => Some(x@),
        None => None,
    }
}

/// The cards an action message selects, ignoring names that are not roles.
pub open spec fn selected_of(a: Option<String>, b: Option<String>) -> Seq<Card> {
    picked(string_view(a)) + picked(string_view(b))
}

fn pick(s: &Option<String>, v: &mut Vec<Card>)
    ensures
        final(v)@ == old(v)@ + picked(string_view(*s)),
{
    match s {
        Some(name) => match Card::from_str(name.as_str()) {
            Ok(c) => {
                v.push(c);
                assert(final(v)@ =~= old(v)@ + picked(string_view(*s)));
            },
            Err(_) => {
                assert(final(v)@ =~= old(v)@ + picked(string_view(*s)));
            },
        },
        None => {
            assert(final(v)@ =~= old(v)@ + picked(string_view(*s)));
        },
    }
}

fn selected_cards(a: &Option<String>, b: &Option<String>) -> (v: Vec<Card>)
    ensures
        v@ == selected_of(*a, *b),
{
    let mut v: Vec<Card> = Vec::new();
    pick(a, &mut v);
    pick(b, &mut v);
    assert(v@ =~= selected_of(*a, *b));
    v
}

fn opt_str(s: &Option<String>) -> (r: Option<&str>)
    ensures
        opt_view(r) == string_view(*s),
{
    match s {
        Some(x) => Some(x.as_str()),
        None => None,
    }
}

/// Whether `client` may challenge in the phase of table `g`: a living
/// player other than the actor for a claim, other than the blocker for a
/// block; nobody during the block phase.
pub open spec fn may_challenge(g: Game, client: u128) -> bool {
    let ctx = g.turn_context->Some_0;
    let ps = g.players@;
    has_seat(ps, client) && match ctx.phase {
        TurnPhase::AwaitingChallengeResponses => ps[seat_of(ps, client)].is_alive && client != ctx.actor_uuid,
        TurnPhase::AwaitingBlockChallengeResponses => ps[seat_of(ps, client)].is_alive && match ctx.block_info {
            Some(b) => client != b.blocker_uuid,
            None => true,
        },
        TurnPhase::AwaitingBlockResponses => false,
    }
}

/// Whether `client` may block the action of table `g` (in its block phase):
/// only the target of an action that only its target may block, else anyone
/// but the actor; and only while alive.
pub open spec fn may_block(g: Game, client: u128) -> bool {
    let ctx = g.turn_context->Some_0;
    let ps = g.players@;
    let rules = action_rules(ctx.action@)->Some_0;
    &&& (if rules.block_target_only { ctx.target_uuid == Some(client) } else { client != ctx.actor_uuid })
    &&& has_seat(ps, client) && ps[seat_of(ps, client)].is_alive
}

/// Client `c`, named `name`, asked to join room `ru` of rooms `rs`; rooms
/// `rs1` and the messages `out` are the answer. A missing room, a started
/// game, a full lobby or a name already taken leave the rooms as they are
/// and tell the client why; otherwise the client takes the next seat and
/// everyone in the lobby is shown it.
pub open spec fn join_answered(
    rs: Seq<Room>,
    rs1: Seq<Room>,
    ru: u128,
    c: u128,
    name: Seq<char>,
    out: Seq<Outgoing>,
) -> bool {
    let k = room_pos(rs, ru);
    let g0 = rs[k].game;
    if !has_room(rs, ru) {
        is_error_to(out, c, "Room not found"@) && rs1 == rs
    } else if g0.started {
        is_error_to(out, c, "Game already started"@) && rs1 == rs
    } else if g0.players@.len() >= g0.max_players {
        is_error_to(out, c, "Lobby is full"@) && rs1 == rs
    } else if exists|i: int| 0 <= i < g0.players@.len() && (#[trigger] g0.players@[i]).name@ == name {
        is_error_to(out, c, "A player with that name is already in the lobby"@) && rs1 == rs
    } else {
        let g1 = rs1[k].game;
        &&& rs1.len() == rs.len()
        &&& rs1[k].uuid == ru
        &&& g1.players@.len() == g0.players@.len() + 1
        &&& g1.players@.drop_last() == g0.players@
        &&& is_new_player(g1.players@.last(), c, name)
        &&& g1 == (Game { players: g1.players, ..g0 })
        &&& forall|j: int| 0 <= j < rs.len() && j != k ==> #[trigger] rs1[j] == rs[j]
        &&& out.len() == 1
        &&& out[0] matches Outgoing::Send { to, message: ServerMessage::LobbyState(ls) }
            && to@ == g1.players@.map_values(|p: Player| p.uuid)
            && ls.room_code@ == g0.room_code@
            && ls.players.deep_view() == g1.players@.map_values(|p: Player| p.name@)
    }
}

impl ChatServer {
    /// Seats a client in the lobby with the given code, after taking it out
    /// of any room it was in; everyone in the lobby then sees it.
    pub fn handle_join(&mut self, msg: Join) -> (out: Vec<Outgoing>)
        requires
            old(self).wf(),
        ensures
            final(self).wf(),
            !has_code_room(old(self).rooms@, uppercase(msg.room_code@)) ==> is_error_to(
                out@,
                msg.client_uuid,
                "Room not found"@,
            ) && final(self).rooms@ == old(self).rooms@,
            forall|k: int| #[trigger] crate::server::is_code_room(old(self).rooms@, uppercase(msg.room_code@), k)
                ==> exists|rs: Seq<Room>| #[trigger] removed_from_rooms(old(self).rooms@, rs, msg.client_uuid)
                && join_answered(rs, final(self).rooms@, old(self).rooms@[k].uuid, msg.client_uuid, msg.client_name@, out@),
    {
        let room_uuid = match self.find_room_by_code(msg.room_code.as_str()) {
            Some(u) => u,
            None => {
                return error_out(msg.client_uuid, "Room not found");
            },
        };
        let ghost s0 = *self;
        self.remove_from_rooms(&msg.client_uuid);
        let ghost sm = *self;
        proof {
            let kk = choose|i: int| crate::server::is_code_room(s0.rooms@, uppercase(msg.room_code@), i)
                && s0.rooms@[i].uuid == room_uuid;
            assert forall|k2: int| #[trigger] crate::server::is_code_room(s0.rooms@, uppercase(msg.room_code@), k2)
                implies s0.rooms@[k2].uuid == room_uuid by {
                if k2 < kk {} else if k2 > kk {}
            }
        }
        let k = match self.room_index(room_uuid) {
            Some(k) => k,
            None => {
                let out = error_out(msg.client_uuid, "Room not found");
                assert(join_answered(sm.rooms@, self.rooms@, room_uuid, msg.client_uuid, msg.client_name@, out@));
                return out;
            },
        };
        assert(room_pos(sm.rooms@, room_uuid) == k);
        if self.rooms[k].game.started {
            let out = error_out(msg.client_uuid, "Game already started");
            assert(join_answered(sm.rooms@, self.rooms@, room_uuid, msg.client_uuid, msg.client_name@, out@));
            return out;
        }
        let player = Player::new(&msg.client_uuid, msg.client_name.as_str());
        match self.rooms[k].game.add_player(player) {
            Ok(()) => {},
            Err(e) => {
                assert(self.rooms@ =~= sm.rooms@);
                let out = error_out(msg.client_uuid, e);
                assert(join_answered(sm.rooms@, self.rooms@, room_uuid, msg.client_uuid, msg.client_name@, out@));
                return out;
            },
        }
        proof { lemma_kept_wf(sm, *self); }
        let lobby_state = LobbyState::from_game(&self.rooms[k].game);
        let mut out: Vec<Outgoing> = Vec::new();
        self.broadcast_to_room(&room_uuid, ServerMessage::LobbyState(lobby_state), &mut out);
        proof {
            let i = choose|i: int| 0 <= i < self.rooms@.len() && (#[trigger] self.rooms@[i]).uuid == room_uuid
                && (out@.last() matches Outgoing::Send { to, message: m }
                    && to@ == self.rooms@[i].game.players@.map_values(|p: Player| p.uuid));
            if i != k {
                if i < k {
                    assert(self.rooms@[i].uuid != self.rooms@[k as int].uuid);
                } else {
                    assert(self.rooms@[k as int].uuid != self.rooms@[i].uuid);
                }
            }
            assert(self.rooms@[k as int].game.players@.drop_last() =~= sm.rooms@[k as int].game.players@);
            assert(join_answered(sm.rooms@, self.rooms@, room_uuid, msg.client_uuid, msg.client_name@, out@));
        }
        out
    }

    /// Opens a new lobby for the client (after taking it out of any room it
    /// was in) and shows it to the client.
    pub fn handle_create(&mut self, msg: Create) -> (out: Vec<Outgoing>)
        requires
            old(self).wf(),
        ensures
            final(self).wf(),
            exists|k: int| {
                &&& 0 <= k < final(self).rooms@.len()
                &&& ({
                    let g = (#[trigger] final(self).rooms@[k]).game;
                    &&& g.players@.len() == 1
                    &&& is_new_player(g.players@[0], msg.client_uuid, msg.client_name@)
                    &&& g.max_players == msg.number_of_players
                    &&& !g.started
                    &&& g.coins == crate::game::MAX_COINS
                    &&& g.deck.cards@ == crate::deck::initial_deck()
                    &&& g.turn_context is None && g.pending_influence_loss is None
                    &&& crate::game::valid_room_code(g.room_code@)
                    &&& rooms_after_create(
                        old(self).rooms@,
                        final(self).rooms@,
                        msg.client_uuid,
                        final(self).rooms@[k].uuid,
                    )
                    &&& out@.len() == 1
                    &&& out@[0] matches Outgoing::Send { to, message: ServerMessage::LobbyState(ls) }
                        && to@ == seq![msg.client_uuid] && ls.room_code@ == g.room_code@
                        && ls.max_players == msg.number_of_players
                        && ls.players.deep_view() == seq![msg.client_name@]
                        && ls.creator_uuid == msg.client_uuid
                })
            },
    {
        self.remove_from_rooms(&msg.client_uuid);
        let ghost s1 = *self;
        let room_uuid = fresh_uuid();
        proof { lemma_removed_rooms(old(self).rooms@, s1.rooms@, msg.client_uuid, room_uuid); }
        let game = Game::new(&msg.client_uuid, msg.client_name.as_str(), msg.number_of_players);
        let k = match self.room_index(room_uuid) {
            Some(k) => {
                self.rooms[k].game = game;
                proof { lemma_kept_wf(s1, *self); }
                k
            },
            None => {
                self.rooms.push(Room { uuid: room_uuid, game });
                proof {
                    assert forall|i: int, j: int| 0 <= i < j < self.rooms@.len() implies
                        (#[trigger] self.rooms@[i]).uuid != (#[trigger] self.rooms@[j]).uuid by {
                        if j < s1.rooms@.len() {
                            assert(s1.rooms@[i].uuid != s1.rooms@[j].uuid);
                        } else {
                            assert(s1.rooms@[i].uuid != room_uuid);
                        }
                    }
                }
                self.rooms.len() - 1
            },
        };
        let lobby_state = LobbyState::from_game(&self.rooms[k].game);
        proof {
            assert(self.rooms@[k as int].game.players@.map_values(|p: Player| p.name@) =~= seq![msg.client_name@]);
            assert(self.rooms@[k as int].uuid == room_uuid);
            assert forall|m: int| 0 <= m < s1.rooms@.len() && s1.rooms@[m].uuid != room_uuid implies
                #[trigger] self.rooms@[m] == s1.rooms@[m] by {
                if m == k {
                }
            }
            lemma_created_rooms(old(self).rooms@, s1.rooms@, self.rooms@, msg.client_uuid, room_uuid);
        }
        let mut to: Vec<u128> = Vec::new();
        to.push(msg.client_uuid);
        let mut out: Vec<Outgoing> = Vec::new();
        out.push(Outgoing::Send { to, message: ServerMessage::LobbyState(lobby_state) });
        out
    }
}

/// The rooms `rs1` still hold, unchanged, every room of `rs0` but the first
/// one that seats `client`; that one they hold without the client's seats,
/// when anyone is left in it. A room whose identifier was `fresh` may be
/// gone.
pub open spec fn rooms_after_create(rs0: Seq<Room>, rs1: Seq<Room>, client: u128, fresh: u128) -> bool {
    &&& forall|j: int| 0 <= j < rs0.len() && (#[trigger] rs0[j]).uuid != fresh && !is_player_room(rs0, client, j)
        ==> exists|m: int| 0 <= m < rs1.len() && #[trigger] rs1[m] == rs0[j]
    &&& forall|j: int| #[trigger] is_player_room(rs0, client, j) && rs0[j].uuid != fresh
        && crate::server::players_without(rs0[j].game.players@, client).len() > 0 ==> exists|m: int|
        0 <= m < rs1.len() && (#[trigger] rs1[m]).uuid == rs0[j].uuid && rs1[m].game.players@
        == crate::server::players_without(rs0[j].game.players@, client) && rs1[m].game == (Game {
        players: rs1[m].game.players,
        ..rs0[j].game
    })
}

/// Taking the client out of its room keeps the other rooms.
proof fn lemma_removed_rooms(rs0: Seq<Room>, rs1: Seq<Room>, client: u128, fresh: u128)
    requires
        removed_from_rooms(rs0, rs1, client),
    ensures
        rooms_after_create(rs0, rs1, client, fresh),
{
    if in_some_room(rs0, client) {
        let kp = choose|k: int| is_player_room(rs0, client, k);
        assert(is_player_room(rs0, client, kp)) by {
            let i = choose|i: int| 0 <= i < rs0.len() && crate::game::has_seat((#[trigger] rs0[i]).game.players@, client);
            lemma_first_player_room(rs0, client, i);
        }
        assert forall|j: int| #[trigger] is_player_room(rs0, client, j) implies j == kp by {
            if j < kp {
            } else if j > kp {
            }
        }
        let left = crate::server::players_without(rs0[kp].game.players@, client);
        assert forall|j: int| 0 <= j < rs0.len() && (#[trigger] rs0[j]).uuid != fresh && !is_player_room(rs0, client, j)
            implies exists|m: int| 0 <= m < rs1.len() && #[trigger] rs1[m] == rs0[j] by {
            if left.len() == 0 {
                if j < kp {
                    assert(rs1[j] == rs0[j]);
                } else {
                    assert(rs1[j - 1] == rs0[j]);
                }
            } else {
                assert(rs1[j] == rs0[j]);
            }
        }
    } else {
        assert forall|j: int| 0 <= j < rs0.len() && (#[trigger] rs0[j]).uuid != fresh && !is_player_room(rs0, client, j)
            implies exists|m: int| 0 <= m < rs1.len() && #[trigger] rs1[m] == rs0[j] by {
            assert(rs1[j] == rs0[j]);
        }
    }
}

/// A room that seats a player makes some room the first to seat it.
proof fn lemma_first_player_room(rs: Seq<Room>, client: u128, i: int)
    requires
        0 <= i < rs.len(),
        crate::game::has_seat(rs[i].game.players@, client),
    ensures
        exists|k: int| is_player_room(rs, client, k),
    decreases i,
{
    if exists|j: int| 0 <= j < i && crate::game::has_seat((#[trigger] rs[j]).game.players@, client) {
        let j = choose|j: int| 0 <= j < i && crate::game::has_seat((#[trigger] rs[j]).game.players@, client);
        lemma_first_player_room(rs, client, j);
    } else {
        assert(is_player_room(rs, client, i));
    }
}

/// Opening the new room `fresh` keeps every room whose identifier differs.
proof fn lemma_created_rooms(rs0: Seq<Room>, rs1: Seq<Room>, rs2: Seq<Room>, client: u128, fresh: u128)
    requires
        rooms_after_create(rs0, rs1, client, fresh),
        rs1.len() <= rs2.len(),
        forall|m: int| 0 <= m < rs1.len() && rs1[m].uuid != fresh ==> #[trigger] rs2[m] == rs1[m],
    ensures
        rooms_after_create(rs0, rs2, client, fresh),
{
    assert forall|j: int| 0 <= j < rs0.len() && (#[trigger] rs0[j]).uuid != fresh && !is_player_room(rs0, client, j)
        implies exists|m: int| 0 <= m < rs2.len() && #[trigger] rs2[m] == rs0[j] by {
        let m = choose|m: int| 0 <= m < rs1.len() && #[trigger] rs1[m] == rs0[j];
        assert(rs2[m] == rs1[m]);
    }
    assert forall|j: int| #[trigger] is_player_room(rs0, client, j) && rs0[j].uuid != fresh
        && crate::server::players_without(rs0[j].game.players@, client).len() > 0 implies exists|m: int|
        0 <= m < rs2.len() && (#[trigger] rs2[m]).uuid == rs0[j].uuid && rs2[m].game.players@
        == crate::server::players_without(rs0[j].game.players@, client) && rs2[m].game == (Game {
        players: rs2[m].game.players,
        ..rs0[j].game
    }) by {
        let m = choose|m: int|
            0 <= m < rs1.len() && (#[trigger] rs1[m]).uuid == rs0[j].uuid && rs1[m].game.players@
            == crate::server::players_without(rs0[j].game.players@, client) && rs1[m].game == (Game {
            players: rs1[m].game.players,
            ..rs0[j].game
        });
        assert(rs2[m] == rs1[m]);
    }
}

/// The room of the first table whose code is `code`.
pub open spec fn code_room_id(s: ChatServer, code: Seq<char>) -> u128 {
    s.rooms@[choose|k: int| crate::server::is_code_room(s.rooms@, code, k)].uuid
}

/// The table of the first room whose code is `code`.
pub open spec fn code_game(s: ChatServer, code: Seq<char>) -> Game {
    s.rooms@[choose|k: int| crate::server::is_code_room(s.rooms@, code, k)].game
}

proof fn lemma_code_room_unique(rs: Seq<Room>, code: Seq<char>, k: int)
    requires
        crate::server::is_code_room(rs, code, k),
    ensures
        (choose|k2: int| crate::server::is_code_room(rs, code, k2)) == k,
{
    let k2 = choose|k2: int| crate::server::is_code_room(rs, code, k2);
    assert(crate::server::is_code_room(rs, code, k2));
    if k2 < k {
    } else if k2 > k {
    }
}

impl ChatServer {
    /// Starts the game of the room with the given code: with two to six
    /// players the cards are dealt and everyone sees the table; otherwise the
    /// first player is told why not.
    pub fn handle_start_game(&mut self, msg: StartGame) -> (out: Vec<Outgoing>)
        requires
            old(self).wf(),
        ensures
            final(self).wf(),
            kept_rooms(*old(self), *final(self)),
            !has_code_room(old(self).rooms@, uppercase(msg.room_code@)) ==> final(self).rooms@
                == old(self).rooms@ && out@.len() == 0,
            has_code_room(old(self).rooms@, uppercase(msg.room_code@)) ==> {
                let g0 = code_game(*old(self), uppercase(msg.room_code@));
                let n = g0.players@.len();
                &&& room_request(*old(self), *final(self), out@, code_room_id(*old(self), uppercase(msg.room_code@)))
                &&& n == 0 ==> final(self).rooms@ == old(self).rooms@ && out@.len() == 0
                &&& 0 < n < MIN_PLAYERS ==> final(self).rooms@ == old(self).rooms@
                    && is_error_to(out@, g0.players@[0].uuid, "Not enough players"@)
                &&& n > MAX_PLAYERS ==> final(self).rooms@ == old(self).rooms@
                    && is_error_to(out@, g0.players@[0].uuid, "Too many players"@)
                &&& MIN_PLAYERS <= n <= MAX_PLAYERS && g0.deck.cards@.len() < 2 * n ==> out@.last() is Halt
                &&& MIN_PLAYERS <= n <= MAX_PLAYERS && g0.deck.cards@.len() >= 2 * n ==> {
                    let g1 = code_game(*final(self), uppercase(msg.room_code@));
                    &&& g1.current_player < n
                    &&& exists|sh: Seq<Card>| {
                        &&& sh.len() == g0.deck.cards@.len()
                        &&& #[trigger] sh.to_multiset() == g0.deck.cards@.to_multiset()
                        &&& g1.deck.cards@ == sh.subrange(0, sh.len() - 2 * n)
                        &&& dealt(g0.players@, g1.players@, sh)
                    }
                    &&& g1 == (Game {
                        players: g1.players,
                        deck: g1.deck,
                        current_player: g1.current_player,
                        started: true,
                        ..g0
                    })
                    &&& crate::state::viewable(g1) ==> out@.len() == n && forall|j: int| 0 <= j < n ==> table_sent_to(
                        #[trigger] out@[j],
                        g1,
                        g1.players@[j].uuid,
                    )
                }
            },
    {
        let mut out: Vec<Outgoing> = Vec::new();
        let room_uuid = match self.find_room_by_code(msg.room_code.as_str()) {
            Some(u) => u,
            None => {
                return out;
            },
        };
        let k = match self.room_index(room_uuid) {
            Some(k) => k,
            None => {
                return out;
            },
        };
        proof {
            let kk = choose|i: int| crate::server::is_code_room(self.rooms@, uppercase(msg.room_code@), i)
                && self.rooms@[i].uuid == room_uuid;
            if kk < k {
                assert(self.rooms@[kk].uuid != self.rooms@[k as int].uuid);
            } else if kk > k {
                assert(self.rooms@[k as int].uuid != self.rooms@[kk].uuid);
            }
            lemma_code_room_unique(self.rooms@, uppercase(msg.room_code@), k as int);
            lemma_room_game_at(*self, k as int, room_uuid);
            lemma_quiet_request(*self, room_uuid);
        }
        let n = self.rooms[k].game.players.len();
        if n >= MIN_PLAYERS && n <= MAX_PLAYERS && self.rooms[k].game.deck.cards.len() < 2 * n {
            out.push(Outgoing::Halt { reason: "the deck is short of cards to deal".to_owned() });
            proof { lemma_push_sent(Seq::empty(), Seq::empty(), out@.last(), *self, room_uuid); }
            return out;
        }
        let ghost s0 = *self;
        let result = match self.rooms[k].game.start_game() {
            Ok(_) => None,
            Err(e) => Some(e),
        };
        let ghost s1 = *self;
        proof {
            lemma_kept_wf(s0, s1);
            lemma_code_room_unique(self.rooms@, uppercase(msg.room_code@), k as int);
        }
        match result {
            Some(e) => {
                assert(self.rooms@ =~= s0.rooms@);
                if self.rooms[k].game.players.len() > 0 {
                    let first = self.rooms[k].game.players[0].uuid;
                    push_error(&mut out, first, e);
                    assert(is_error_to(out@, first, e@));
                    proof {
                        assert(out@ =~= Seq::<Outgoing>::empty().push(out@.last()));
                        assert(s0.rooms@[k as int].game.players@[0].uuid == first);
                        lemma_push_sent(Seq::empty(), Seq::empty(), out@.last(), s0, room_uuid);
                    }
                }
                proof {
                    lemma_played_refl(s0, room_uuid);
                    assert(s1.rooms@ == s0.rooms@);
                }
                return out;
            },
            None => {},
        }
        proof {
            let g0 = s0.rooms@[k as int].game;
            let g1 = s1.rooms@[k as int].game;
            assert forall|j: int| 0 <= j < g0.players@.len() implies (#[trigger] g1.players@[j]).uuid
                == g0.players@[j].uuid && g1.players@[j].name@ == g0.players@[j].name@ by {
                let sh = choose|sh: Seq<Card>| {
                    &&& sh.len() == g0.deck.cards@.len()
                    &&& #[trigger] sh.to_multiset() == g0.deck.cards@.to_multiset()
                    &&& g1.deck.cards@ == sh.subrange(0, sh.len() - 2 * g0.players@.len())
                    &&& dealt(g0.players@, g1.players@, sh)
                };
                assert(g1.players@[j] == (Player { cards: g1.players@[j].cards, ..g0.players@[j] }));
            }
            lemma_played_at(s0, s1, k as int, room_uuid);
            lemma_played_room_game(s0, s1, room_uuid);
        }
        let _ = self.broadcast_game_state(&room_uuid, &mut out);
        proof {
            lemma_played_refl(s1, room_uuid);
            lemma_request_after(s0, s1, s1, out@, room_uuid);
            lemma_room_game_at(s1, k as int, room_uuid);
            assert forall|j: int| 0 <= j < out@.len() implies #[trigger] out@[j] == out@[0 + j] by {}
        }
        out
    }

    /// A player declares an action. A declaration the rules refuse is
    /// answered with the reason and changes nothing; an accepted one is
    /// carried out, or opens the phase that waits for challenges or blocks.
    pub fn handle_action(&mut self, msg: Action) -> (out: Vec<Outgoing>)
        requires
            old(self).wf(),
        ensures
            final(self).wf(),
            kept_rooms(*old(self), *final(self)),
            !in_some_room(old(self).rooms@, msg.client_uuid) ==> is_error_to(
                out@,
                msg.client_uuid,
                "You are not in a game"@,
            ) && final(self).rooms@ == old(self).rooms@,
            in_some_room(old(self).rooms@, msg.client_uuid) ==> {
                let g0 = player_game(*old(self), msg.client_uuid);
                let check = process_check(
                    g0,
                    msg.client_uuid,
                    msg.action@,
                    string_view(msg.target_name),
                    selected_of(msg.selected_card1, msg.selected_card2),
                );
                let indexable = g0.pending_influence_loss is Some || g0.turn_context is Some
                    || g0.current_player < g0.players@.len();
                &&& room_request(*old(self), *final(self), out@, player_room_id(*old(self), msg.client_uuid))
                &&& !indexable ==> out@.len() == 1 && out@[0] is Halt
                &&& indexable && check is Some ==> is_error_to(out@, msg.client_uuid, check->Some_0)
                    && final(self).rooms@ == old(self).rooms@
                &&& indexable && check is None && !process_fits(
                    g0,
                    msg.client_uuid,
                    msg.action@,
                    string_view(msg.target_name),
                    selected_of(msg.selected_card1, msg.selected_card2),
                ) ==> out@.len() == 1 && out@[0] is Halt
                &&& indexable && check is None && process_fits(
                    g0,
                    msg.client_uuid,
                    msg.action@,
                    string_view(msg.target_name),
                    selected_of(msg.selected_card1, msg.selected_card2),
                ) ==> exists|g1: Game, r: Result<ActionOutcome, String>| #[trigger] process_post(
                    g0,
                    g1,
                    msg.client_uuid,
                    msg.action@,
                    string_view(msg.target_name),
                    selected_of(msg.selected_card1, msg.selected_card2),
                    r,
                ) && declared_then(
                    g1,
                    r,
                    room_game(*final(self), player_room_id(*old(self), msg.client_uuid)),
                    out@,
                    player_room_id(*old(self), msg.client_uuid),
                )
            },
    {
        let k = match player_room(self, msg.client_uuid) {
            Some(k) => k,
            None => {
                return error_out(msg.client_uuid, "You are not in a game");
            },
        };
        let room_uuid = self.rooms[k].uuid;
        proof {
            lemma_room_game_at(*self, k as int, room_uuid);
            lemma_quiet_request(*self, room_uuid);
        }
        let selected = selected_cards(&msg.selected_card1, &msg.selected_card2);
        let target = opt_str(&msg.target_name);
        let mut out: Vec<Outgoing> = Vec::new();
        {
            let game = &self.rooms[k].game;
            if game.pending_influence_loss.is_none() && game.turn_context.is_none()
                && game.current_player >= game.players.len() {
                out.push(Outgoing::Halt { reason: "the table has no current seat".to_owned() });
                proof { lemma_push_sent(Seq::empty(), Seq::empty(), out@.last(), *self, room_uuid); }
                return out;
            }
            let check = check_action(game, &msg.client_uuid, msg.action.as_str(), target, &selected);
            if check.is_none() && !action_fits(game, &msg.client_uuid, msg.action.as_str(), target, &selected) {
                out.push(Outgoing::Halt { reason: "a coin count overflows or the deck overflows".to_owned() });
                proof { lemma_push_sent(Seq::empty(), Seq::empty(), out@.last(), *self, room_uuid); }
                return out;
            }
        }
        let ghost s0 = *self;
        let result = process_action(&mut self.rooms[k].game, &msg.client_uuid, msg.action.as_str(), target, selected);
        let ghost s1 = *self;
        proof {
            crate::phases::lemma_process_same_table(
                s0.rooms@[k as int].game,
                s1.rooms@[k as int].game,
                msg.client_uuid,
                msg.action@,
                opt_view(target),
                selected@,
                result,
            );
            lemma_played_at(s0, s1, k as int, room_uuid);
            lemma_played_room_game(s0, s1, room_uuid);
            lemma_room_game_at(s1, k as int, room_uuid);
        }
        proof {
            assert(process_post(
                s0.rooms@[k as int].game,
                s1.rooms@[k as int].game,
                msg.client_uuid,
                msg.action@,
                opt_view(target),
                selected@,
                result,
            ));
        }
        match result {
            Ok(ActionOutcome::TurnComplete) => {
                let _ = self.finish_turn(&room_uuid, &mut out);
                proof { lemma_request_after(s0, s1, *self, out@, room_uuid); }
            },
            Ok(ActionOutcome::WaitingForInfluenceChoice(target_uuid)) => {
                if self.broadcast_game_state(&room_uuid, &mut out) {
                    let ghost o1 = out@;
                    lose_choice(self, k, target_uuid, &mut out);
                    proof {
                        lemma_sent_trans(Seq::empty(), o1, out@, s1, s1, room_uuid);
                        crate::phases::lemma_no_timers_after(o1, out@, 0);
                        let g1 = s1.rooms@[k as int].game;
                        if out@.len() > o1.len() {
                            assert(out@.drop_last() == o1);
                            assert(out@.subrange(0, o1.len() as int) =~= o1);
                        } else {
                            assert(out@.subrange(0, o1.len() as int) =~= o1);
                        }
                        crate::phases::lemma_tables_kept(o1, out@, 0, g1);
                        assert(choice_asked(g1, target_uuid, Seq::empty(), out@));
                    }
                }
                proof {
                    lemma_played_refl(s1, room_uuid);
                    lemma_request_after(s0, s1, s1, out@, room_uuid);
                }
            },
            Ok(ActionOutcome::WaitingForExchange) => {
                let _ = self.broadcast_game_state(&room_uuid, &mut out);
                proof {
                    lemma_played_refl(s1, room_uuid);
                    lemma_request_after(s0, s1, s1, out@, room_uuid);
                }
            },
            Ok(ActionOutcome::PhaseStarted) => {
                let _ = self.start_current_phase(&room_uuid, &mut out);
                proof { lemma_request_after(s0, s1, *self, out@, room_uuid); }
            },
            Err(e) => {
                push_error(&mut out, msg.client_uuid, e.as_str());
                proof {
                    assert(out@ =~= Seq::<Outgoing>::empty().push(out@.last()));
                    lemma_push_sent(Seq::empty(), Seq::empty(), out@.last(), s0, room_uuid);
                    if process_check(s0.rooms@[k as int].game, msg.client_uuid, msg.action@, opt_view(target), selected@) is Some {
                        assert(self.rooms@ =~= s0.rooms@);
                        assert(out@.len() == 1);
                    }
                }
            },
        }
        out
    }

    /// The player asked to lose influence names the role to give up; the
    /// turn then goes on as the pending step says (or simply ends).
    pub fn handle_lose_influence(&mut self, msg: LoseInfluence) -> (out: Vec<Outgoing>)
        requires
            old(self).wf(),
        ensures
            final(self).wf(),
            kept_rooms(*old(self), *final(self)),
            !in_some_room(old(self).rooms@, msg.client_uuid) ==> is_error_to(
                out@,
                msg.client_uuid,
                "You are not in a game"@,
            ) && final(self).rooms@ == old(self).rooms@,
            in_some_room(old(self).rooms@, msg.client_uuid) ==> {
                let g0 = player_game(*old(self), msg.client_uuid);
                let ps = g0.players@;
                let seat = seat_of(ps, msg.client_uuid);
                let h = count_hidden(ps[seat].cards@);
                let named = has_hidden_named(ps[seat].cards@, msg.card_role@);
                &&& room_request(*old(self), *final(self), out@, player_room_id(*old(self), msg.client_uuid))
                &&& g0.pending_influence_loss != Some(msg.client_uuid) ==> is_error_to(
                    out@,
                    msg.client_uuid,
                    "You are not the player who needs to lose influence"@,
                ) && final(self).rooms@ == old(self).rooms@
                &&& g0.pending_influence_loss == Some(msg.client_uuid) && h == 0 ==> is_error_to(
                    out@,
                    msg.client_uuid,
                    "Cannot lose influence"@,
                )
                &&& g0.pending_influence_loss == Some(msg.client_uuid) && h == 2 && !named ==> is_error_to(
                    out@,
                    msg.client_uuid,
                    "You don't have that card"@,
                )
                &&& g0.pending_influence_loss == Some(msg.client_uuid) && h > 2 ==> is_error_to(
                    out@,
                    msg.client_uuid,
                    "Invalid number of cards"@,
                )
                &&& g0.pending_influence_loss == Some(msg.client_uuid) && (h == 1 || h == 2 && named) ==> exists|
                    g1: Game,
                | {
                    &&& g1.players@ == ps.update(seat, g1.players@[seat])
                    &&& influence_chosen(ps[seat], g1.players@[seat], msg.card_role@)
                    &&& g1 == (Game { players: g1.players, ..g0 })
                    &&& #[trigger] choice_then(
                        g1,
                        room_game(*final(self), player_room_id(*old(self), msg.client_uuid)),
                        out@,
                        player_room_id(*old(self), msg.client_uuid),
                    )
                }
            },
    {
        let k = match player_room(self, msg.client_uuid) {
            Some(k) => k,
            None => {
                return error_out(msg.client_uuid, "You are not in a game");
            },
        };
        let room_uuid = self.rooms[k].uuid;
        proof { lemma_room_game_at(*self, k as int, room_uuid); }
        if self.rooms[k].game.pending_influence_loss != Some(msg.client_uuid) {
            return error_in_room(self, k, msg.client_uuid, "You are not the player who needs to lose influence");
        }
        let seat = match find_seat(&self.rooms[k].game.players, msg.client_uuid) {
            Some(i) => i,
            None => {
                return error_in_room(self, k, msg.client_uuid, "Player not found");
            },
        };
        let ghost s0 = *self;
        let role_str = msg.card_role.as_str();
        let res = self.rooms[k].game.players[seat].lose_influence(Some(role_str));
        let ghost s1 = *self;
        match res {
            Err(e) => {
                proof {
                    assert(s1.rooms@[k as int].game.players@ =~= s0.rooms@[k as int].game.players@);
                    lemma_played_at(s0, s1, k as int, room_uuid);
                    lemma_played_room_game(s0, s1, room_uuid);
                    lemma_played_refl(s1, room_uuid);
                }
                let out = error_in_room(self, k, msg.client_uuid, e);
                proof {
                    lemma_request_after(s0, s1, s1, out@, room_uuid);
                    assert(role_str@ == msg.card_role@);
                }
                return out;
            },
            Ok(_) => {},
        }
        proof {
            lemma_seat_update(s0.rooms@[k as int].game, s1.rooms@[k as int].game, seat as int);
            lemma_played_at(s0, s1, k as int, room_uuid);
            lemma_played_room_game(s0, s1, room_uuid);
        }
        self.rooms[k].game.pending_influence_loss = None;
        let after = match &mut self.rooms[k].game.turn_context {
            Some(tc) => {
                let a = tc.after_influence_loss;
                tc.after_influence_loss = None;
                a
            },
            None => None,
        };
        let ghost s2 = *self;
        proof {
            lemma_played_at(s1, s2, k as int, room_uuid);
            lemma_played_trans(s0, s1, s2, room_uuid);
            lemma_played_room_game(s0, s2, room_uuid);
            lemma_room_game_at(s2, k as int, room_uuid);
        }
        let mut out: Vec<Outgoing> = Vec::new();
        match after {
            Some(after) => {
                let _ = self.after_influence_lost(&room_uuid, after, &mut out);
            },
            None => {
                let _ = self.finish_turn(&room_uuid, &mut out);
            },
        }
        proof {
            lemma_request_after(s0, s2, *self, out@, room_uuid);
            let g0 = s0.rooms@[k as int].game;
            let g1 = s1.rooms@[k as int].game;
            let p0 = g0.players@[seat as int];
            let p1 = g1.players@[seat as int];
            assert(g1.players@ =~= g0.players@.update(seat as int, p1));
            if count_hidden(p0.cards@) == 1 {
                assert(p1 == (Player { cards: p1.cards, is_alive: false, ..p0 }));
            } else {
                assert(p1 == (Player { cards: p1.cards, ..p0 }));
            }
            assert(choice_then(g1, room_game(*self, room_uuid), out@, room_uuid));
        }
        out
    }

    /// A player challenges the claim the current phase waits on.
    pub fn handle_challenge_action(&mut self, msg: ChallengeAction) -> (out: Vec<Outgoing>)
        requires
            old(self).wf(),
        ensures
            final(self).wf(),
            kept_rooms(*old(self), *final(self)),
            !in_some_room(old(self).rooms@, msg.client_uuid) ==> is_error_to(
                out@,
                msg.client_uuid,
                "You are not in a game"@,
            ) && final(self).rooms@ == old(self).rooms@,
            in_some_room(old(self).rooms@, msg.client_uuid) ==> {
                let g0 = player_game(*old(self), msg.client_uuid);
                &&& room_request(*old(self), *final(self), out@, player_room_id(*old(self), msg.client_uuid))
                &&& g0.pending_influence_loss is Some ==> is_error_to(
                    out@,
                    msg.client_uuid,
                    "Waiting for influence loss"@,
                ) && final(self).rooms@ == old(self).rooms@
                &&& g0.pending_influence_loss is None && g0.turn_context is None ==> is_error_to(
                    out@,
                    msg.client_uuid,
                    "No active phase to challenge"@,
                ) && final(self).rooms@ == old(self).rooms@
                &&& g0.pending_influence_loss is None && g0.turn_context is Some && !may_challenge(g0, msg.client_uuid)
                    ==> is_error_to(out@, msg.client_uuid, "You cannot challenge in this phase"@)
                    && final(self).rooms@ == old(self).rooms@
                &&& g0.pending_influence_loss is None && g0.turn_context is Some && may_challenge(g0, msg.client_uuid)
                    ==> if g0.turn_context->Some_0.phase == TurnPhase::AwaitingChallengeResponses {
                    challenge_resolved(
                        g0,
                        room_game(*final(self), player_room_id(*old(self), msg.client_uuid)),
                        msg.client_uuid,
                        Seq::empty(),
                        out@,
                        player_room_id(*old(self), msg.client_uuid),
                    )
                } else {
                    block_challenge_resolved(
                        g0,
                        room_game(*final(self), player_room_id(*old(self), msg.client_uuid)),
                        msg.client_uuid,
                        Seq::empty(),
                        out@,
                        player_room_id(*old(self), msg.client_uuid),
                    )
                }
            },
    {
        let k = match player_room(self, msg.client_uuid) {
            Some(k) => k,
            None => {
                return error_out(msg.client_uuid, "You are not in a game");
            },
        };
        let room_uuid = self.rooms[k].uuid;
        proof { lemma_room_game_at(*self, k as int, room_uuid); }
        let phase = {
            let game = &self.rooms[k].game;
            if game.pending_influence_loss.is_some() {
                return error_in_room(self, k, msg.client_uuid, "Waiting for influence loss");
            }
            let turn_ctx = match &game.turn_context {
                Some(c) => c,
                None => {
                    return error_in_room(self, k, msg.client_uuid, "No active phase to challenge");
                },
            };
            let seat = find_seat(&game.players, msg.client_uuid);
            let is_eligible = match turn_ctx.phase {
                TurnPhase::AwaitingChallengeResponses => match seat {
                    Some(i) => game.players[i].is_alive && game.players[i].uuid != turn_ctx.actor_uuid,
                    None => false,
                },
                TurnPhase::AwaitingBlockChallengeResponses => {
                    let blocker = match &turn_ctx.block_info {
                        Some(b) => Some(b.blocker_uuid),
                        None => None,
                    };
                    match seat {
                        Some(i) => game.players[i].is_alive && Some(game.players[i].uuid) != blocker,
                        None => false,
                    }
                },
                TurnPhase::AwaitingBlockResponses => false,
            };
            if !is_eligible {
                return error_in_room(self, k, msg.client_uuid, "You cannot challenge in this phase");
            }
            turn_ctx.phase
        };
        let ghost s0 = *self;
        let mut out: Vec<Outgoing> = Vec::new();
        proof { lemma_played_refl(s0, room_uuid); }
        match phase {
            TurnPhase::AwaitingChallengeResponses => {
                let _ = self.resolve_challenge(&room_uuid, msg.client_uuid, &mut out);
            },
            TurnPhase::AwaitingBlockChallengeResponses => {
                let _ = self.resolve_block_challenge(&room_uuid, msg.client_uuid, &mut out);
            },
            TurnPhase::AwaitingBlockResponses => {},
        }
        proof {
            if phase == TurnPhase::AwaitingBlockResponses {
                assert(out@ =~= Seq::<Outgoing>::empty());
                assert(out@.subrange(0, 0) =~= Seq::<Outgoing>::empty());
            }
            lemma_request_after(s0, s0, *self, out@, room_uuid);
        }
        out
    }

    /// A player lets the current phase pass; once everyone who may answer
    /// has done so, the phase is resolved.
    pub fn handle_allow_action(&mut self, msg: AllowAction) -> (out: Vec<Outgoing>)
        requires
            old(self).wf(),
        ensures
            final(self).wf(),
            kept_rooms(*old(self), *final(self)),
            !in_some_room(old(self).rooms@, msg.client_uuid) ==> is_error_to(
                out@,
                msg.client_uuid,
                "You are not in a game"@,
            ) && final(self).rooms@ == old(self).rooms@,
            in_some_room(old(self).rooms@, msg.client_uuid) ==> {
                let g0 = player_game(*old(self), msg.client_uuid);
                let u = player_room_id(*old(self), msg.client_uuid);
                let eligible = eligible_of(g0);
                let ctx0 = g0.turn_context->Some_0;
                &&& room_request(*old(self), *final(self), out@, u)
                &&& !eligible.contains(msg.client_uuid) ==> is_error_to(
                    out@,
                    msg.client_uuid,
                    "You cannot respond in this phase"@,
                ) && final(self).rooms@ == old(self).rooms@
                &&& eligible.contains(msg.client_uuid) && g0.pending_influence_loss is Some ==> out@.len() == 0
                    && *final(self) == *old(self)
                &&& eligible.contains(msg.client_uuid) && g0.pending_influence_loss is None && !(forall|j: int|
                    0 <= j < eligible.len() ==> ctx0.responded@.insert(msg.client_uuid).contains(
                        #[trigger] eligible[j],
                    )) ==> {
                    &&& out@.len() == 0
                    &&& recorded_answer(g0, room_game(*final(self), u), msg.client_uuid)
                }
                &&& eligible.contains(msg.client_uuid) && g0.pending_influence_loss is None && (forall|j: int|
                    0 <= j < eligible.len() ==> ctx0.responded@.insert(msg.client_uuid).contains(
                        #[trigger] eligible[j],
                    )) ==> exists|g1: Game| #[trigger] recorded_answer(g0, Some(g1), msg.client_uuid)
                    && all_allowed(g1, room_game(*final(self), u), Seq::empty(), out@, u)
            },
    {
        let k = match player_room(self, msg.client_uuid) {
            Some(k) => k,
            None => {
                return error_out(msg.client_uuid, "You are not in a game");
            },
        };
        let room_uuid = self.rooms[k].uuid;
        proof { lemma_room_game_at(*self, k as int, room_uuid); }
        let eligible = self.get_eligible_responders(&room_uuid);
        if !contains_uuid(&eligible, msg.client_uuid) {
            return error_in_room(self, k, msg.client_uuid, "You cannot respond in this phase");
        }
        let ghost s0 = *self;
        if self.rooms[k].game.pending_influence_loss.is_some() || self.rooms[k].game.turn_context.is_none() {
            proof { lemma_quiet_request(s0, room_uuid); }
            return Vec::new();
        }
        let all_responded = match &mut self.rooms[k].game.turn_context {
            Some(turn_ctx) => {
                turn_ctx.responded.insert(msg.client_uuid);
                all_in(&eligible, &turn_ctx.responded)
            },
            None => false,
        };
        let ghost s1 = *self;
        proof {
            lemma_played_at(s0, s1, k as int, room_uuid);
            lemma_played_room_game(s0, s1, room_uuid);
            lemma_room_game_at(s1, k as int, room_uuid);
        }
        let mut out: Vec<Outgoing> = Vec::new();
        if all_responded {
            let _ = self.on_all_allowed(&room_uuid, &mut out);
            proof {
                lemma_request_after(s0, s1, *self, out@, room_uuid);
                assert(recorded_answer(s0.rooms@[k as int].game, Some(s1.rooms@[k as int].game), msg.client_uuid));
            }
        } else {
            proof {
                lemma_played_refl(s1, room_uuid);
                assert(out@ =~= Seq::<Outgoing>::empty());
                assert(out@.subrange(0, 0) =~= Seq::<Outgoing>::empty());
                lemma_request_after(s0, s1, s1, out@, room_uuid);
            }
        }
        out
    }

    /// A player blocks the action of the current phase, claiming a role that
    /// may block it; the block then waits for challenges.
    pub fn handle_block_action(&mut self, msg: BlockAction) -> (out: Vec<Outgoing>)
        requires
            old(self).wf(),
        ensures
            final(self).wf(),
            kept_rooms(*old(self), *final(self)),
            !in_some_room(old(self).rooms@, msg.client_uuid) ==> is_error_to(
                out@,
                msg.client_uuid,
                "You are not in a game"@,
            ) && final(self).rooms@ == old(self).rooms@,
            in_some_room(old(self).rooms@, msg.client_uuid) ==> {
                let g0 = player_game(*old(self), msg.client_uuid);
                let ctx = g0.turn_context->Some_0;
                let role = role_of_name(msg.claimed_role@);
                &&& room_request(*old(self), *final(self), out@, player_room_id(*old(self), msg.client_uuid))
                &&& role is None ==> is_error_to(out@, msg.client_uuid, "Invalid role"@)
                    && final(self).rooms@ == old(self).rooms@
                &&& role is Some && g0.pending_influence_loss is Some ==> is_error_to(
                    out@,
                    msg.client_uuid,
                    "Waiting for influence loss"@,
                ) && final(self).rooms@ == old(self).rooms@
                &&& role is Some && g0.pending_influence_loss is None && g0.turn_context is None ==> is_error_to(
                    out@,
                    msg.client_uuid,
                    "No active phase"@,
                ) && final(self).rooms@ == old(self).rooms@
                &&& role is Some && g0.pending_influence_loss is None && g0.turn_context is Some
                    && ctx.phase != TurnPhase::AwaitingBlockResponses ==> is_error_to(
                    out@,
                    msg.client_uuid,
                    "Cannot block in this phase"@,
                ) && final(self).rooms@ == old(self).rooms@
                &&& role is Some && g0.pending_influence_loss is None && g0.turn_context is Some
                    && ctx.phase == TurnPhase::AwaitingBlockResponses && action_rules(ctx.action@) is Some
                    && !action_rules(ctx.action@)->Some_0.blockable_by.contains(role->Some_0) ==> is_error_to(
                    out@,
                    msg.client_uuid,
                    "That role cannot block this action"@,
                ) && final(self).rooms@ == old(self).rooms@
                &&& role is Some && g0.pending_influence_loss is None && g0.turn_context is Some
                    && ctx.phase == TurnPhase::AwaitingBlockResponses && action_rules(ctx.action@) is Some
                    && action_rules(ctx.action@)->Some_0.blockable_by.contains(role->Some_0)
                    && !may_block(g0, msg.client_uuid) ==> is_error_to(
                    out@,
                    msg.client_uuid,
                    "You cannot block this action"@,
                ) && final(self).rooms@ == old(self).rooms@
                &&& role is Some && g0.pending_influence_loss is None && g0.turn_context is Some
                    && ctx.phase == TurnPhase::AwaitingBlockResponses && action_rules(ctx.action@) is Some
                    && action_rules(ctx.action@)->Some_0.blockable_by.contains(role->Some_0)
                    && may_block(g0, msg.client_uuid) ==> exists|gb: Game| #[trigger] block_recorded(
                    g0,
                    gb,
                    msg.client_uuid,
                    role->Some_0,
                ) && (ctx.timer_generation < u64::MAX && eligible_of(gb).len() > 0
                    ==> opened_phase(gb, room_game(*final(self), player_room_id(*old(self), msg.client_uuid)))
                    && phase_announced(gb, Seq::empty(), out@, player_room_id(*old(self), msg.client_uuid))) && (
                ctx.timer_generation < u64::MAX && eligible_of(gb).len() == 0 ==> exists|gm: Game| #[trigger] opened_phase(
                    gb,
                    Some(gm),
                ) && all_allowed(
                    gm,
                    room_game(*final(self), player_room_id(*old(self), msg.client_uuid)),
                    Seq::empty(),
                    out@,
                    player_room_id(*old(self), msg.client_uuid),
                ))
            },
    {
        let k = match player_room(self, msg.client_uuid) {
            Some(k) => k,
            None => {
                return error_out(msg.client_uuid, "You are not in a game");
            },
        };
        let room_uuid = self.rooms[k].uuid;
        proof { lemma_room_game_at(*self, k as int, room_uuid); }
        let claimed_role = match parse_role(msg.claimed_role.as_str()) {
            Some(r) => r,
            None => {
                return error_in_room(self, k, msg.client_uuid, "Invalid role");
            },
        };
        let blocker_name = {
            let game = &self.rooms[k].game;
            if game.pending_influence_loss.is_some() {
                return error_in_room(self, k, msg.client_uuid, "Waiting for influence loss");
            }
            let turn_ctx = match &game.turn_context {
                Some(c) => c,
                None => {
                    return error_in_room(self, k, msg.client_uuid, "No active phase");
                },
            };
            if turn_ctx.phase != TurnPhase::AwaitingBlockResponses {
                return error_in_room(self, k, msg.client_uuid, "Cannot block in this phase");
            }
            let props = match get_action_properties(turn_ctx.action.as_str()) {
                Some(p) => p,
                None => {
                    proof { lemma_quiet_request(*self, room_uuid); }
                    return Vec::new();
                },
            };
            if !contains_role(&props.blockable_by, claimed_role) {
                return error_in_room(self, k, msg.client_uuid, "That role cannot block this action");
            }
            let eligible = if props.block_target_only {
                turn_ctx.target_uuid == Some(msg.client_uuid)
            } else {
                msg.client_uuid != turn_ctx.actor_uuid
            };
            let seat = find_seat(&game.players, msg.client_uuid);
            let is_alive = match seat {
                Some(i) => game.players[i].is_alive,
                None => false,
            };
            if !(eligible && is_alive) {
                return error_in_room(self, k, msg.client_uuid, "You cannot block this action");
            }
            match seat {
                Some(i) => game.players[i].name.clone(),
                None => String::new(),
            }
        };
        let ghost s0 = *self;
        match &mut self.rooms[k].game.turn_context {
            Some(turn_ctx) => {
                turn_ctx.block_info = Some(BlockInfo { blocker_uuid: msg.client_uuid, blocker_name, claimed_role });
                turn_ctx.phase = TurnPhase::AwaitingBlockChallengeResponses;
            },
            None => {},
        }
        let ghost s1 = *self;
        proof {
            lemma_played_at(s0, s1, k as int, room_uuid);
            lemma_played_room_game(s0, s1, room_uuid);
            lemma_room_game_at(s1, k as int, room_uuid);
        }
        let mut out: Vec<Outgoing> = Vec::new();
        let _ = self.start_current_phase(&room_uuid, &mut out);
        proof {
            lemma_request_after(s0, s1, *self, out@, room_uuid);
            assert(block_recorded(s0.rooms@[k as int].game, s1.rooms@[k as int].game, msg.client_uuid, claimed_role));
        }
        out
    }
}

fn contains_uuid(v: &Vec<u128>, u: u128) -> (r: bool)
    ensures
        r == v@.contains(u),
{
    let mut i: usize = 0;
    while i < v.len()
        invariant
            i <= v@.len(),
            forall|j: int| 0 <= j < i ==> v@[j] != u,
        decreases v@.len() - i,
    {
        if v[i] == u {
            return true;
        }
        i = i + 1;
    }
    false
}

fn contains_role(v: &Vec<Role>, r: Role) -> (b: bool)
    ensures
        b == v@.contains(r),
{
    let mut i: usize = 0;
    while i < v.len()
        invariant
            i <= v@.len(),
            forall|j: int| 0 <= j < i ==> v@[j] != r,
        decreases v@.len() - i,
    {
        if v[i] == r {
            return true;
        }
        i = i + 1;
    }
    false
}

fn all_in(v: &Vec<u128>, set: &std::collections::HashSet<u128>) -> (r: bool)
    ensures
        r == (forall|j: int| 0 <= j < v@.len() ==> set@.contains(#[trigger] v@[j])),
{
    broadcast use vstd::std_specs::hash::group_hash_axioms;
    let mut i: usize = 0;
    while i < v.len()
        invariant
            i <= v@.len(),
            forall|j: int| 0 <= j < i ==> set@.contains(#[trigger] v@[j]),
        decreases v@.len() - i,
    {
        if !set.contains(&v[i]) {
            return false;
        }
        i = i + 1;
    }
    true
}

} // verus!
