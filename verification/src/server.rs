use vstd::prelude::*;
use crate::game::{Game, find_seat};
use crate::player::Player;
use crate::state::ServerMessage;
use crate::turn_phase::TurnPhase;

verus! {

/// How long players have to answer a prompt, in seconds.
pub const PHASE_DEADLINE_SECS: u64 = 10;

/// A client left.
pub struct Disconnect {
    pub uuid: u128,
}

/// A text to show to everyone in a room.
pub struct ClientMessage {
    pub room_uuid: u128,
    pub msg: String,
}

/// A client asks to join the lobby with the given room code.
pub struct Join {
    pub room_code: String,
    pub client_uuid: u128,
    pub client_name: String,
}

/// A client opens a new lobby for the given number of players.
pub struct Create {
    pub number_of_players: usize,
    pub client_uuid: u128,
    pub client_name: String,
}

/// Someone starts the game of the room with the given code.
pub struct StartGame {
    pub room_code: String,
}

/// A client declares an action (or confirms an exchange with the selected cards).
pub struct Action {
    pub client_uuid: u128,
    pub action: String,
    pub target_name: Option<String>,
    pub selected_card1: Option<String>,
    pub selected_card2: Option<String>,
}

/// A client names the role it gives up.
pub struct LoseInfluence {
    pub client_uuid: u128,
    pub card_role: String,
}

/// A client challenges the claim of the current phase.
pub struct ChallengeAction {
    pub client_uuid: u128,
}

/// A client lets the action (or block) of the current phase pass.
pub struct AllowAction {
    pub client_uuid: u128,
}

/// A client blocks the action of the current phase, claiming a role.
pub struct BlockAction {
    pub client_uuid: u128,
    pub claimed_role: String,
}

/// What the server asks its environment to do after a request.
pub enum Outgoing {
    /// Send the message to each of these players that is connected.
    Send { to: Vec<u128>, message: ServerMessage },
    /// Call [`ChatServer::handle_phase_timeout`] with these values once
    /// [`PHASE_DEADLINE_SECS`] have passed.
    ScheduleTimeout { room_uuid: u128, generation: u64 },
    /// The request reached a state the server cannot go on from; the process
    /// stops with this reason.
    Halt { reason: String },
}

/// A room: its identifier and its table.
pub struct Room {
    pub uuid: u128,
    pub game: Game,
}

/// The rooms the server hosts.
pub struct ChatServer {
    pub rooms: Vec<Room>,
}

/// No two rooms share an identifier.
pub open spec fn distinct_rooms(rs: Seq<Room>) -> bool {
    forall|i: int, j: int| 0 <= i < j < rs.len() ==> (#[trigger] rs[i]).uuid != (#[trigger] rs[j]).uuid
}

/// The same rooms, in the same order (their tables may differ).
pub open spec fn same_room_ids(a: Seq<Room>, b: Seq<Room>) -> bool {
    &&& a.len() == b.len()
    &&& forall|i: int| 0 <= i < a.len() ==> (#[trigger] b[i]).uuid == a[i].uuid
}

/// Some room has identifier `u`.
pub open spec fn has_room(rs: Seq<Room>, u: u128) -> bool {
    exists|i: int| 0 <= i < rs.len() && (#[trigger] rs[i]).uuid == u
}

/// The position of a room with identifier `u` (meaningful when there is one).
pub open spec fn room_pos(rs: Seq<Room>, u: u128) -> int {
    choose|i: int| 0 <= i < rs.len() && (#[trigger] rs[i]).uuid == u
}

/// The room of `u`, if there is one.
pub open spec fn room_game(s: ChatServer, u: u128) -> Option<Game> {
    if has_room(s.rooms@, u) {
        Some(s.rooms@[room_pos(s.rooms@, u)].game)
    } else {
        None
    }
}

/// The rank of the phase a room's turn waits in; each step of the phase
/// machinery that does not wait for players lowers it.
pub open spec fn phase_rank(s: ChatServer, u: u128) -> int {
    match room_game(s, u) {
        Some(g) => match g.turn_context {
            Some(ctx) => match ctx.phase {
                TurnPhase::AwaitingChallengeResponses => 2,
                TurnPhase::AwaitingBlockResponses => 1,
                TurnPhase::AwaitingBlockChallengeResponses => 0,
            },
            None => 0,
        },
        None => 0,
    }
}

/// The message is a single error for `to`.
pub open spec fn is_error_to(out: Seq<Outgoing>, to: u128, msg: Seq<char>) -> bool {
    &&& out.len() == 1
    &&& out[0] matches Outgoing::Send { to: t, message: ServerMessage::Error { message } }
        && t@ == seq![to] && message@ == msg
}

/// The first room (in hosting order) that seats the player.
pub open spec fn is_player_room(rs: Seq<Room>, player: u128, i: int) -> bool {
    &&& 0 <= i < rs.len()
    &&& crate::game::has_seat(rs[i].game.players@, player)
    &&& forall|j: int| 0 <= j < i ==> !crate::game::has_seat((#[trigger] rs[j]).game.players@, player)
}

/// Some room seats the player.
pub open spec fn in_some_room(rs: Seq<Room>, player: u128) -> bool {
    exists|i: int| 0 <= i < rs.len() && crate::game::has_seat((#[trigger] rs[i]).game.players@, player)
}

/// The room of the first table that seats the player.
pub fn player_to_game(player_uuid: &u128, server: &ChatServer) -> (r: Option<u128>)
    ensures
        match r {
            Some(u) => exists|i: int| is_player_room(server.rooms@, *player_uuid, i) && server.rooms@[i].uuid == u,
            None => !in_some_room(server.rooms@, *player_uuid),
        },
{
    let mut i: usize = 0;
    while i < server.rooms.len()
        invariant
            i <= server.rooms@.len(),
            forall|j: int| 0 <= j < i ==> !crate::game::has_seat((#[trigger] server.rooms@[j]).game.players@, *player_uuid),
        decreases server.rooms@.len() - i,
    {
        if find_seat(&server.rooms[i].game.players, *player_uuid).is_some() {
            assert(is_player_room(server.rooms@, *player_uuid, i as int));
            return Some(server.rooms[i].uuid);
        }
        i = i + 1;
    }
    None
}

/// The text in upper case, as `str::to_uppercase` computes it.
pub uninterp spec fn uppercase(s: Seq<char>) -> Seq<char>;

/// `str::to_uppercase` of std. Unicode case mapping takes tables to state, so
/// the result is named by [`uppercase`] of the argument and nothing more is
/// claimed.
#[verifier::external_body]
fn to_uppercase(s: &str) -> (r: String)
    ensures
        r@ == uppercase(s@),
{
    s.to_uppercase()
}

/// The first room (in hosting order) whose code is `code`.
pub open spec fn is_code_room(rs: Seq<Room>, code: Seq<char>, i: int) -> bool {
    &&& 0 <= i < rs.len()
    &&& rs[i].game.room_code@ == code
    &&& forall|j: int| 0 <= j < i ==> (#[trigger] rs[j]).game.room_code@ != code
}

/// Some room has code `code`.
pub open spec fn has_code_room(rs: Seq<Room>, code: Seq<char>) -> bool {
    exists|i: int| 0 <= i < rs.len() && (#[trigger] rs[i]).game.room_code@ == code
}

/// Rooms `rs1` are rooms `rs0` with player `u` taken out of the first room
/// that seats it, and that room closed when it is left empty.
pub open spec fn removed_from_rooms(rs0: Seq<Room>, rs1: Seq<Room>, u: u128) -> bool {
    &&& !in_some_room(rs0, u) ==> rs1 == rs0
    &&& forall|k: int| #[trigger] is_player_room(rs0, u, k) ==> {
        let g0 = rs0[k].game;
        let left = players_without(g0.players@, u);
        if left.len() == 0 {
            rs1 == rs0.remove(k)
        } else {
            &&& rs1.len() == rs0.len()
            &&& rs1[k].uuid == rs0[k].uuid
            &&& rs1[k].game.players@ == left
            &&& rs1[k].game == (Game { players: rs1[k].game.players, ..g0 })
            &&& forall|j: int| 0 <= j < rs0.len() && j != k ==> #[trigger] rs1[j] == rs0[j]
        }
    }
}

impl ChatServer {
    /// The rooms have distinct identifiers.
    pub open spec fn wf(&self) -> bool {
        distinct_rooms(self.rooms@)
    }

    pub fn new() -> (s: Self)
        ensures
            s.rooms@.len() == 0,
            s.wf(),
    {
        ChatServer { rooms: Vec::new() }
    }

    /// The position of a room.
    pub fn room_index(&self, u: u128) -> (r: Option<usize>)
        ensures
            match r {
                Some(i) => i < self.rooms@.len() && self.rooms@[i as int].uuid == u && has_room(self.rooms@, u)
                    && (self.wf() ==> room_pos(self.rooms@, u) == i),
                None => !has_room(self.rooms@, u),
            },
    {
        let mut i: usize = 0;
        while i < self.rooms.len()
            invariant
                i <= self.rooms@.len(),
                forall|j: int| 0 <= j < i ==> (#[trigger] self.rooms@[j]).uuid != u,
            decreases self.rooms@.len() - i,
        {
            if self.rooms[i].uuid == u {
                proof {
                    if self.wf() {
                        let k = room_pos(self.rooms@, u);
                        assert(self.rooms@[k].uuid == u);
                        if k != i {
                            if k < i {
                                assert(self.rooms@[k].uuid != self.rooms@[i as int].uuid);
                            } else {
                                assert(self.rooms@[i as int].uuid != self.rooms@[k].uuid);
                            }
                        }
                    }
                }
                return Some(i);
            }
            i = i + 1;
        }
        None
    }

    /// The first room whose code is exactly `code`.
    pub fn find_room_with_code(&self, code: &str) -> (r: Option<u128>)
        ensures
            match r {
                Some(u) => exists|i: int| is_code_room(self.rooms@, code@, i) && self.rooms@[i].uuid == u,
                None => !has_code_room(self.rooms@, code@),
            },
    {
        let mut i: usize = 0;
        while i < self.rooms.len()
            invariant
                i <= self.rooms@.len(),
                forall|j: int| 0 <= j < i ==> (#[trigger] self.rooms@[j]).game.room_code@ != code@,
            decreases self.rooms@.len() - i,
        {
            if crate::card::str_eq(self.rooms[i].game.room_code.as_str(), code) {
                assert(is_code_room(self.rooms@, code@, i as int));
                return Some(self.rooms[i].uuid);
            }
            i = i + 1;
        }
        None
    }

    /// Finds a room by its short code, whatever the case of the letters.
    pub fn find_room_by_code(&self, code: &str) -> (r: Option<u128>)
        ensures
            match r {
                Some(u) => exists|i: int| is_code_room(self.rooms@, uppercase(code@), i) && self.rooms@[i].uuid == u,
                None => !has_code_room(self.rooms@, uppercase(code@)),
            },
    {
        let code_upper = to_uppercase(code);
        self.find_room_with_code(code_upper.as_str())
    }

    /// Takes a player out of the first room that seats them; a room left
    /// without players is closed.
    pub fn remove_from_rooms(&mut self, player_uuid: &u128)
        requires
            old(self).wf(),
        ensures
            final(self).wf(),
            !in_some_room(old(self).rooms@, *player_uuid) ==> *final(self) == *old(self),
            removed_from_rooms(old(self).rooms@, final(self).rooms@, *player_uuid),
    {
        let room_uuid = player_to_game(player_uuid, self);
        let room_uuid = match room_uuid {
            Some(u) => u,
            None => {
                return;
            },
        };
        let k = match self.room_index(room_uuid) {
            Some(k) => k,
            None => {
                return;
            },
        };
        proof {
            let kk = choose|i: int| is_player_room(old(self).rooms@, *player_uuid, i) && old(self).rooms@[i].uuid == room_uuid;
            if kk != k {
                if kk < k {
                    assert(old(self).rooms@[kk].uuid != old(self).rooms@[k as int].uuid);
                } else {
                    assert(old(self).rooms@[k as int].uuid != old(self).rooms@[kk].uuid);
                }
            }
            assert(is_player_room(old(self).rooms@, *player_uuid, k as int));
            assert forall|k2: int| #[trigger] is_player_room(old(self).rooms@, *player_uuid, k2) implies k2 == k by {
                if k2 < k {
                } else if k2 > k {
                }
            }
        }
        retain_others(&mut self.rooms[k].game.players, *player_uuid);
        if self.rooms[k].game.players.len() == 0 {
            let _ = self.rooms.remove(k);
            assert(self.rooms@ =~= old(self).rooms@.remove(k as int));
            proof {
                assert forall|i: int, j: int| 0 <= i < j < self.rooms@.len() implies
                    (#[trigger] self.rooms@[i]).uuid != (#[trigger] self.rooms@[j]).uuid by {
                    let oi = if i < k { i } else { i + 1 };
                    let oj = if j < k { j } else { j + 1 };
                    assert(self.rooms@[i] == old(self).rooms@[oi]);
                    assert(self.rooms@[j] == old(self).rooms@[oj]);
                    assert(old(self).rooms@[oi].uuid != old(self).rooms@[oj].uuid);
                }
            }
        } else {
            proof {
                assert forall|i: int, j: int| 0 <= i < j < self.rooms@.len() implies
                    (#[trigger] self.rooms@[i]).uuid != (#[trigger] self.rooms@[j]).uuid by {
                    assert(old(self).rooms@[i].uuid != old(self).rooms@[j].uuid);
                }
            }
        }
    }
}

/// The players other than `u`, in seat order.
pub open spec fn players_without(ps: Seq<Player>, u: u128) -> Seq<Player>
    decreases ps.len(),
{
    if ps.len() == 0 {
        Seq::empty()
    } else if ps.last().uuid != u {
        players_without(ps.drop_last(), u).push(ps.last())
    } else {
        players_without(ps.drop_last(), u)
    }
}

/// Removes every seat of `u`, keeping the others in order.
fn retain_others(ps: &mut Vec<Player>, u: u128)
    ensures
        final(ps)@ == players_without(old(ps)@, u),
{
    let ghost orig = ps@;
    let ghost mut j: int = 0;
    let mut i: usize = 0;
    while i < ps.len()
        invariant
            0 <= j <= orig.len(),
            i == players_without(orig.take(j), u).len(),
            ps@ == players_without(orig.take(j), u) + orig.subrange(j, orig.len() as int),
        decreases orig.len() - j,
    {
        assert(orig.take(j + 1).drop_last() =~= orig.take(j));
        assert(ps@[i as int] == orig[j]);
        if ps[i].uuid == u {
            let _ = ps.remove(i);
            assert(ps@ =~= players_without(orig.take(j + 1), u) + orig.subrange(j + 1, orig.len() as int));
        } else {
            i = i + 1;
            assert(ps@ =~= players_without(orig.take(j + 1), u) + orig.subrange(j + 1, orig.len() as int));
        }
        proof {
            j = j + 1;
        }
    }
    assert(j == orig.len()) by {
        if j < orig.len() {
            assert(ps@.len() == i + (orig.len() - j));
        }
    }
    assert(orig.take(orig.len() as int) =~= orig);
    assert(ps@ =~= players_without(orig, u));
}

} // verus!
