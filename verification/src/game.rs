use vstd::prelude::*;
use vstd::string::*;
use crate::card::{Card, hidden_card};
use crate::deck::Deck;
use crate::deck::initial_deck;
use crate::player::Player;
use crate::random::random_below;
use crate::turn_phase::TurnContext;

verus! {

pub const MAX_PLAYERS: usize = 6;
pub const MIN_PLAYERS: usize = 2;
pub const MAX_COINS: u8 = 50;
pub const CODE_LENGTH: usize = 4;

/// The characters a room code is made of (no 0/O or 1/I look-alikes).
pub const CODE_CHARS: &'static str = "ABCDEFGHJKLMNPQRSTUVWXYZ23456789";

/// A room's table: its players, the deck, the bank's coins and whose turn it is.
#[derive(Debug)]
pub struct Game {
    pub players: Vec<Player>,
    pub deck: Deck,
    pub coins: u8,
    pub current_player: usize,
    pub started: bool,
    pub max_players: usize,
    pub turn_context: Option<TurnContext>,
    pub pending_influence_loss: Option<u128>,
    pub room_code: String,
}

/// A room code: four characters, each one of [`CODE_CHARS`].
pub open spec fn valid_room_code(code: Seq<char>) -> bool {
    &&& code.len() == CODE_LENGTH
    &&& forall|i: int| 0 <= i < code.len() ==> CODE_CHARS@.contains(#[trigger] code[i])
}

/// `i` is the first seat of player `u`.
pub open spec fn is_first_seat(ps: Seq<Player>, u: u128, i: int) -> bool {
    &&& 0 <= i < ps.len()
    &&& ps[i].uuid == u
    &&& forall|j: int| 0 <= j < i ==> (#[trigger] ps[j]).uuid != u
}

/// Player `u` has a seat.
pub open spec fn has_seat(ps: Seq<Player>, u: u128) -> bool {
    exists|i: int| 0 <= i < ps.len() && (#[trigger] ps[i]).uuid == u
}

/// The first seat of player `u` (meaningful when `has_seat(ps, u)`).
pub open spec fn seat_of(ps: Seq<Player>, u: u128) -> int {
    choose|i: int| is_first_seat(ps, u, i)
}

/// Finds the first seat of a player.
pub fn find_seat(ps: &Vec<Player>, u: u128) -> (r: Option<usize>)
    ensures
        match r {
            Some(i) => is_first_seat(ps@, u, i as int) && seat_of(ps@, u) == i && has_seat(ps@, u),
            None => !has_seat(ps@, u),
        },
{
    let mut i: usize = 0;
    while i < ps.len()
        invariant
            i <= ps@.len(),
            forall|j: int| 0 <= j < i ==> (#[trigger] ps@[j]).uuid != u,
        decreases ps@.len() - i,
    {
        if ps[i].uuid == u {
            assert(is_first_seat(ps@, u, i as int));
            proof {
                let k = choose|k: int| is_first_seat(ps@, u, k);
                assert(k == i);
            }
            return Some(i);
        }
        i = i + 1;
    }
    None
}

/// How many players are still in the game.
pub open spec fn alive_count(ps: Seq<Player>) -> nat
    decreases ps.len(),
{
    if ps.len() == 0 {
        0
    } else {
        alive_count(ps.drop_last()) + (if ps.last().is_alive { 1nat } else { 0nat })
    }
}

/// `j` lies in the cyclic range that starts at `start` and stops before `end`.
pub open spec fn in_cyclic_range(start: int, end: int, j: int) -> bool {
    if start <= end {
        start <= j < end
    } else {
        start <= j || j < end
    }
}

/// `next` is the first seat, going round the table from the seat after
/// `current`, whose player is alive.
pub open spec fn is_next_alive(ps: Seq<Player>, current: int, next: int) -> bool {
    let start = (current + 1) % (ps.len() as int);
    &&& 0 <= next < ps.len()
    &&& ps[next].is_alive
    &&& forall|j: int| 0 <= j < ps.len() && in_cyclic_range(start, next, j) ==> !(#[trigger] ps[j]).is_alive
}

/// The cards a shuffled deck `sh` deals to seat `i`, two per seat from the top.
pub open spec fn dealt_to(sh: Seq<Card>, i: int) -> Seq<Card> {
    seq![hidden_card(sh[sh.len() - 1 - 2 * i].role), hidden_card(sh[sh.len() - 2 - 2 * i].role)]
}

/// The players after a deal from `sh`: each got two cards, nothing else changed.
pub open spec fn dealt(old_ps: Seq<Player>, new_ps: Seq<Player>, sh: Seq<Card>) -> bool {
    &&& new_ps.len() == old_ps.len()
    &&& forall|i: int| 0 <= i < old_ps.len() ==> {
        &&& (#[trigger] new_ps[i]).cards@ == old_ps[i].cards@ + dealt_to(sh, i)
        &&& new_ps[i] == (Player { cards: new_ps[i].cards, ..old_ps[i] })
    }
}

proof fn lemma_alive_count_zero(ps: Seq<Player>)
    requires
        forall|j: int| 0 <= j < ps.len() ==> !(#[trigger] ps[j]).is_alive,
    ensures
        alive_count(ps) == 0,
    decreases ps.len(),
{
    if ps.len() > 0 {
        lemma_alive_count_zero(ps.drop_last());
    }
}

fn generate_room_code() -> (code: String)
    ensures
        valid_room_code(code@),
{
    proof {
        reveal_strlit("ABCDEFGHJKLMNPQRSTUVWXYZ23456789");
    }
    let chars: &str = CODE_CHARS;
    assert(chars@.len() == 32);
    assert(chars.is_ascii()) by {
        assert forall|i: int| 0 <= i < chars@.len() implies '\0' <= #[trigger] chars@[i] <= '\u{7f}' by {
        }
    }
    let mut code = String::new();
    let mut k: usize = 0;
    while k < CODE_LENGTH
        invariant
            k <= CODE_LENGTH,
            chars@ == CODE_CHARS@,
            chars@.len() == 32,
            chars.is_ascii(),
            code@.len() == k,
            forall|i: int| 0 <= i < code@.len() ==> CODE_CHARS@.contains(#[trigger] code@[i]),
        decreases CODE_LENGTH - k,
    {
        let idx = random_below(32);
        let piece = chars.substring_ascii(idx, idx + 1);
        let ghost before = code@;
        code.append(piece);
        assert(code@[k as int] == chars@[idx as int]);
        assert forall|i: int| 0 <= i < code@.len() implies CODE_CHARS@.contains(#[trigger] code@[i]) by {
            if i < k {
                assert(code@[i] == before[i]);
            } else {
                assert(code@[i] == chars@[idx as int]);
            }
        }
        k = k + 1;
    }
    code
}

/// An action the current player may take now, with the names of the players
/// it may target.
#[derive(Debug, Clone, PartialEq)]
pub struct AvailableAction {
    pub action: String,
    pub targets: Option<Vec<String>>,
}

/// The mathematical form of [`AvailableAction`].
#[verifier::ext_equal]
pub struct ActionOffer {
    pub action: Seq<char>,
    pub targets: Option<Seq<Seq<char>>>,
}

impl View for AvailableAction {
    type V = ActionOffer;

    open spec fn view(&self) -> ActionOffer {
        ActionOffer {
            action: self.action@,
            targets: match self.targets {
                Some(v) => Some(v.deep_view()),
                None => None,
            },
        }
    }
}

pub open spec fn offers(v: Seq<AvailableAction>) -> Seq<ActionOffer> {
    v.map_values(|a: AvailableAction| a@)
}

pub open spec fn offer(action: Seq<char>, targets: Option<Seq<Seq<char>>>) -> ActionOffer {
    ActionOffer { action, targets }
}

pub open spec fn offer_if(cond: bool, o: ActionOffer) -> Seq<ActionOffer> {
    if cond {
        seq![o]
    } else {
        Seq::empty()
    }
}

/// The names of the other living players, in seat order.
pub open spec fn alive_targets(ps: Seq<Player>, me: u128) -> Seq<Seq<char>>
    decreases ps.len(),
{
    if ps.len() == 0 {
        Seq::empty()
    } else if ps.last().is_alive && ps.last().uuid != me {
        alive_targets(ps.drop_last(), me).push(ps.last().name@)
    } else {
        alive_targets(ps.drop_last(), me)
    }
}

/// The names of the other living players who hold coins, in seat order.
pub open spec fn stealable_targets(ps: Seq<Player>, me: u128) -> Seq<Seq<char>>
    decreases ps.len(),
{
    if ps.len() == 0 {
        Seq::empty()
    } else if ps.last().is_alive && ps.last().uuid != me && ps.last().coins > 0 {
        stealable_targets(ps.drop_last(), me).push(ps.last().name@)
    } else {
        stealable_targets(ps.drop_last(), me)
    }
}

/// The actions the rules offer `me` on this table: none unless it is `me`'s
/// turn and nothing is pending; only a coup with ten coins or more;
/// otherwise income, foreign aid and tax as far as the bank can pay, the
/// exchange, a coup from seven coins, an assassination from three, and a
/// steal when someone has coins to take.
pub open spec fn expected_actions(g: Game, me: u128) -> Seq<ActionOffer> {
    let p = g.players@[g.current_player as int];
    let targets = alive_targets(g.players@, me);
    let stealable = stealable_targets(g.players@, me);
    if p.uuid != me || g.pending_influence_loss is Some || g.turn_context is Some
        || p.exchange_cards@.len() > 0 {
        Seq::empty()
    } else if p.coins >= 10 {
        seq![offer("coup"@, Some(targets))]
    } else {
        offer_if(g.coins > 0, offer("income"@, None))
            + offer_if(g.coins >= 2, offer("foreign_aid"@, None))
            + offer_if(g.coins >= 3, offer("tax"@, None))
            + seq![offer("exchange_draw"@, None)]
            + offer_if(p.coins >= 7, offer("coup"@, Some(targets)))
            + offer_if(p.coins >= 3, offer("assassinate"@, Some(targets)))
            + offer_if(stealable.len() > 0, offer("steal"@, Some(stealable)))
    }
}

fn target_names(players: &Vec<Player>, me: u128, need_coins: bool) -> (v: Vec<String>)
    ensures
        v.deep_view() == (if need_coins { stealable_targets(players@, me) } else { alive_targets(players@, me) }),
{
    let mut v: Vec<String> = Vec::new();
    let mut i: usize = 0;
    while i < players.len()
        invariant
            i <= players@.len(),
            v.deep_view() == (if need_coins {
                stealable_targets(players@.take(i as int), me)
            } else {
                alive_targets(players@.take(i as int), me)
            }),
        decreases players@.len() - i,
    {
        assert(players@.take(i + 1).drop_last() =~= players@.take(i as int));
        let p = &players[i];
        let ghost before = v.deep_view();
        if p.is_alive && p.uuid != me && (!need_coins || p.coins > 0) {
            v.push(p.name.clone());
            assert(v.deep_view() =~= before.push(p.name@));
        }
        i = i + 1;
    }
    assert(players@.take(players@.len() as int) =~= players@);
    v
}

fn new_offer(action: &str, targets: Option<Vec<String>>) -> (a: AvailableAction)
    ensures
        a.action@ == action@,
        a.targets == targets,
{
    AvailableAction { action: action.to_owned(), targets }
}

impl Game {
    /// A fresh lobby holding only its creator, with a full ordered deck, fifty
    /// coins in the bank and a random room code.
    pub fn new(creator_uuid: &u128, creator_name: &str, num_players: usize) -> (g: Self)
        ensures
            g.players@.len() == 1,
            g.players@[0].uuid == *creator_uuid,
            g.players@[0].name@ == creator_name@,
            g.players@[0].is_alive,
            g.players@[0].cards@.len() == 0,
            g.players@[0].coins == 2,
            g.players@[0].exchange_cards@.len() == 0,
            g.deck.cards@ == initial_deck(),
            g.coins == MAX_COINS,
            g.current_player == 0,
            !g.started,
            g.max_players == num_players,
            g.turn_context is None,
            g.pending_influence_loss is None,
            valid_room_code(g.room_code@),
    {
        let mut players: Vec<Player> = Vec::new();
        players.push(Player::new(creator_uuid, creator_name));
        Self {
            players,
            deck: Deck::new(),
            coins: MAX_COINS,
            current_player: 0,
            started: false,
            max_players: num_players,
            turn_context: None,
            pending_influence_loss: None,
            room_code: generate_room_code(),
        }
    }

    /// Seats a player in the lobby unless it is full or the name is taken.
    pub fn add_player(&mut self, player: Player) -> (r: Result<(), &'static str>)
        ensures
            old(self).players@.len() >= old(self).max_players ==> r is Err
                && r->Err_0@ == "Lobby is full"@ && *final(self) == *old(self),
            old(self).players@.len() < old(self).max_players
                && (exists|i: int| 0 <= i < old(self).players@.len()
                    && (#[trigger] old(self).players@[i]).name@ == player.name@)
                ==> r is Err && r->Err_0@ == "A player with that name is already in the lobby"@
                && *final(self) == *old(self),
            old(self).players@.len() < old(self).max_players
                && !(exists|i: int| 0 <= i < old(self).players@.len()
                    && (#[trigger] old(self).players@[i]).name@ == player.name@)
                ==> r is Ok && final(self).players@ == old(self).players@.push(player)
                && *final(self) == (Game { players: final(self).players, ..*old(self) }),
    {
        if self.players.len() >= self.max_players {
            return Err("Lobby is full");
        }
        let mut i: usize = 0;
        while i < self.players.len()
            invariant
                i <= self.players@.len(),
                *self == *old(self),
                old(self).players@.len() < old(self).max_players,
                forall|j: int| 0 <= j < i ==> (#[trigger] self.players@[j]).name@ != player.name@,
            decreases self.players@.len() - i,
        {
            if self.players[i].name == player.name {
                return Err("A player with that name is already in the lobby");
            }
            i = i + 1;
        }
        self.players.push(player);
        Ok(())
    }

    /// Deals two cards from the shuffled deck to every player and picks a
    /// random first player, once two to six players are seated.
    pub fn start_game(&mut self) -> (r: Result<&Player, &'static str>)
        requires
            MIN_PLAYERS <= old(self).players@.len() <= MAX_PLAYERS ==> old(self).deck.cards@.len() >= 2
                * old(self).players@.len(),
        ensures
            old(self).players@.len() < MIN_PLAYERS ==> r is Err && r->Err_0@ == "Not enough players"@
                && *final(self) == *old(self),
            old(self).players@.len() > MAX_PLAYERS ==> r is Err && r->Err_0@ == "Too many players"@
                && *final(self) == *old(self),
            MIN_PLAYERS <= old(self).players@.len() <= MAX_PLAYERS ==> {
                &&& final(self).started
                &&& final(self).current_player < final(self).players@.len()
                &&& r is Ok && *r->Ok_0 == final(self).players@[final(self).current_player as int]
                &&& exists|sh: Seq<Card>| {
                    &&& sh.len() == old(self).deck.cards@.len()
                    &&& #[trigger] sh.to_multiset() == old(self).deck.cards@.to_multiset()
                    &&& final(self).deck.cards@ == sh.subrange(0, sh.len() - 2 * old(self).players@.len())
                    &&& dealt(old(self).players@, final(self).players@, sh)
                }
                &&& *final(self) == (Game {
                    players: final(self).players,
                    deck: final(self).deck,
                    current_player: final(self).current_player,
                    started: true,
                    ..*old(self)
                })
            },
    {
        if self.players.len() < MIN_PLAYERS {
            return Err("Not enough players");
        }
        if self.players.len() > MAX_PLAYERS {
            return Err("Too many players");
        }
        self.started = true;
        self.deck.shuffle();
        let ghost sh = self.deck.cards@;
        let ghost ps0 = self.players@;
        let n = self.players.len();
        let mut i: usize = 0;
        while i < n
            invariant
                n == self.players@.len(),
                n == ps0.len(),
                2 <= n <= 6,
                i <= n,
                sh.len() >= 2 * n,
                self.deck.cards@ == sh.subrange(0, sh.len() - 2 * i),
                forall|j: int| 0 <= j < i ==> {
                    &&& (#[trigger] self.players@[j]).cards@ == ps0[j].cards@ + dealt_to(sh, j)
                    &&& self.players@[j] == (Player { cards: self.players@[j].cards, ..ps0[j] })
                },
                forall|j: int| i <= j < n ==> #[trigger] self.players@[j] == ps0[j],
                *self == (Game {
                    players: self.players,
                    deck: self.deck,
                    started: true,
                    ..*old(self)
                }),
            decreases n - i,
        {
            let mut p = self.players.remove(i);
            let c1 = self.deck.draw();
            match c1 {
                Some(c) => p.cards.push(c),
                None => {},
            }
            let c2 = self.deck.draw();
            match c2 {
                Some(c) => p.cards.push(c),
                None => {},
            }
            self.players.insert(i, p);
            assert(self.deck.cards@ =~= sh.subrange(0, sh.len() - 2 * (i + 1)));
            assert(self.players@[i as int].cards@ =~= ps0[i as int].cards@ + dealt_to(sh, i as int));
            i = i + 1;
        }
        let k = random_below(n);
        self.current_player = k;
        assert(dealt(ps0, self.players@, sh));
        Ok(&self.players[self.current_player])
    }

    /// Passes the turn to the next living player round the table.
    pub fn next_player(&mut self) -> (r: &Player)
        requires
            old(self).players@.len() > 0,
            old(self).current_player < usize::MAX,
            exists|k: int| 0 <= k < old(self).players@.len() && (#[trigger] old(self).players@[k]).is_alive,
        ensures
            is_next_alive(old(self).players@, old(self).current_player as int, final(self).current_player as int),
            *final(self) == (Game { current_player: final(self).current_player, ..*old(self) }),
            *r == final(self).players@[final(self).current_player as int],
    {
        let n = self.players.len();
        let ghost k = choose|k: int| 0 <= k < old(self).players@.len() && (#[trigger] old(self).players@[k]).is_alive;
        let start = (self.current_player + 1) % n;
        let mut cur = start;
        while !self.players[cur].is_alive
            invariant
                n == self.players@.len(),
                *self == *old(self),
                start == (old(self).current_player + 1) % (n as int),
                start < n,
                cur < n,
                0 <= k < n,
                self.players@[k].is_alive,
                forall|j: int| 0 <= j < n && in_cyclic_range(start as int, cur as int, j) ==> !(#[trigger] self.players@[j]).is_alive,
            decreases if k >= cur { k - cur } else { k + n - cur },
        {
            if cur + 1 == n && start == 0 {
                assert forall|j: int| 0 <= j < n implies !(#[trigger] self.players@[j]).is_alive by {
                    if j != cur {
                        assert(in_cyclic_range(start as int, cur as int, j));
                    }
                }
                assert(false);
            }
            // `cur < n`, so this is `(cur + 1) % n`.
            cur = if cur + 1 == n { 0 } else { cur + 1 };
        }
        self.current_player = cur;
        &self.players[self.current_player]
    }

    /// The winner, when exactly one player is still alive.
    pub fn check_game_over(&self) -> (r: Option<&Player>)
        ensures
            alive_count(self.players@) == 1 ==> r is Some && (exists|i: int| 0 <= i < self.players@.len()
                && (#[trigger] self.players@[i]).is_alive && *r->Some_0 == self.players@[i]),
            alive_count(self.players@) != 1 ==> r is None,
    {
        let mut count: usize = 0;
        let mut first: usize = 0;
        let mut i: usize = 0;
        while i < self.players.len()
            invariant
                i <= self.players@.len(),
                count == alive_count(self.players@.take(i as int)),
                count <= i,
                count > 0 ==> first < i && self.players@[first as int].is_alive,
            decreases self.players@.len() - i,
        {
            assert(self.players@.take(i + 1).drop_last() =~= self.players@.take(i as int));
            if self.players[i].is_alive {
                if count == 0 {
                    first = i;
                }
                count = count + 1;
            }
            i = i + 1;
        }
        assert(self.players@.take(self.players@.len() as int) =~= self.players@);
        if count == 1 {
            Some(&self.players[first])
        } else {
            None
        }
    }

    /// The actions `player_uuid` may take now (see [`expected_actions`]).
    pub fn available_actions(&self, player_uuid: &u128) -> (r: Vec<AvailableAction>)
        requires
            self.current_player < self.players@.len(),
        ensures
            offers(r@) == expected_actions(*self, *player_uuid),
    {
        let me = *player_uuid;
        let mut actions: Vec<AvailableAction> = Vec::new();
        let player = &self.players[self.current_player];
        if player.uuid != me || self.pending_influence_loss.is_some() || self.turn_context.is_some()
            || player.exchange_cards.len() > 0 {
            assert(offers(actions@) =~= expected_actions(*self, me));
            return actions;
        }
        if player.coins >= 10 {
            actions.push(new_offer("coup", Some(target_names(&self.players, me, false))));
            assert(offers(actions@) =~= expected_actions(*self, me));
            return actions;
        }
        let ghost targets = alive_targets(self.players@, me);
        let ghost stealable = stealable_targets(self.players@, me);
        let ghost mut expect: Seq<ActionOffer> = Seq::empty();
        if self.coins > 0 {
            actions.push(new_offer("income", None));
        }
        proof { expect = expect + offer_if(self.coins > 0, offer("income"@, None)); }
        assert(offers(actions@) =~= expect);
        if self.coins >= 2 {
            actions.push(new_offer("foreign_aid", None));
        }
        proof { expect = expect + offer_if(self.coins >= 2, offer("foreign_aid"@, None)); }
        assert(offers(actions@) =~= expect);
        if self.coins >= 3 {
            actions.push(new_offer("tax", None));
        }
        proof { expect = expect + offer_if(self.coins >= 3, offer("tax"@, None)); }
        assert(offers(actions@) =~= expect);
        actions.push(new_offer("exchange_draw", None));
        proof { expect = expect + seq![offer("exchange_draw"@, None)]; }
        assert(offers(actions@) =~= expect);
        if player.coins >= 7 {
            actions.push(new_offer("coup", Some(target_names(&self.players, me, false))));
        }
        proof { expect = expect + offer_if(player.coins >= 7, offer("coup"@, Some(targets))); }
        assert(offers(actions@) =~= expect);
        if player.coins >= 3 {
            actions.push(new_offer("assassinate", Some(target_names(&self.players, me, false))));
        }
        proof { expect = expect + offer_if(player.coins >= 3, offer("assassinate"@, Some(targets))); }
        assert(offers(actions@) =~= expect);
        let stealable_names = target_names(&self.players, me, true);
        if stealable_names.len() > 0 {
            actions.push(new_offer("steal", Some(stealable_names)));
        }
        proof { expect = expect + offer_if(stealable.len() > 0, offer("steal"@, Some(stealable))); }
        assert(offers(actions@) =~= expect);
        assert(expect =~= expected_actions(*self, me));
        actions
    }
}

} // verus!
