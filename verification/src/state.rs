use vstd::prelude::*;
use vstd::string::*;
use crate::action_properties::{display_action_name, display_name};
use crate::card::{Card, Role, role_name, role_name_spec};
use crate::game::{AvailableAction, Game, expected_actions, is_first_seat, offers};
use crate::player::Player;
use crate::turn_phase::TurnPhase;

verus! {

/// A card as one player sees it: the role is hidden unless the card is the
/// viewer's own or has been revealed.
#[derive(Debug, Clone, Copy, PartialEq, Eq, Structural)]
pub struct CardView {
    pub role: Option<Role>,
    pub visible: bool,
}

/// A player as another player (or the player itself) sees them.
#[derive(Debug, Clone)]
pub struct PlayerView {
    pub name: String,
    pub is_alive: bool,
    pub coins: u8,
    pub cards: Vec<CardView>,
    pub exchange_cards: Vec<CardView>,
    pub is_current_turn: bool,
    pub is_self: bool,
}

/// A card shown face up.
pub open spec fn shown(c: Card) -> CardView {
    CardView { role: Some(c.role), visible: c.visible }
}

/// A card as seen by a viewer: shown if the viewer owns it or it is revealed.
pub open spec fn seen(c: Card, is_self: bool) -> CardView {
    if is_self || c.visible {
        shown(c)
    } else {
        CardView { role: None, visible: false }
    }
}

/// `pv` is how a viewer sees player `p`.
pub open spec fn is_view_of(pv: PlayerView, p: Player, is_self: bool, is_current_turn: bool) -> bool {
    &&& pv.name@ == p.name@
    &&& pv.is_alive == p.is_alive
    &&& pv.coins == p.coins
    &&& pv.cards@ == p.cards@.map_values(|c: Card| seen(c, is_self))
    &&& pv.exchange_cards@ == (if is_self {
        p.exchange_cards@.map_values(|c: Card| shown(c))
    } else {
        Seq::<CardView>::empty()
    })
    &&& pv.is_current_turn == is_current_turn
    &&& pv.is_self == is_self
}

fn view_cards(cards: &Vec<Card>, is_self: bool, all_shown: bool) -> (v: Vec<CardView>)
    ensures
        v@ == cards@.map_values(|c: Card| if all_shown { shown(c) } else { seen(c, is_self) }),
{
    let mut v: Vec<CardView> = Vec::new();
    let mut i: usize = 0;
    while i < cards.len()
        invariant
            i <= cards@.len(),
            v@ == cards@.take(i as int).map_values(|c: Card| if all_shown { shown(c) } else { seen(c, is_self) }),
        decreases cards@.len() - i,
    {
        let c = cards[i];
        let cv = if all_shown || is_self || c.visible {
            CardView { role: Some(c.role), visible: c.visible }
        } else {
            CardView { role: None, visible: false }
        };
        v.push(cv);
        assert(cards@.take(i + 1).map_values(|c: Card| if all_shown { shown(c) } else { seen(c, is_self) })
            =~= cards@.take(i as int).map_values(|c: Card| if all_shown { shown(c) } else { seen(c, is_self) }).push(cv));
        i = i + 1;
    }
    assert(cards@.take(cards@.len() as int) =~= cards@);
    v
}

impl PlayerView {
    pub fn from_player(player: &Player, is_self: bool, is_current_turn: bool) -> (pv: Self)
        ensures
            is_view_of(pv, *player, is_self, is_current_turn),
    {
        let cards = view_cards(&player.cards, is_self, false);
        let exchange_cards = if is_self {
            view_cards(&player.exchange_cards, true, true)
        } else {
            Vec::new()
        };
        assert(cards@ =~= player.cards@.map_values(|c: Card| seen(c, is_self)));
        assert(is_self ==> exchange_cards@ =~= player.exchange_cards@.map_values(|c: Card| shown(c)));
        PlayerView {
            name: player.name.clone(),
            is_alive: player.is_alive,
            coins: player.coins,
            cards,
            exchange_cards,
            is_current_turn,
            is_self,
        }
    }
}

/// The table as one player sees it.
#[derive(Debug, Clone)]
pub struct GameState {
    pub title: String,
    pub subtitle: String,
    pub players: Vec<PlayerView>,
    pub coins: u8,
    pub current_player: String,
    pub available_actions: Vec<AvailableAction>,
}

/// The name of the role a player claims, or nothing when there is none.
pub open spec fn claimed_text(r: Option<Role>) -> Seq<char> {
    match r {
        Some(role) => role_name_spec(role),
        None => Seq::empty(),
    }
}

/// The line under the title: who is choosing an influence to lose, what the
/// pending action waits for, who is exchanging, or that an action is awaited.
pub open spec fn subtitle_of(game: Game) -> Seq<char> {
    let current = game.players@[game.current_player as int];
    match game.pending_influence_loss {
        Some(u) => {
            let i = choose|i: int| is_first_seat(game.players@, u, i);
            game.players@[i].name@ + " is choosing which influence to lose"@
        },
        None => match game.turn_context {
            Some(ctx) => {
                let action = display_name(ctx.action@);
                match ctx.phase {
                    TurnPhase::AwaitingChallengeResponses => match ctx.target_name {
                        Some(t) => ctx.actor_name@ + " claims "@ + claimed_text(ctx.claimed_role) + " to "@
                            + action + " "@ + t@,
                        None => ctx.actor_name@ + " claims "@ + claimed_text(ctx.claimed_role) + " to "@
                            + action,
                    },
                    TurnPhase::AwaitingBlockResponses => match ctx.target_name {
                        Some(t) => ctx.actor_name@ + " wants to "@ + action + " "@ + t@
                            + " - waiting for blocks"@,
                        None => ctx.actor_name@ + " wants to "@ + action + " - waiting for blocks"@,
                    },
                    TurnPhase::AwaitingBlockChallengeResponses => match ctx.block_info {
                        Some(b) => b.blocker_name@ + " claims "@ + role_name_spec(b.claimed_role)
                            + " to block "@ + action,
                        None => "Waiting for block challenge responses"@,
                    },
                }
            },
            None => if current.exchange_cards@.len() > 0 {
                current.name@ + " is exchanging cards"@
            } else {
                "Choosing an action"@
            },
        },
    }
}

/// What [`GameState::for_player`] needs of the table: a current seat, and a
/// seat for the player who must lose influence.
pub open spec fn viewable(game: Game) -> bool {
    &&& game.current_player < game.players@.len()
    &&& match game.pending_influence_loss {
        Some(u) => exists|i: int| 0 <= i < game.players@.len() && (#[trigger] game.players@[i]).uuid == u,
        None => true,
    }
}

fn cat(a: String, b: &str) -> (r: String)
    ensures
        r@ == a@ + b@,
{
    a.concat(b)
}

fn claimed_role_text(r: Option<Role>) -> (s: String)
    ensures
        s@ == claimed_text(r),
{
    match r {
        Some(role) => role_name(role).to_owned(),
        None => String::new(),
    }
}

fn subtitle(game: &Game) -> (s: String)
    requires
        viewable(*game),
    ensures
        s@ == subtitle_of(*game),
{
    let current = &game.players[game.current_player];
    if let Some(pending_uuid) = game.pending_influence_loss {
        let mut i: usize = 0;
        while i < game.players.len() && game.players[i].uuid != pending_uuid
            invariant
                i <= game.players@.len(),
                viewable(*game),
                game.pending_influence_loss == Some(pending_uuid),
                forall|j: int| 0 <= j < i ==> (#[trigger] game.players@[j]).uuid != pending_uuid,
            decreases game.players@.len() - i,
        {
            i = i + 1;
        }
        assert(is_first_seat(game.players@, pending_uuid, i as int));
        proof {
            let k = choose|k: int| is_first_seat(game.players@, pending_uuid, k);
            assert(k == i);
        }
        cat(game.players[i].name.clone(), " is choosing which influence to lose")
    } else if let Some(ctx) = &game.turn_context {
        let action = display_action_name(ctx.action.as_str());
        match ctx.phase {
            TurnPhase::AwaitingChallengeResponses => {
                let s = cat(cat(cat(ctx.actor_name.clone(), " claims "), claimed_role_text(ctx.claimed_role).as_str()), " to ");
                match &ctx.target_name {
                    Some(t) => cat(cat(cat(s, action.as_str()), " "), t.as_str()),
                    None => cat(s, action.as_str()),
                }
            },
            TurnPhase::AwaitingBlockResponses => {
                let s = cat(cat(ctx.actor_name.clone(), " wants to "), action.as_str());
                match &ctx.target_name {
                    Some(t) => cat(cat(cat(s, " "), t.as_str()), " - waiting for blocks"),
                    None => cat(s, " - waiting for blocks"),
                }
            },
            TurnPhase::AwaitingBlockChallengeResponses => {
                match &ctx.block_info {
                    Some(b) => cat(cat(cat(b.blocker_name.clone(), " claims "), role_name(b.claimed_role)), " to block ")
                        .concat(action.as_str()),
                    None => "Waiting for block challenge responses".to_owned(),
                }
            },
        }
    } else if current.exchange_cards.len() > 0 {
        cat(current.name.clone(), " is exchanging cards")
    } else {
        "Choosing an action".to_owned()
    }
}

/// `gs` is table `game` as player `u` sees it: whose turn it is, what is
/// going on, the bank, the actions `u` may take, and every seat with only the
/// cards that seat shows to `u`.
pub open spec fn view_for(gs: GameState, game: Game, u: u128) -> bool {
    let current = game.players@[game.current_player as int];
    &&& gs.title@ == current.name@ + "'s turn"@
    &&& gs.subtitle@ == subtitle_of(game)
    &&& gs.coins == game.coins
    &&& gs.current_player@ == current.name@
    &&& offers(gs.available_actions@) == expected_actions(game, u)
    &&& gs.players@.len() == game.players@.len()
    &&& forall|i: int| 0 <= i < game.players@.len() ==> is_view_of(
        #[trigger] gs.players@[i],
        game.players@[i],
        game.players@[i].uuid == u,
        game.players@[i].uuid == current.uuid,
    )
}

impl GameState {
    /// The table as `player_uuid` sees it.
    pub fn for_player(player_uuid: &u128, game: &Game) -> (gs: Self)
        requires
            viewable(*game),
        ensures
            view_for(gs, *game, *player_uuid),
    {
        let current = &game.players[game.current_player];
        let subtitle = subtitle(game);
        let mut players: Vec<PlayerView> = Vec::new();
        let mut i: usize = 0;
        while i < game.players.len()
            invariant
                i <= game.players@.len(),
                game.current_player < game.players@.len(),
                *current == game.players@[game.current_player as int],
                players@.len() == i,
                forall|j: int| 0 <= j < i ==> is_view_of(
                    #[trigger] players@[j],
                    game.players@[j],
                    game.players@[j].uuid == *player_uuid,
                    game.players@[j].uuid == current.uuid,
                ),
            decreases game.players@.len() - i,
        {
            let p = &game.players[i];
            let is_self = p.uuid == *player_uuid;
            let is_current_turn = p.uuid == current.uuid;
            players.push(PlayerView::from_player(p, is_self, is_current_turn));
            i = i + 1;
        }
        Self {
            title: cat(current.name.clone(), "'s turn"),
            subtitle,
            coins: game.coins,
            current_player: current.name.clone(),
            available_actions: game.available_actions(player_uuid),
            players,
        }
    }
}

/// What a lobby shows while players gather.
#[derive(Debug, Clone)]
pub struct LobbyState {
    pub room_code: String,
    pub max_players: usize,
    pub players: Vec<String>,
    pub creator_uuid: u128,
}

impl LobbyState {
    pub fn from_game(game: &Game) -> (ls: Self)
        requires
            game.players@.len() > 0,
        ensures
            ls.room_code@ == game.room_code@,
            ls.max_players == game.max_players,
            ls.players.deep_view() == game.players@.map_values(|p: Player| p.name@),
            ls.creator_uuid == game.players@[0].uuid,
    {
        let mut names: Vec<String> = Vec::new();
        let mut i: usize = 0;
        while i < game.players.len()
            invariant
                i <= game.players@.len(),
                names.deep_view() == game.players@.take(i as int).map_values(|p: Player| p.name@),
            decreases game.players@.len() - i,
        {
            let ghost before = names.deep_view();
            names.push(game.players[i].name.clone());
            assert(names.deep_view() =~= before.push(game.players@[i as int].name@));
            assert(game.players@.take(i + 1).map_values(|p: Player| p.name@)
                =~= game.players@.take(i as int).map_values(|p: Player| p.name@).push(game.players@[i as int].name@));
            i = i + 1;
        }
        assert(game.players@.take(game.players@.len() as int) =~= game.players@);
        Self {
            room_code: game.room_code.clone(),
            max_players: game.max_players,
            players: names,
            creator_uuid: game.players[0].uuid,
        }
    }
}

/// A message from the server to one client.
#[derive(Debug, Clone)]
pub enum ServerMessage {
    Connected { player_uuid: u128 },
    LobbyState(LobbyState),
    GameState(GameState),
    Error { message: String },
    GameOver { winner: String },
    LoseInfluenceChoice { cards: Vec<CardView> },
    ChallengePrompt {
        actor: String,
        action: String,
        claimed_role: String,
        target: Option<String>,
        deadline_secs: u64,
    },
    BlockPrompt {
        actor: String,
        action: String,
        blockable_by: Vec<String>,
        target: Option<String>,
        deadline_secs: u64,
    },
    BlockChallengePrompt {
        blocker: String,
        claimed_role: String,
        original_action: String,
        deadline_secs: u64,
    },
    ActionResult { message: String },
}

} // verus!
