use vstd::prelude::*;
use std::collections::HashSet;
use crate::card::Role;

verus! {

/// Which responses a turn is waiting for.
#[derive(Debug, Clone, Copy, PartialEq, Eq, Structural)]
pub enum TurnPhase {
    AwaitingChallengeResponses,
    AwaitingBlockResponses,
    AwaitingBlockChallengeResponses,
}

/// What should happen after a player loses influence during a turn phase.
#[derive(Debug, Clone, Copy, PartialEq, Eq, Structural)]
pub enum AfterInfluenceLoss {
    /// The turn ends (e.g. actor lost a challenge while bluffing).
    TurnEnds,
    /// The action was truthful, challenger lost influence; now proceed
    /// to block phase if blockable, or execute the action.
    ProceedAfterFailedChallenge,
    /// Action effect already applied, turn ends after influence loss
    /// (e.g. target loses influence from coup/assassinate after resolution).
    ActionComplete,
    /// Execute the action (e.g. block was challenged and blocker was bluffing).
    ExecuteAction,
    /// Block succeeds (e.g. block-challenge failed, blocker had the card).
    BlockSucceeds,
}

/// A block that a player declared against the action of the turn.
#[derive(Debug, Clone)]
pub struct BlockInfo {
    pub blocker_uuid: u128,
    pub blocker_name: String,
    pub claimed_role: Role,
}

/// The state of an action that waits for challenges or blocks.
#[derive(Debug)]
pub struct TurnContext {
    pub action: String,
    pub actor_uuid: u128,
    pub actor_name: String,
    pub target_uuid: Option<u128>,
    pub target_name: Option<String>,
    pub claimed_role: Option<Role>,
    pub phase: TurnPhase,
    pub timer_generation: u64,
    pub responded: HashSet<u128>,
    pub block_info: Option<BlockInfo>,
    pub after_influence_loss: Option<AfterInfluenceLoss>,
}

impl TurnContext {
    pub fn new(
        action: String,
        actor_uuid: u128,
        actor_name: String,
        target_uuid: Option<u128>,
        target_name: Option<String>,
        claimed_role: Option<Role>,
        phase: TurnPhase,
    ) -> (c: Self)
        ensures
            c.action == action,
            c.actor_uuid == actor_uuid,
            c.actor_name == actor_name,
            c.target_uuid == target_uuid,
            c.target_name == target_name,
            c.claimed_role == claimed_role,
            c.phase == phase,
            c.timer_generation == 0,
            c.responded@ == Set::<u128>::empty(),
            c.block_info is None,
            c.after_influence_loss is None,
    {
        Self {
            action,
            actor_uuid,
            actor_name,
            target_uuid,
            target_name,
            claimed_role,
            phase,
            timer_generation: 0,
            responded: HashSet::new(),
            block_info: None,
            after_influence_loss: None,
        }
    }

    /// Starts a new timer generation and returns its number.
    pub fn next_generation(&mut self) -> (g: u64)
        requires
            old(self).timer_generation < u64::MAX,
        ensures
            g == old(self).timer_generation + 1,
            *final(self) == (TurnContext { timer_generation: g, ..*old(self) }),
    {
        self.timer_generation = self.timer_generation + 1;
        self.timer_generation
    }
}

} // verus!
