use vstd::prelude::*;

verus! {

/// The events that move a turn along.
#[derive(Debug, Clone, Copy, PartialEq, Eq, Structural)]
pub enum TurnInput {
    BlockableAction,
    UnblockableAction,
    BluffCall,
    BluffCallCorrect,
    BluffCallIncorrect,
    BlockPossible,
    BlockImpossible,
    BlockAction,
    AllowAction,
    NoBluffCallAndBlockPossible,
    NoBluffCallAndBlockImpossible,
    NoEvent,
    NextTurn,
}

/// The stages of a turn.
#[derive(Debug, Clone, Copy, PartialEq, Eq, Structural)]
pub enum TurnState {
    SelectAction,
    StartTimer,
    Resolve,
    LoseInfluenceBluffCaller,
    LoseInfluenceBluffReceiver,
    GainGold,
    ExecuteAction,
    SelectCounteraction,
    EndTurn,
}

/// The turn's transition table; `None` where an event is not allowed.
pub open spec fn turn_step(state: TurnState, input: TurnInput) -> Option<TurnState> {
    match (state, input) {
        (TurnState::SelectAction, TurnInput::BlockableAction) => Some(TurnState::StartTimer),
        (TurnState::SelectAction, TurnInput::UnblockableAction) => Some(TurnState::ExecuteAction),
        (TurnState::StartTimer, TurnInput::BluffCall) => Some(TurnState::Resolve),
        (TurnState::StartTimer, TurnInput::NoBluffCallAndBlockPossible) => Some(TurnState::SelectCounteraction),
        (TurnState::StartTimer, TurnInput::NoBluffCallAndBlockImpossible) => Some(TurnState::ExecuteAction),
        (TurnState::Resolve, TurnInput::BluffCallCorrect) => Some(TurnState::LoseInfluenceBluffReceiver),
        (TurnState::Resolve, TurnInput::BluffCallIncorrect) => Some(TurnState::LoseInfluenceBluffCaller),
        (TurnState::LoseInfluenceBluffReceiver, TurnInput::NoEvent) => Some(TurnState::GainGold),
        (TurnState::GainGold, TurnInput::NoEvent) => Some(TurnState::EndTurn),
        (TurnState::LoseInfluenceBluffCaller, TurnInput::BlockPossible) => Some(TurnState::SelectCounteraction),
        (TurnState::LoseInfluenceBluffCaller, TurnInput::BlockImpossible) => Some(TurnState::ExecuteAction),
        (TurnState::SelectCounteraction, TurnInput::BlockAction) => Some(TurnState::StartTimer),
        (TurnState::SelectCounteraction, TurnInput::AllowAction) => Some(TurnState::ExecuteAction),
        (TurnState::ExecuteAction, TurnInput::NoEvent) => Some(TurnState::EndTurn),
        (TurnState::EndTurn, TurnInput::NextTurn) => Some(TurnState::SelectAction),
        _ => None,
    }
}

/// The state a turn starts in.
pub const INITIAL_TURN_STATE: TurnState = TurnState::SelectAction;

/// The state that `input` leads to from `state`, if the event is allowed there.
pub fn turn_transition(state: &TurnState, input: &TurnInput) -> (r: Option<TurnState>)
    ensures
        r == turn_step(*state, *input),
{
    match (state, input) {
        (TurnState::SelectAction, TurnInput::BlockableAction) => Some(TurnState::StartTimer),
        (TurnState::SelectAction, TurnInput::UnblockableAction) => Some(TurnState::ExecuteAction),
        (TurnState::StartTimer, TurnInput::BluffCall) => Some(TurnState::Resolve),
        (TurnState::StartTimer, TurnInput::NoBluffCallAndBlockPossible) => Some(TurnState::SelectCounteraction),
        (TurnState::StartTimer, TurnInput::NoBluffCallAndBlockImpossible) => Some(TurnState::ExecuteAction),
        (TurnState::Resolve, TurnInput::BluffCallCorrect) => Some(TurnState::LoseInfluenceBluffReceiver),
        (TurnState::Resolve, TurnInput::BluffCallIncorrect) => Some(TurnState::LoseInfluenceBluffCaller),
        (TurnState::LoseInfluenceBluffReceiver, TurnInput::NoEvent) => Some(TurnState::GainGold),
        (TurnState::GainGold, TurnInput::NoEvent) => Some(TurnState::EndTurn),
        (TurnState::LoseInfluenceBluffCaller, TurnInput::BlockPossible) => Some(TurnState::SelectCounteraction),
        (TurnState::LoseInfluenceBluffCaller, TurnInput::BlockImpossible) => Some(TurnState::ExecuteAction),
        (TurnState::SelectCounteraction, TurnInput::BlockAction) => Some(TurnState::StartTimer),
        (TurnState::SelectCounteraction, TurnInput::AllowAction) => Some(TurnState::ExecuteAction),
        (TurnState::ExecuteAction, TurnInput::NoEvent) => Some(TurnState::EndTurn),
        (TurnState::EndTurn, TurnInput::NextTurn) => Some(TurnState::SelectAction),
        _ => None,
    }
}

/// The (empty) output alphabet of the turn machine.
#[derive(Debug, PartialEq, Eq, Structural)]
pub struct TurnOutput;

/// The turn produces no output on any transition.
pub fn turn_output(state: &TurnState, input: &TurnInput) -> (r: Option<TurnOutput>)
    ensures
        r is None,
{
    None
}

/// The state reached by feeding `inputs` one by one from `state`, or `None`
/// as soon as one of them is not allowed.
pub open spec fn run_turn(state: TurnState, inputs: Seq<TurnInput>) -> Option<TurnState>
    decreases inputs.len(),
{
    if inputs.len() == 0 {
        Some(state)
    } else {
        match turn_step(state, inputs[0]) {
            Some(next) => run_turn(next, inputs.drop_first()),
            None => None,
        }
    }
}

/// Whatever stage a turn is in, some sequence of events brings it back to
/// the selection of the next action.
pub proof fn lemma_turn_always_returns(state: TurnState)
    ensures
        exists|inputs: Seq<TurnInput>| #[trigger] run_turn(state, inputs) == Some(TurnState::SelectAction),
{
    let to_select = seq![TurnInput::NextTurn];
    let from_execute = seq![TurnInput::NoEvent, TurnInput::NextTurn];
    let inputs = match state {
        TurnState::SelectAction => Seq::<TurnInput>::empty(),
        TurnState::StartTimer => seq![TurnInput::NoBluffCallAndBlockImpossible] + from_execute,
        TurnState::Resolve => seq![TurnInput::BluffCallCorrect, TurnInput::NoEvent, TurnInput::NoEvent, TurnInput::NextTurn],
        TurnState::LoseInfluenceBluffCaller => seq![TurnInput::BlockImpossible] + from_execute,
        TurnState::LoseInfluenceBluffReceiver => seq![TurnInput::NoEvent, TurnInput::NoEvent, TurnInput::NextTurn],
        TurnState::GainGold => seq![TurnInput::NoEvent, TurnInput::NextTurn],
        TurnState::ExecuteAction => from_execute,
        TurnState::SelectCounteraction => seq![TurnInput::AllowAction] + from_execute,
        TurnState::EndTurn => to_select,
    };
    reveal_with_fuel(run_turn, 6);
    assert(run_turn(state, inputs) == Some(TurnState::SelectAction));
}

} // verus!
