use coup::turn_state_machine::{turn_output, turn_transition, TurnInput, TurnOutput, TurnState};
use rust_fsm::{StateMachine, StateMachineImpl, TransitionImpossibleError};
use std::sync::{Arc, Mutex};

struct TurnStateMachine;

impl StateMachineImpl for TurnStateMachine {
    type Input = TurnInput;
    type State = TurnState;
    type Output = TurnOutput;
    const INITIAL_STATE: Self::State = TurnState::SelectAction;

    fn transition(state: &Self::State, input: &Self::Input) -> Option<Self::State> {
        turn_transition(state, input)
    }

    fn output(state: &Self::State, input: &Self::Input) -> Option<Self::Output> {
        turn_output(state, input)
    }
}

#[test]
fn coup_turn() {
    let machine: StateMachine<TurnStateMachine> = StateMachine::new();

    // State: Select action (init)
    let machine = Arc::new(Mutex::new(machine));
    {
        let mut lock = machine.lock().unwrap();
        // Input: Blockable action
        let _ = lock.consume(&TurnInput::BlockableAction).unwrap();
        // State: Start timer
        assert_eq!(lock.state(), &TurnState::StartTimer);

        // Input: Bluff call
        let _ = lock.consume(&TurnInput::BluffCall).unwrap();
        // State: Resolve
        assert_eq!(lock.state(), &TurnState::Resolve);

        // Input: Block action (invalid)
        let res = lock.consume(&TurnInput::BlockAction);
        assert!(matches!(res, Err(TransitionImpossibleError)));
        // State: Resolve
        assert_eq!(lock.state(), &TurnState::Resolve);

        // Input: Bluff call incorrect
        let _ = lock.consume(&TurnInput::BluffCallIncorrect).unwrap();
        // State: Lose influence (bluff caller)
        assert_eq!(lock.state(), &TurnState::LoseInfluenceBluffCaller);

        // Input: Block possible
        let _ = lock.consume(&TurnInput::BlockPossible).unwrap();
        // State: Select counteraction
        assert_eq!(lock.state(), &TurnState::SelectCounteraction);

        // Input: Allow action
        let _ = lock.consume(&TurnInput::AllowAction).unwrap();
        // State: Execute action
        assert_eq!(lock.state(), &TurnState::ExecuteAction);

        // Input: NoEvent
        let _ = lock.consume(&TurnInput::NoEvent).unwrap();
        // State: End turn
        assert_eq!(lock.state(), &TurnState::EndTurn);
    }
}

#[test]
fn end_turn_returns_to_selection() {
    assert_eq!(
        turn_transition(&TurnState::EndTurn, &TurnInput::NextTurn),
        Some(TurnState::SelectAction)
    );
    assert_eq!(turn_transition(&TurnState::EndTurn, &TurnInput::NoEvent), None);
    assert_eq!(turn_output(&TurnState::SelectAction, &TurnInput::BlockableAction), None);
}
