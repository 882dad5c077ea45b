# coup

A server for the card game Coup, played over websockets. The rules, the
rooms and the turn machinery are a library verified with Verus; a thin
actix program around it handles connections, timers and JSON.

## Layout

- `src/` — the verified library.
  - `card`, `deck`, `player`, `game`: cards, the deck, hands and purses, the
    lobby and the table (dealing, passing the turn, the actions offered).
  - `action_properties`: the rules of each action (claimed role, blockers,
    cost, target).
  - `actions`: declaring an action and carrying out its effect.
  - `turn_phase`, `turn_state_machine`: the phases of a turn.
  - `server`, `phases`, `handlers`: the rooms and every request a client can
    make; each request returns the messages to send and the timers to
    schedule instead of performing them.
  - `state`: what each player is shown.
  - `session`: reading a client's text command.
  - `laws`: proofs of properties that relate several operations.
  - `random`: the random numbers, shuffles and identifiers the library uses.
  - `objects`: a small stand-alone model of cards, deck, player and game.
- `app/` — the actix-web program: routes, sessions, the server actor that
  performs what the library asks for, and the JSON forms of the messages.
- `tests/` — tests of the library on concrete tables and commands.
