# ns_engine

The decisions of an agent that emits actions rather than prose. A model proposes
structured actions; the engine validates, guards, stages and runs them, and writes
a reply from the trace of what happened. Everything that decides is here, with a
contract that Verus proves.

- `src/turn/` – one turn. `steer.rs` is the loop as a state machine: each step says
  what it needs from outside next (a proposal, a search, a tool call). `drive.rs`
  takes the answers one at a time and holds what is true of every course of them. `builtins.rs` holds the engine's own actions, `tools.rs` and
  `gate.rs` the path of a registered tool, `legal.rs` what is on offer,
  `prompt.rs` and `reply.rs` what the models are shown, `memory.rs` the facts and
  the running summary, `laws.rs` what holds of every turn.
- `src/state.rs`, `src/trace.rs` – the session as a projection of its log.
- `src/store/` – the store in the process, and `conformance.rs`: what every store owes
  for its facts, as judgements on a store's answers. `app/conformance.rs` holds any
  store to them.
- `src/ground.rs`, `src/echo.rs` – whether a reply says more than was shown, or
  only repeats it.
- `src/router.rs`, `src/dispatch.rs`, `src/replay.rs`, `src/eval/` – routing,
  mailboxes, replays of a recording, and the fixed set of tasks.
- `src/json.rs`, `src/unicode.rs`, `src/text.rs` – the few functions of
  `serde_json` and of the standard library whose contracts are believed, each
  with what is claimed of it.
- `app/` – the asynchronous roles, the clock and the loops around the library.

Each type that carries text has a twin whose name ends in `V`; contracts speak of
the twins. Public proof functions state what holds across calls.
