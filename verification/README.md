# mu-core

The core of the mu agent, verified with Verus: the retained context and its provenance, the
session event log and what is derived from it, the model catalog, routes, pricing and the spend
ceiling, tools, skills, hooks, and the wire protocol.

- `src/` is the library. Its functions state in `ensures` what they return or change (the clock, of
  which nothing is claimed, is the exception), over mathematical models: text is `Seq<char>`, a
  `StringMap` is a `Map`, a log is a `Seq` of events. Properties that relate several functions are
  public proof functions named `law_*`.
- `tests/` runs the library on concrete values.
- `app/` is ordinary Rust around the library: files, processes, sockets, configuration layers, the
  serde forms of the types, and floating point.

## Models

- JSON values are held as JSON text, paths as text, and floating-point numbers as bit patterns
  (`Double`), of which the library decides order and validity. Dollars are worked out in `app/`
  from `Charge`s, which say how many tokens are charged at which rate.
- `SessionEventLog` gives an event its identifier, lets the caller write it to disk, and then takes
  it into memory. The latest state of a session, its cost and its attribution are functions of the
  events alone.
- Work that goes back and forth between the program and the world is a step function:
  `HookEngine::gate_begin` and `gate_continue` for hooks, `read_reply` for a language server,
  `line_step` and `write_step` for a connection.

## Trusted items

The functions marked `external_body` call the standard library, `serde_json`, `blake3` and `toml`.
Each names the function that it calls and says what is claimed of it. Where a result takes pages to
state, it has a name (an `uninterp spec fn`) that stands for it in contracts, and what follows the
call is a function of its own that takes the result as an argument.
