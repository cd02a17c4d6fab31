# mlrs

A Recursive Language Model (RLM) engine, verified with Verus. Rather than
sending a whole context to a model, the engine asks the model for one Rhai
script at a time, runs it against the context, stores the (possibly
truncated) output as a notebook cell, and stops when a script calls
`done(answer)` or a limit is reached. Large notebooks are summarized by the
model before the next request.

## Layout

- `src/` — the verified library.
  - `protocol.rs`: per-cell output truncation (UTF-8 safe), token
    estimation, the notebook and its rendered history, with the laws of
    truncation and estimation.
  - `rlm.rs`: engine configuration, the messages sent to the model, and the
    run loop as a state machine (`Rlm::start`, `Rlm::step`) with its laws:
    budgets, compaction, cancellation, retries and termination.
  - `run.rs`: laws over whole runs, following the state machine against a
    model of the provider, the script engine and cancellation.
  - `env.rs`: the context functions offered to scripts (`ctx_len`,
    `ctx_slice`, `ctx_grep`) and the assembly of a cell's output.
  - `repl.rs`: the interactive shell's commands, completion, hints and
    highlighting.
  - `providers.rs`: provider choice, the Anthropic message layout, and
    reply selection.
  - `text.rs`: character-level helpers (decimal rendering, trimming,
    integer parsing).
- `app/` — the `mlrs` command line: provider HTTP clients, the Rhai engine,
  the async run loop that performs what `Rlm::step` decides, and the REPL.
- `tests/` — tests of the library.
