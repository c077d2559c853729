# trapdoor

An interactive step-debugger for Bash scripts: breakpoints (conditional ones
too), watches, `step` / `next` / `finish` / `until`, backtraces, source
listings, and a REPL that runs bash inside the live script. The bash side is a
small stub injected through `BASH_ENV` that talks to the controller over
`/dev/tcp` and stops before every simple command through the `DEBUG` trap.

## Layout

- `src/` — the verified library (Verus). Every decision the debugger makes:
  - `cli.rs` — command-line options;
  - `protocol.rs` — the stub's stop messages, the framing of its answers,
    the requests sent to it, source lines;
  - `command.rs` — reading a line typed at the `(tdb)` prompt;
  - `session.rs` — breakpoints, watches, run modes, when to stop, and what
    each command does and prints;
  - `messages.rs` — every line the debugger prints;
  - `paths.rs`, `palette.rs`, `numbers.rs`, `text.rs` — path matching, ANSI
    colors, decimal numbers, and the string operations the rest relies on;
  - `laws.rs` — properties that span several operations.
- `app/` — the program: process and socket handling, terminal I/O, the stub.
- `tests/` — tests of the library on concrete values.
