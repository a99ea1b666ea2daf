# claw-todo

A local, single-user todo store for people and agents: tasks in a tree,
explicit status changes with optional cascades, idempotent creation, filtered
tree listings with progress counts, and associations with externally managed
reminders.

## Layout

- `src/` — the library, verified with Verus. The whole state is a `Store`
  value with a mathematical view (`StoreV`); every operation is specified by a
  spec function from the old view to the new view and the result, and
  `src/laws.rs` proves properties of the operations taken together (refusals
  change nothing, repeats are no-ops, creation retries find their task, open
  tasks stay under open parents, the tree stays acyclic, work tasks keep no
  WeChat reminders, history is append-only). `src/cli.rs` holds the
  command-line grammar and parser, `src/human.rs` the text rendering, and
  `src/drawing.rs` the proof that a listing draws each of its tasks exactly
  once in its tree.
- `app/` — the program: SQLite storage (one write transaction per command,
  the store loaded, the command run, the differences written back), JSON
  output and process handling; the wording of argument errors comes from
  `clap`, over the same grammar as the library's parser.
- `tests/` — tests of the library.

## Exit codes

`0` success, `2` argument or validation error, `3` not found, `4` refused
state change, `5` database busy, `1` any other failure.
