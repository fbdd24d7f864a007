# starforge (verified core)

The interactive contract shell and performance commands of the starforge CLI,
with their logic proved in Verus.

- `src/text.rs` — Unicode whitespace and `trim`, specified and implemented.
- `src/invocation.rs` — the invocation grammar `name(arg, "quoted", 'q', esc\,aped)`:
  `split_args` and `parse_invocation`, each equal to its spec.
- `src/laws.rs` — properties of the grammar: quoted arguments read back exactly,
  parsed names and arguments are trimmed, plain text splits at every comma, the argument count is one more than the separating commas, and splitting fails exactly on an open quote or an odd run of trailing backslashes.
- `src/repl.rs` — what a line typed at the prompt means, and the next step of the prompt loop.
- `src/perf.rs` — alert directions and the choice of records a history shows.
- `src/shell.rs` — arguments of the `shell` command.
- `app/` — the command-line program: argument parsing, terminal I/O, the prompt loop.
