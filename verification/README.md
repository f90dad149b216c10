# lessons

Small Rust lessons, with their logic as a verified Verus library.

- `src/calc.rs` — an integer expression calculator: tokenizer, shunting-yard
  conversion to reverse Polish notation, checked evaluation. Each stage is
  specified by a spec function and the code is proved against it.
- `src/grammar.rs` — the grammar the calculator implements and the proof that
  every well-formed expression evaluates to the value of its syntax tree.
- `src/text_laws.rs` — laws on source texts: blanks matter only between
  digits, and parentheses around calculable texts keep or combine values.
- `src/bank.rs`, `src/geometry.rs`, `src/projects.rs`, `src/students.rs`,
  `src/ownership.rs`, `src/functions.rs`, `src/production.rs` — the small
  lessons (method chaining, trait generics, lookups, hash maps, ownership).
- `src/futures.rs` — the decisions of hand-written futures as state machines.
- `app/` — the programs: printing, threads, channels, tokio, the network, and
  the lessons that inspect raw memory or floating point.
