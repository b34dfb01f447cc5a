# quilt_subleq

A Subleq substrate for Quilt, and a Quilt substrate for Subleq, verified with Verus.

- `src/subleq.rs` — the one-instruction machine; `step_spec` and `run_spec` give its semantics.
- `src/quilt_as_subleq.rs` — Quilt opcodes emitted as Subleq programs, with the shape law of
  every compiled program and a run law for each program (store a literal, add one, copy,
  zero, compare, max-merge).
- `src/block.rs`, `src/scaling.rs` — typed pointers (memory, cell, port), their blocks, and the
  scaling function that runs one instruction over them.
- `src/cell.rs`, `src/port.rs` — cells that run Subleq, sheets of cells, port registries.
- `src/store.rs` — the keyed table behind cells, ports, tick counts and the port registry.
- `src/text.rs` — decimal text of integers, for messages.
- `app/main.rs` — prints the program each opcode compiles to.
