# linear

A verified implementation of the Linear language's semantic core and
surface frontend, written in Verus.

- `types` — the append-only type arena and the structural `Dup`/`Zap`
  capabilities of its types.
- `ir` — core programs: single-assignment statements over typed values,
  and their type and linearity judgement (`ir::checker` states it as spec
  functions and computes it, proved equal).
- `eval` — the reference interpreter, proved to compute the spec semantics.
- `flow` — value-flow summaries of functions and the check of declared
  parameter contracts against them.
- `frontend` — the syntax tree, the parser (a parsing expression grammar
  stated rule by rule as spec functions), lowering of types, signatures and
  bodies into a core program, and source diagnostics.
- `names`, `id` — name tables and typed indices.

Tests under `tests/` exercise the library from outside.
