# cqlib_decompose

Verified compiler passes for quantum circuits, written in Verus.

- `canonicalize/` rewrites a circuit into a stable form: canonical
  instruction forms, sorted and deduplicated barrier scopes, merged adjacent
  barriers, dropped trivial no-ops, merged labels, and a fixpoint loop with a
  round limit; `canonicalize/verify.rs` validates input circuits (qubit
  range, duplicate operands, arity, parameter references). The idempotence
  of a stabilized run is proved, and so is
  that the structural pass keeps the basis-state action of circuits built
  from `X`, `CX`, `CCX` and their multi-controlled wrappers.
- `decompose/mcx.rs` and `decompose/mc_gate/mcx/` hold the multi-controlled X
  primitives (ancilla-free phase polynomial, clean and dirty V-chains, the
  one-clean-ancilla recursion, relative-phase Toffolis). Their gate
  sequences, operation counts and operand confinement are proved. The
  basis-state action is proved for the lowerings in `decompose/mcx.rs`,
  built from `X`, `CX` and `CCX` (the clean-ancilla chain and the
  one-borrowed-qubit construction); the chains in `decompose/mc_gate/mcx/`
  over relative-phase Toffolis and the one-clean-ancilla recursion use `H`
  and `T` gates, and their action is checked by the simulator tests only.
- `decompose/mc_gate/` lowers multi-controlled gates family by family (Pauli,
  Phase, rotations, one-qubit, SWAP, Pauli interactions, FSIM) under a
  configured ancilla strategy and operation budget. The lowering is proved to
  emit unlabeled standard gates only, to stay within `max_expansion_ops`, and
  to touch only the operands and the work qubits of the configured strategy.
  On basis states the `X` and SWAP lowerings are proved to flip and swap as the lowered gates do,
  the ancilla-free MCX core to be a multi-controlled `Z` up to global phase,
  and the `RZ` and Phase-family lowerings to be exactly the multi-controlled
  rotation and phase (`decompose/phase_polynomial.rs`,
  `mc_gate/flip_semantics.rs`, `mc_gate/rz_semantics.rs`,
  `mc_gate/phase_semantics.rs`). `mc_gate/primitives.rs` holds the
  single-family entry points over explicit controls and work qubits.
- `decompose/basis.rs` selects the target standard-gate basis.

The circuit model holds no control-flow instructions; the control-flow
settings of the configurations are recorded but change no result.

`app/` holds the parts that work on floating-point angles (numeric
normalization of standard gates, numeric Euler synthesis of one-qubit
gates, the conditional phase of a controlled `U`) and the rendering of
error messages.
`tests/` exercises the library with a small state-vector simulator.
