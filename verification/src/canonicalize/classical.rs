//! The structural pass preserves the basis-state action of circuits built
//! from `X`, `CX`, `CCX`, multi-controlled wrappers of them, identities and
//! barriers.
//!
//! On such circuits each operation either flips its last operand when all
//! other operands are set, or does nothing. Collapsing wrappers, sorting
//! barrier scopes, dropping no-ops and merging barriers change none of it.
use crate::canonicalize::config::CanonicalizeSettings;
use crate::canonicalize::linear::{canonical_form, canonical_op, is_barrier, push_merged, structural_pass};
use crate::circuit::{gate_qubit_count, Directive, Instruction, OpView, Qubit, StandardGate};
use crate::semantics::mcx_state;
use vstd::prelude::*;

verus! {

/// Whether a standard gate flips its last operand under its other operands.
pub open spec fn is_flip_gate(g: StandardGate) -> bool {
    g == StandardGate::X || g == StandardGate::CX || g == StandardGate::CCX
}

/// Whether an operation acts on basis states as a controlled flip of its
/// last operand or as the identity, with the operand count its gate has.
pub open spec fn is_basis_op(op: OpView) -> bool {
    &&& op.params.len() == 0
    &&& match op.instruction {
        Instruction::Standard(g) => (is_flip_gate(g) || g == StandardGate::I) && op.qubits.len() == gate_qubit_count(g),
        Instruction::McGate(m) => is_flip_gate(m.base) && op.qubits.len() == m.added_controls + gate_qubit_count(m.base),
        Instruction::Directive(Directive::Barrier) => true,
        Instruction::Delay => false,
    }
}

/// Whether a basis operation flips a qubit rather than acting as the identity.
pub open spec fn flips(op: OpView) -> bool {
    match op.instruction {
        Instruction::Standard(g) => is_flip_gate(g),
        Instruction::McGate(m) => is_flip_gate(m.base),
        _ => false,
    }
}

/// Basis-state action of one operation.
pub open spec fn basis_action(op: OpView, state: spec_fn(Qubit) -> bool) -> spec_fn(Qubit) -> bool {
    if flips(op) {
        mcx_state(state, op.qubits.drop_last(), op.qubits.last())
    } else {
        state
    }
}

/// Basis-state action of a sequence, first to last.
pub open spec fn basis_run(ops: Seq<OpView>, state: spec_fn(Qubit) -> bool) -> spec_fn(Qubit) -> bool
    decreases ops.len(),
{
    if ops.len() == 0 {
        state
    } else {
        basis_action(ops.last(), basis_run(ops.drop_last(), state))
    }
}

/// Canonicalizing a basis operation keeps its action, and a kept one stays a basis operation.
proof fn lemma_canonical_op_action(op: OpView, n: nat, cfg: CanonicalizeSettings)
    requires
        is_basis_op(op),
    ensures
        canonical_op(op, n, cfg) matches Ok(Some(c)) ==> is_basis_op(c) && flips(c) == flips(op) && (flips(op) ==> c.qubits == op.qubits),
        canonical_op(op, n, cfg) matches Ok(None) ==> !flips(op),
{
    let instruction = if cfg.canonicalize_instruction_form { canonical_form(op.instruction) } else { op.instruction };
    assert(instruction is Standard || instruction is McGate || is_barrier(instruction));
}

/// Merging a basis operation into the output keeps the sequence's action
/// followed by the operation's.
proof fn lemma_push_merged_action(out: Seq<OpView>, c: OpView, cfg: CanonicalizeSettings, state: spec_fn(Qubit) -> bool)
    requires
        is_basis_op(c),
        forall|i: int| 0 <= i < out.len() ==> is_basis_op(#[trigger] out[i]),
    ensures
        basis_run(push_merged(out, c, cfg), state) == basis_action(c, basis_run(out, state)),
        forall|i: int| 0 <= i < push_merged(out, c, cfg).len() ==> is_basis_op(#[trigger] push_merged(out, c, cfg)[i]),
{
    let merged = push_merged(out, c, cfg);
    if merged == out.push(c) {
        assert(merged.drop_last() =~= out);
    } else {
        let last = out.last();
        assert(is_basis_op(out[out.len() - 1]));
        assert(merged.len() == out.len());
        assert(merged.drop_last() =~= out.drop_last());
        assert(!flips(merged.last()));
        assert(!flips(last));
        assert(!flips(c));
        assert forall|i: int| 0 <= i < merged.len() implies is_basis_op(#[trigger] merged[i]) by {
            if i < out.len() - 1 {
                assert(merged[i] == out[i]);
            }
        }
    }
}

/// Law: on circuits of `X`, `CX`, `CCX`, multi-controlled wrappers of them,
/// identities and barriers, the structural pass keeps the basis-state action:
/// whatever the input state, the canonical sequence maps it as the input
/// sequence does.
pub proof fn lemma_structural_pass_preserves_basis_action(ops: Seq<OpView>, n: nat, cfg: CanonicalizeSettings, state: spec_fn(Qubit) -> bool)
    requires
        forall|i: int| 0 <= i < ops.len() ==> is_basis_op(#[trigger] ops[i]),
    ensures
        structural_pass(ops, n, cfg) matches Ok(out) ==> basis_run(out, state) == basis_run(ops, state)
            && forall|i: int| 0 <= i < out.len() ==> is_basis_op(#[trigger] out[i]),
    decreases ops.len(),
{
    if ops.len() > 0 {
        let prefix = ops.drop_last();
        assert forall|i: int| 0 <= i < prefix.len() implies is_basis_op(#[trigger] prefix[i]) by {
            assert(prefix[i] == ops[i]);
        }
        lemma_structural_pass_preserves_basis_action(prefix, n, cfg, state);
        let op = ops.last();
        assert(is_basis_op(ops[ops.len() - 1]));
        lemma_canonical_op_action(op, n, cfg);
        if let Ok(out) = structural_pass(prefix, n, cfg) {
            if let Ok(Some(c)) = canonical_op(op, n, cfg) {
                lemma_push_merged_action(out, c, cfg, state);
            }
        }
    }
}

} // verus!
