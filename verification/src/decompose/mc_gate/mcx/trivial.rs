//! Trivial MCX synthesis for at most two controls, and the relative-phase
//! Toffoli gadgets shared by the V-chain constructions.
use crate::circuit::{
    ops_view, plain, push_gate1, push_gate2, push_gate3, OpView, Operation, Qubit, StandardGate, ValueOperation,
};
use crate::decompose::mc_gate::mcx::utils::{inverse_op, inverse_result, inverted_suffix, lemma_inverse_split};
use crate::decompose::mcx::trivial_mcx;
use crate::error::{CompilerError, McxFailure};
use crate::semantics::{concat_qubits, find_duplicate, first_duplicate};
use vstd::prelude::*;

verus! {

/// Result of the trivial MCX decomposition.
pub open spec fn small_mcx_result(controls: Seq<Qubit>, target: Qubit) -> Result<Seq<OpView>, McxFailure> {
    let qubits = controls + seq![target];
    if first_duplicate(qubits) is Some {
        Err(McxFailure::DuplicateQubit(first_duplicate(qubits)->0))
    } else if controls.len() > 2 {
        Err(McxFailure::TooManyTrivialControls(controls.len() as usize))
    } else {
        Ok(trivial_mcx(controls, target))
    }
}

/// Whether a decomposition result matches its specification.
pub open spec fn result_matches(r: Result<Vec<Operation>, CompilerError>, expected: Result<Seq<OpView>, McxFailure>) -> bool {
    match expected {
        Ok(ops) => r matches Ok(v) && ops_view(v@) == ops,
        Err(e) => r matches Err(CompilerError::McxFailed(f)) && f == e,
    }
}

/// Decomposes an MCX with at most two controls into `X`, `CX`, or `CCX`.
///
/// Qubits are validated for distinctness before the control count is checked.
pub fn decompose_mcx_small(controls: &[Qubit], target: Qubit) -> (r: Result<Vec<ValueOperation>, CompilerError>)
    ensures
        result_matches(r, small_mcx_result(controls@, target)),
{
    let target_group = [target];
    let none: [Qubit; 0] = [];
    let all = concat_qubits(controls, &target_group, &none);
    proof {
        assert(target_group@ =~= seq![target]);
        assert(all@ =~= controls@ + seq![target]);
    }
    if let Some(q) = find_duplicate(all.as_slice()) {
        return Err(CompilerError::McxFailed(McxFailure::DuplicateQubit(q)));
    }
    if controls.len() > 2 {
        return Err(CompilerError::McxFailed(McxFailure::TooManyTrivialControls(controls.len())));
    }
    let mut operations: Vec<Operation> = Vec::new();
    emit_small(&mut operations, controls, target);
    Ok(operations)
}

/// Appends `X`, `CX`, or `CCX` for at most two controls.
pub fn emit_small(operations: &mut Vec<Operation>, controls: &[Qubit], target: Qubit)
    requires
        controls.len() <= 2,
    ensures
        ops_view(final(operations)@) == ops_view(old(operations)@) + trivial_mcx(controls@, target),
{
    let ghost start = ops_view(operations@);
    if controls.len() == 0 {
        push_gate1(operations, StandardGate::X, target);
        proof {
            assert(ops_view(operations@) =~= start + trivial_mcx(controls@, target));
        }
    } else if controls.len() == 1 {
        push_gate2(operations, StandardGate::CX, controls[0], target);
        proof {
            assert(ops_view(operations@) =~= start + trivial_mcx(controls@, target));
        }
    } else {
        push_gate3(operations, StandardGate::CCX, controls[0], controls[1], target);
        proof {
            assert(ops_view(operations@) =~= start + trivial_mcx(controls@, target));
        }
    }
}

/// Relative-phase Toffoli on `first`, `second` controlling `target`.
pub open spec fn rccx(first: Qubit, second: Qubit, target: Qubit) -> Seq<OpView> {
    seq![
        plain(StandardGate::H, seq![target]),
        plain(StandardGate::T, seq![target]),
        plain(StandardGate::CX, seq![first, target]),
        plain(StandardGate::TDG, seq![target]),
        plain(StandardGate::CX, seq![second, target]),
        plain(StandardGate::T, seq![target]),
        plain(StandardGate::CX, seq![first, target]),
        plain(StandardGate::TDG, seq![target]),
        plain(StandardGate::H, seq![target]),
    ]
}

/// Action half of a relative-phase Toffoli.
pub open spec fn action_gadget(first: Qubit, second: Qubit, target: Qubit) -> Seq<OpView> {
    seq![
        plain(StandardGate::H, seq![target]),
        plain(StandardGate::T, seq![target]),
        plain(StandardGate::CX, seq![first, target]),
        plain(StandardGate::TDG, seq![target]),
        plain(StandardGate::CX, seq![second, target]),
    ]
}

/// Reset half of a relative-phase Toffoli, the inverse of the action half.
pub open spec fn reset_gadget(first: Qubit, second: Qubit, target: Qubit) -> Seq<OpView> {
    seq![
        plain(StandardGate::CX, seq![second, target]),
        plain(StandardGate::T, seq![target]),
        plain(StandardGate::CX, seq![first, target]),
        plain(StandardGate::TDG, seq![target]),
        plain(StandardGate::H, seq![target]),
    ]
}

/// Inverting a sequence of invertible parameter-free operations gives the
/// per-operation inverses in reverse order.
pub proof fn lemma_inverse_all(s: Seq<OpView>)
    requires
        forall|j: int| 0 <= j < s.len() ==> inverse_op(#[trigger] s[j]) is Some && s[j].params.len() == 0,
    ensures
        inverse_result(s) == Ok::<Seq<OpView>, McxFailure>(inverted_suffix(s, 0)),
{
    lemma_inverse_split(s, 0);
    assert(s.subrange(0, 0) =~= Seq::<OpView>::empty());
    assert(inverted_suffix(s, 0) + Seq::<OpView>::empty() =~= inverted_suffix(s, 0));
}

/// A relative-phase Toffoli is its own inverse as a gate sequence.
pub proof fn lemma_rccx_self_inverse(first: Qubit, second: Qubit, target: Qubit)
    ensures
        inverse_result(rccx(first, second, target)) == Ok::<Seq<OpView>, McxFailure>(rccx(first, second, target)),
{
    let s = rccx(first, second, target);
    lemma_inverse_all(s);
    assert(inverted_suffix(s, 0) =~= s);
}

/// The reset half of a relative-phase Toffoli undoes its action half.
pub proof fn lemma_action_reset_inverse(first: Qubit, second: Qubit, target: Qubit)
    ensures
        inverse_result(action_gadget(first, second, target)) == Ok::<Seq<OpView>, McxFailure>(reset_gadget(first, second, target)),
        inverse_result(reset_gadget(first, second, target)) == Ok::<Seq<OpView>, McxFailure>(action_gadget(first, second, target)),
{
    let a = action_gadget(first, second, target);
    let r = reset_gadget(first, second, target);
    lemma_inverse_all(a);
    lemma_inverse_all(r);
    assert(inverted_suffix(a, 0) =~= r);
    assert(inverted_suffix(r, 0) =~= a);
}

/// Appends a relative-phase Toffoli.
pub fn emit_relative_phase_toffoli(operations: &mut Vec<Operation>, first: Qubit, second: Qubit, target: Qubit)
    ensures
        ops_view(final(operations)@) == ops_view(old(operations)@) + rccx(first, second, target),
{
    let ghost start = ops_view(operations@);
    push_gate1(operations, StandardGate::H, target);
    push_gate1(operations, StandardGate::T, target);
    push_gate2(operations, StandardGate::CX, first, target);
    push_gate1(operations, StandardGate::TDG, target);
    push_gate2(operations, StandardGate::CX, second, target);
    push_gate1(operations, StandardGate::T, target);
    push_gate2(operations, StandardGate::CX, first, target);
    push_gate1(operations, StandardGate::TDG, target);
    push_gate1(operations, StandardGate::H, target);
    proof {
        assert(ops_view(operations@) =~= start + rccx(first, second, target));
    }
}

/// Appends the action half of a relative-phase Toffoli.
pub fn emit_action_gadget(operations: &mut Vec<Operation>, first: Qubit, second: Qubit, target: Qubit)
    ensures
        ops_view(final(operations)@) == ops_view(old(operations)@) + action_gadget(first, second, target),
{
    let ghost start = ops_view(operations@);
    push_gate1(operations, StandardGate::H, target);
    push_gate1(operations, StandardGate::T, target);
    push_gate2(operations, StandardGate::CX, first, target);
    push_gate1(operations, StandardGate::TDG, target);
    push_gate2(operations, StandardGate::CX, second, target);
    proof {
        assert(ops_view(operations@) =~= start + action_gadget(first, second, target));
    }
}

/// Appends the reset half of a relative-phase Toffoli.
pub fn emit_reset_gadget(operations: &mut Vec<Operation>, first: Qubit, second: Qubit, target: Qubit)
    ensures
        ops_view(final(operations)@) == ops_view(old(operations)@) + reset_gadget(first, second, target),
{
    let ghost start = ops_view(operations@);
    push_gate2(operations, StandardGate::CX, second, target);
    push_gate1(operations, StandardGate::T, target);
    push_gate2(operations, StandardGate::CX, first, target);
    push_gate1(operations, StandardGate::TDG, target);
    push_gate1(operations, StandardGate::H, target);
    proof {
        assert(ops_view(operations@) =~= start + reset_gadget(first, second, target));
    }
}

} // verus!
