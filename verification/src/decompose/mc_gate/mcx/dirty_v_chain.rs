//! MCX synthesis using a dirty-ancilla V-chain (Iten et al.).
//!
//! For `k >= 3` controls the chain borrows `k - 2` work qubits in unknown
//! states. Each of two rounds toggles the target endpoint, propagates
//! control information backward through action gadgets, applies one
//! relative-phase Toffoli at the start of the chain, and restores the inner
//! work qubits with reset gadgets. Repeating the round removes the
//! dependence on the unknown initial work-qubit values.
use crate::circuit::{ops_view, plain, push_gate3, OpView, Operation, Qubit, StandardGate, ValueOperation};
use crate::decompose::mc_gate::mcx::trivial::{
    action_gadget, decompose_mcx_small, emit_action_gadget, emit_relative_phase_toffoli, emit_reset_gadget,
    lemma_action_reset_inverse, lemma_inverse_all, lemma_rccx_self_inverse, rccx, reset_gadget, result_matches,
    small_mcx_result,
};
use crate::decompose::mc_gate::mcx::utils::{
    ascending, descending, inverse_result, lemma_descending_extend, lemma_inverse_ascending, lemma_inverse_concat,
    lemma_inverse_descending,
};
use crate::decompose::mcx::slice_prefix;
use crate::error::{AncillaKind, CompilerError, McxFailure};
use crate::semantics::{concat_qubits, find_duplicate, first_duplicate};
use vstd::prelude::*;

verus! {

/// Endpoint construction of the dirty V-chain.
#[derive(Clone, Copy, Debug, PartialEq, Eq, Hash, Structural)]
pub enum DirtyVChainMode {
    /// Both endpoints are `CCX`: the sequence is an ordinary MCX.
    Exact,
    /// The first endpoint is an action gadget and the second its reset
    /// gadget: the bit-flip behavior of MCX, up to relative phases.
    RelativePhase,
}

/// Action gadget `i` of the backward propagation.
pub open spec fn action_step(controls: Seq<Qubit>, used: Seq<Qubit>) -> spec_fn(int) -> Seq<OpView> {
    |i: int| action_gadget(controls[i + 2], used[i], used[i + 1])
}

/// Reset gadget `i` of the restoration.
pub open spec fn reset_step(controls: Seq<Qubit>, used: Seq<Qubit>) -> spec_fn(int) -> Seq<OpView> {
    |i: int| reset_gadget(controls[i + 2], used[i], used[i + 1])
}

/// Endpoint of round `round` (0 or 1) toggling the target.
pub open spec fn dirty_endpoint(mode: DirtyVChainMode, round: nat, controls: Seq<Qubit>, target: Qubit, used: Seq<Qubit>) -> Seq<OpView> {
    let last_control = controls.last();
    let last_ancilla = used.last();
    match mode {
        DirtyVChainMode::Exact => seq![plain(StandardGate::CCX, seq![last_control, last_ancilla, target])],
        DirtyVChainMode::RelativePhase => if round == 0 {
            action_gadget(last_control, last_ancilla, target)
        } else {
            reset_gadget(last_control, last_ancilla, target)
        },
    }
}

/// One round of the dirty V-chain.
pub open spec fn dirty_round(mode: DirtyVChainMode, round: nat, controls: Seq<Qubit>, target: Qubit, used: Seq<Qubit>) -> Seq<OpView> {
    let inner = (controls.len() - 3) as nat;
    dirty_endpoint(mode, round, controls, target, used) + descending(action_step(controls, used), inner, 0)
        + rccx(controls[0], controls[1], used[0]) + ascending(reset_step(controls, used), inner)
}

/// The full dirty V-chain: two rounds.
pub open spec fn dirty_v_chain_mcx(mode: DirtyVChainMode, controls: Seq<Qubit>, target: Qubit, used: Seq<Qubit>) -> Seq<OpView> {
    dirty_round(mode, 0, controls, target, used) + dirty_round(mode, 1, controls, target, used)
}

/// Result of the dirty V-chain decomposition in the given mode.
pub open spec fn n_dirty_result(mode: DirtyVChainMode, controls: Seq<Qubit>, target: Qubit, dirty: Seq<Qubit>) -> Result<Seq<OpView>, McxFailure> {
    if controls.len() <= 2 {
        small_mcx_result(controls, target)
    } else {
        let required = (controls.len() - 2) as nat;
        if dirty.len() < required {
            Err(McxFailure::VChainAncillasMissing {
                kind: AncillaKind::Dirty,
                controls: controls.len() as usize,
                required: required as usize,
                got: dirty.len() as usize,
            })
        } else {
            let used = dirty.subrange(0, required as int);
            let qubits = controls + seq![target] + used;
            if first_duplicate(qubits) is Some {
                Err(McxFailure::DuplicateQubit(first_duplicate(qubits)->0))
            } else {
                Ok(dirty_v_chain_mcx(mode, controls, target, used))
            }
        }
    }
}

/// Decomposes an exact MCX using `controls.len() - 2` borrowed work qubits.
///
/// Each consumed work qubit may enter in any state and is restored exactly;
/// extra work qubits are ignored. At most two controls delegate to the
/// trivial decomposition.
pub fn decompose_mcx_n_dirty(controls: &[Qubit], target: Qubit, dirty_ancillas: &[Qubit]) -> (r: Result<Vec<ValueOperation>, CompilerError>)
    ensures
        result_matches(r, n_dirty_result(DirtyVChainMode::Exact, controls@, target, dirty_ancillas@)),
{
    decompose_dirty_v_chain(controls, target, dirty_ancillas, DirtyVChainMode::Exact)
}

/// Decomposes an MCX up to relative phases using borrowed work qubits.
///
/// Same bit-flip behavior and work-qubit restoration as
/// [`decompose_mcx_n_dirty`], but may add basis-state-dependent phases; it is
/// meant for constructions that cancel them.
pub fn decompose_relative_phase_mcx_n_dirty(controls: &[Qubit], target: Qubit, dirty_ancillas: &[Qubit]) -> (r: Result<Vec<ValueOperation>, CompilerError>)
    ensures
        result_matches(r, n_dirty_result(DirtyVChainMode::RelativePhase, controls@, target, dirty_ancillas@)),
{
    decompose_dirty_v_chain(controls, target, dirty_ancillas, DirtyVChainMode::RelativePhase)
}

/// Validates the inputs, then emits both rounds.
fn decompose_dirty_v_chain(controls: &[Qubit], target: Qubit, dirty_ancillas: &[Qubit], mode: DirtyVChainMode) -> (r: Result<Vec<ValueOperation>, CompilerError>)
    ensures
        result_matches(r, n_dirty_result(mode, controls@, target, dirty_ancillas@)),
{
    if controls.len() <= 2 {
        return decompose_mcx_small(controls, target);
    }
    let required = controls.len() - 2;
    if dirty_ancillas.len() < required {
        return Err(CompilerError::McxFailed(McxFailure::VChainAncillasMissing {
            kind: AncillaKind::Dirty,
            controls: controls.len(),
            required,
            got: dirty_ancillas.len(),
        }));
    }
    let used = slice_prefix(dirty_ancillas, required);
    let target_group = [target];
    let all = concat_qubits(controls, &target_group, used.as_slice());
    proof {
        assert(target_group@ =~= seq![target]);
    }
    if let Some(q) = find_duplicate(all.as_slice()) {
        return Err(CompilerError::McxFailed(McxFailure::DuplicateQubit(q)));
    }
    let mut operations: Vec<Operation> = Vec::new();
    emit_dirty_round(&mut operations, controls, target, used.as_slice(), mode, 0);
    emit_dirty_round(&mut operations, controls, target, used.as_slice(), mode, 1);
    proof {
        assert(ops_view(operations@) =~= dirty_v_chain_mcx(mode, controls@, target, used@));
    }
    Ok(operations)
}

/// Appends one round of the dirty V-chain.
fn emit_dirty_round(operations: &mut Vec<Operation>, controls: &[Qubit], target: Qubit, used: &[Qubit], mode: DirtyVChainMode, round: u8)
    requires
        controls.len() >= 3,
        used.len() == controls.len() - 2,
        round <= 1,
    ensures
        ops_view(final(operations)@) == ops_view(old(operations)@) + dirty_round(mode, round as nat, controls@, target, used@),
{
    let ghost start = ops_view(operations@);
    let ghost actions = action_step(controls@, used@);
    let ghost resets = reset_step(controls@, used@);
    let last_control = controls[controls.len() - 1];
    let last_ancilla = used[used.len() - 1];
    match mode {
        DirtyVChainMode::Exact => {
            push_gate3(operations, StandardGate::CCX, last_control, last_ancilla, target);
        },
        DirtyVChainMode::RelativePhase => {
            if round == 0 {
                emit_action_gadget(operations, last_control, last_ancilla, target);
            } else {
                emit_reset_gadget(operations, last_control, last_ancilla, target);
            }
        },
    }
    let ghost endpoint = dirty_endpoint(mode, round as nat, controls@, target, used@);
    let inner = controls.len() - 3;
    proof {
        assert(ops_view(operations@) =~= start + endpoint);
        assert(descending(actions, inner as nat, inner as nat) =~= Seq::<OpView>::empty());
        assert(ops_view(operations@) =~= start + endpoint + descending(actions, inner as nat, inner as nat));
    }
    let mut i: usize = inner;
    while i > 0
        invariant
            i <= inner,
            inner == controls.len() - 3,
            used.len() == controls.len() - 2,
            actions == action_step(controls@, used@),
            ops_view(operations@) == start + endpoint + descending(actions, inner as nat, i as nat),
        decreases i,
    {
        emit_action_gadget(operations, controls[i + 1], used[i - 1], used[i]);
        proof {
            assert(actions(i - 1) == action_gadget(controls@[i + 1], used@[i - 1], used@[i as int]));
            lemma_descending_extend(actions, inner as nat, i as nat);
            assert(ops_view(operations@) =~= start + endpoint + descending(actions, inner as nat, (i - 1) as nat));
        }
        i = i - 1;
    }
    emit_relative_phase_toffoli(operations, controls[0], controls[1], used[0]);
    let ghost head = start + endpoint + descending(actions, inner as nat, 0) + rccx(controls@[0], controls@[1], used@[0]);
    proof {
        assert(ascending(resets, 0) =~= Seq::<OpView>::empty());
        assert(ops_view(operations@) =~= head + ascending(resets, 0));
    }
    let mut j: usize = 0;
    while j < inner
        invariant
            j <= inner,
            inner == controls.len() - 3,
            used.len() == controls.len() - 2,
            resets == reset_step(controls@, used@),
            ops_view(operations@) == head + ascending(resets, j as nat),
        decreases inner - j,
    {
        emit_reset_gadget(operations, controls[j + 2], used[j], used[j + 1]);
        proof {
            assert(resets(j as int) == reset_gadget(controls@[j + 2], used@[j as int], used@[j + 1]));
            assert(ops_view(operations@) =~= head + ascending(resets, (j + 1) as nat));
        }
        j = j + 1;
    }
    proof {
        assert(ops_view(operations@) =~= start + dirty_round(mode, round as nat, controls@, target, used@));
    }
}

/// Within each round the reset ladder exactly undoes the action ladder, so
/// the inner work qubits end where they started.
pub proof fn lemma_dirty_round_restores(controls: Seq<Qubit>, used: Seq<Qubit>)
    requires
        controls.len() >= 3,
        used.len() == controls.len() - 2,
    ensures
        inverse_result(descending(action_step(controls, used), (controls.len() - 3) as nat, 0))
            == Ok::<Seq<OpView>, McxFailure>(ascending(reset_step(controls, used), (controls.len() - 3) as nat)),
{
    let actions = action_step(controls, used);
    let resets = reset_step(controls, used);
    let inner = (controls.len() - 3) as nat;
    assert forall|i: int| 0 <= i < inner implies inverse_result(#[trigger] actions(i)) == Ok::<Seq<OpView>, McxFailure>(resets(i)) by {
        lemma_action_reset_inverse(controls[i + 2], used[i], used[i + 1]);
    }
    lemma_inverse_descending(actions, resets, inner);
}

/// In relative-phase mode the second endpoint undoes the first; in exact
/// mode the two rounds are identical.
pub proof fn lemma_dirty_endpoints(controls: Seq<Qubit>, target: Qubit, used: Seq<Qubit>)
    requires
        controls.len() >= 3,
        used.len() == controls.len() - 2,
    ensures
        inverse_result(dirty_endpoint(DirtyVChainMode::RelativePhase, 0, controls, target, used))
            == Ok::<Seq<OpView>, McxFailure>(dirty_endpoint(DirtyVChainMode::RelativePhase, 1, controls, target, used)),
        dirty_round(DirtyVChainMode::Exact, 0, controls, target, used)
            == dirty_round(DirtyVChainMode::Exact, 1, controls, target, used),
{
    lemma_action_reset_inverse(controls.last(), used.last(), target);
}

/// A concatenation of invertible sequences is invertible.
pub proof fn lemma_inverse_ok_concat(a: Seq<OpView>, b: Seq<OpView>)
    requires
        inverse_result(a) is Ok,
        inverse_result(b) is Ok,
    ensures
        inverse_result(a + b) is Ok,
{
    lemma_inverse_concat(a, b);
}

/// Every dirty V-chain, in either mode, can be inverted gate by gate.
pub proof fn lemma_dirty_v_chain_invertible(mode: DirtyVChainMode, controls: Seq<Qubit>, target: Qubit, used: Seq<Qubit>)
    requires
        controls.len() >= 3,
        used.len() == controls.len() - 2,
    ensures
        inverse_result(dirty_v_chain_mcx(mode, controls, target, used)) is Ok,
{
    let actions = action_step(controls, used);
    let resets = reset_step(controls, used);
    let inner = (controls.len() - 3) as nat;
    lemma_dirty_round_restores(controls, used);
    assert forall|i: int| 0 <= i < inner implies inverse_result(#[trigger] resets(i)) == Ok::<Seq<OpView>, McxFailure>(actions(i)) by {
        lemma_action_reset_inverse(controls[i + 2], used[i], used[i + 1]);
    }
    lemma_inverse_ascending(resets, actions, inner);
    lemma_rccx_self_inverse(controls[0], controls[1], used[0]);
    lemma_action_reset_inverse(controls.last(), used.last(), target);
    let ccx = dirty_endpoint(DirtyVChainMode::Exact, 0, controls, target, used);
    lemma_inverse_all(ccx);
    let tail = descending(actions, inner, 0);
    let middle = rccx(controls[0], controls[1], used[0]);
    let last = ascending(resets, inner);
    let first = dirty_endpoint(mode, 0, controls, target, used);
    lemma_inverse_ok_concat(first, tail);
    lemma_inverse_ok_concat(first + tail, middle);
    lemma_inverse_ok_concat(first + tail + middle, last);
    let second = dirty_endpoint(mode, 1, controls, target, used);
    lemma_inverse_ok_concat(second, tail);
    lemma_inverse_ok_concat(second + tail, middle);
    lemma_inverse_ok_concat(second + tail + middle, last);
    lemma_inverse_ok_concat(dirty_round(mode, 0, controls, target, used), dirty_round(mode, 1, controls, target, used));
}

} // verus!
