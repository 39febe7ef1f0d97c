//! MCX synthesis using a clean-ancilla V-chain of relative-phase Toffolis.
//!
//! For `k >= 3` controls the chain consumes `k - 2` work qubits that enter in
//! `|0>`: a ladder of relative-phase Toffolis computes the AND of the
//! controls into the last work qubit, one `CCX` toggles the target, and the
//! ladder is replayed in reverse to restore the work qubits.
use crate::circuit::{ops_view, plain, push_gate3, OpView, Operation, Qubit, StandardGate, ValueOperation};
use crate::decompose::mc_gate::mcx::trivial::{
    decompose_mcx_small, emit_relative_phase_toffoli, lemma_rccx_self_inverse, rccx, result_matches,
    small_mcx_result,
};
use crate::decompose::mc_gate::mcx::utils::{
    ascending, descending, inverse_result, lemma_descending_extend, lemma_inverse_ascending,
};
use crate::decompose::mcx::slice_prefix;
use crate::error::{AncillaKind, CompilerError, McxFailure};
use crate::semantics::{concat_qubits, find_duplicate, first_duplicate};
use vstd::prelude::*;

verus! {

/// Step `i` of the compute ladder: work qubit `i` receives the AND of
/// `controls[0..=i+1]` (up to a relative phase).
pub open spec fn clean_chain_step(controls: Seq<Qubit>, ancillas: Seq<Qubit>) -> spec_fn(int) -> Seq<OpView> {
    |i: int|
        if i == 0 {
            rccx(controls[0], controls[1], ancillas[0])
        } else {
            rccx(controls[i + 1], ancillas[i - 1], ancillas[i])
        }
}

/// The clean V-chain for `k >= 3` controls over the consumed work qubits `used`.
pub open spec fn clean_v_chain_mcx(controls: Seq<Qubit>, target: Qubit, used: Seq<Qubit>) -> Seq<OpView> {
    let m = used.len();
    let step = clean_chain_step(controls, used);
    ascending(step, m) + seq![plain(StandardGate::CCX, seq![controls.last(), used[m - 1], target])]
        + descending(step, m, 0)
}

/// Result of the clean V-chain decomposition.
pub open spec fn n_clean_result(controls: Seq<Qubit>, target: Qubit, clean: Seq<Qubit>) -> Result<Seq<OpView>, McxFailure> {
    if controls.len() <= 2 {
        small_mcx_result(controls, target)
    } else {
        let required = (controls.len() - 2) as nat;
        if clean.len() < required {
            Err(McxFailure::VChainAncillasMissing {
                kind: AncillaKind::Clean,
                controls: controls.len() as usize,
                required: required as usize,
                got: clean.len() as usize,
            })
        } else {
            let used = clean.subrange(0, required as int);
            let qubits = controls + seq![target] + used;
            if first_duplicate(qubits) is Some {
                Err(McxFailure::DuplicateQubit(first_duplicate(qubits)->0))
            } else {
                Ok(clean_v_chain_mcx(controls, target, used))
            }
        }
    }
}

/// Decomposes an MCX using `controls.len() - 2` clean work qubits.
///
/// Each consumed work qubit must enter in `|0>` and is restored to `|0>`;
/// extra work qubits are ignored. At most two controls delegate to the
/// trivial decomposition and consume nothing.
pub fn decompose_mcx_n_clean(controls: &[Qubit], target: Qubit, clean_ancillas: &[Qubit]) -> (r: Result<Vec<ValueOperation>, CompilerError>)
    ensures
        result_matches(r, n_clean_result(controls@, target, clean_ancillas@)),
{
    if controls.len() <= 2 {
        return decompose_mcx_small(controls, target);
    }
    let required = controls.len() - 2;
    if clean_ancillas.len() < required {
        return Err(CompilerError::McxFailed(McxFailure::VChainAncillasMissing {
            kind: AncillaKind::Clean,
            controls: controls.len(),
            required,
            got: clean_ancillas.len(),
        }));
    }
    let used = slice_prefix(clean_ancillas, required);
    let target_group = [target];
    let all = concat_qubits(controls, &target_group, used.as_slice());
    proof {
        assert(target_group@ =~= seq![target]);
    }
    if let Some(q) = find_duplicate(all.as_slice()) {
        return Err(CompilerError::McxFailed(McxFailure::DuplicateQubit(q)));
    }
    let mut operations: Vec<Operation> = Vec::new();
    emit_clean_v_chain(&mut operations, controls, target, used.as_slice());
    proof {
        assert(ops_view(operations@) =~= clean_v_chain_mcx(controls@, target, used@));
    }
    Ok(operations)
}

/// Appends the clean V-chain.
fn emit_clean_v_chain(operations: &mut Vec<Operation>, controls: &[Qubit], target: Qubit, used: &[Qubit])
    requires
        controls.len() >= 3,
        used.len() == controls.len() - 2,
    ensures
        ops_view(final(operations)@) == ops_view(old(operations)@) + clean_v_chain_mcx(controls@, target, used@),
{
    let ghost start = ops_view(operations@);
    let ghost step = clean_chain_step(controls@, used@);
    let m = used.len();
    emit_relative_phase_toffoli(operations, controls[0], controls[1], used[0]);
    proof {
        assert(ascending(step, 0) =~= Seq::<OpView>::empty());
        assert(ops_view(operations@) =~= start + ascending(step, 1));
    }
    let mut i: usize = 1;
    while i < m
        invariant
            1 <= i <= m,
            m == used.len(),
            used.len() == controls.len() - 2,
            step == clean_chain_step(controls@, used@),
            ops_view(operations@) == start + ascending(step, i as nat),
        decreases m - i,
    {
        emit_relative_phase_toffoli(operations, controls[i + 1], used[i - 1], used[i]);
        proof {
            assert(step(i as int) == rccx(controls@[i + 1], used@[i - 1], used@[i as int]));
            assert(ops_view(operations@) =~= start + ascending(step, (i + 1) as nat));
        }
        i = i + 1;
    }
    let ghost middle = seq![plain(StandardGate::CCX, seq![controls@.last(), used@[m - 1], target])];
    push_gate3(operations, StandardGate::CCX, controls[controls.len() - 1], used[m - 1], target);
    proof {
        assert(descending(step, m as nat, m as nat) =~= Seq::<OpView>::empty());
        assert(ops_view(operations@) =~= start + ascending(step, m as nat) + middle + descending(step, m as nat, m as nat));
    }
    let mut j: usize = m;
    while j > 1
        invariant
            1 <= j <= m,
            m == used.len(),
            used.len() == controls.len() - 2,
            step == clean_chain_step(controls@, used@),
            middle == seq![plain(StandardGate::CCX, seq![controls@.last(), used@[m - 1], target])],
            ops_view(operations@) == start + ascending(step, m as nat) + middle + descending(step, m as nat, j as nat),
        decreases j,
    {
        emit_relative_phase_toffoli(operations, controls[j], used[j - 2], used[j - 1]);
        proof {
            assert(step(j - 1) == rccx(controls@[j as int], used@[j - 2], used@[j - 1]));
            lemma_descending_extend(step, m as nat, j as nat);
            assert(ops_view(operations@) =~= start + ascending(step, m as nat) + middle + descending(step, m as nat, (j - 1) as nat));
        }
        j = j - 1;
    }
    emit_relative_phase_toffoli(operations, controls[0], controls[1], used[0]);
    proof {
        assert(step(0) == rccx(controls@[0], controls@[1], used@[0]));
        lemma_descending_extend(step, m as nat, 1);
        assert(ops_view(operations@) =~= start + clean_v_chain_mcx(controls@, target, used@));
    }
}

/// The uncompute half of the clean V-chain is exactly the inverse of its
/// compute half, which is what returns every consumed work qubit to `|0>`.
pub proof fn lemma_clean_v_chain_uncomputes(controls: Seq<Qubit>, used: Seq<Qubit>)
    requires
        controls.len() >= 3,
        used.len() == controls.len() - 2,
    ensures
        inverse_result(ascending(clean_chain_step(controls, used), used.len()))
            == Ok::<Seq<OpView>, McxFailure>(descending(clean_chain_step(controls, used), used.len(), 0)),
{
    let step = clean_chain_step(controls, used);
    assert forall|i: int| 0 <= i < used.len() implies inverse_result(#[trigger] step(i)) == Ok::<Seq<OpView>, McxFailure>(step(i)) by {
        if i == 0 {
            lemma_rccx_self_inverse(controls[0], controls[1], used[0]);
        } else {
            lemma_rccx_self_inverse(controls[i + 1], used[i - 1], used[i]);
        }
    }
    lemma_inverse_ascending(step, step, used.len());
}

} // verus!
