//! Every lowering touches only the lowered gate's operands and the
//! configured work qubits.
//!
//! The MCX primitives and phase components act on their controls, their
//! target, and the clean or borrowed qubits the configuration supplies;
//! nested lowerings act on operands of the outer gate. The lemmas below
//! follow the recursion of the lowering specifications family by family.
use crate::circuit::{Angle, CircuitParam, McGate, OpView, Qubit, StandardGate};
use crate::decompose::mc_gate::decompose::{
    family_of, gate_rank, lifted_result, mc_gate_result, operand_model, validation_issue, AncillaMode, LoweringConfig,
    McGateFamily, OperandModel,
};
use crate::decompose::mc_gate::one_qubit::{
    conditional_phase, euler_angles, lifted_if_needed, lifted_rotation, named_half_rotation, one_qubit_family,
    synthesized, then,
};
use crate::decompose::mc_gate::pauli::{mcx_lowering, pauli_family};
use crate::decompose::mc_gate::pauli_interaction::{base_interaction, lift_all, lift_bound, lift_step, pauli_interaction_family};
use crate::decompose::mc_gate::rx_ry::{half_pi, lifted_rz, rotation_op, rx_ry_family};
use crate::decompose::mc_gate::fsim::{fsim_body, fsim_family};
use crate::decompose::mc_gate::phase::{phase_angle, phase_family};
use crate::decompose::mc_gate::rz::{rz_family, rz_lifted};
use crate::decompose::mc_gate::swap::swap_family;
use crate::decompose::mc_gate::phase_ops::{phase_component, phase_pair, phase_terms};
use crate::decompose::mcx::{
    clean_ancilla_mcx_result, clean_required, lemma_subset_nonempty, subset_of, two_pow,
};
use crate::decompose::mcx_operands::{
    confined, lemma_clean_mcx_confined, lemma_confined_concat, lemma_confined_reverse, lemma_confined_widen,
    lemma_dirty_mcx_confined, lemma_no_ancilla_mcx_confined, lemma_parity_rotation_confined, lemma_subset_contained,
};
use crate::error::{EulerStep, LoweringFamily, NestedStep};
use vstd::prelude::*;
use vstd::seq_lib::{lemma_seq_concat_contains_all_elements, lemma_seq_contains_after_push, lemma_seq_subrange_elements};

verus! {

/// Whether every element of `s` is one of `allowed`.
pub open spec fn covered(s: Seq<Qubit>, allowed: Seq<Qubit>) -> bool {
    forall|q: Qubit| s.contains(q) ==> allowed.contains(q)
}

/// The qubits a lowering may touch: the operands, and the work qubits of
/// the configured strategy only (none without ancillas, the clean ones in
/// clean mode, the borrowed ones in dirty mode).
pub open spec fn lowering_pool(qubits: Seq<Qubit>, c: LoweringConfig) -> Seq<Qubit> {
    match c.mode {
        AncillaMode::NoAncilla => qubits,
        AncillaMode::CleanAncilla => qubits + c.clean,
        AncillaMode::DirtyAncilla => qubits + c.dirty,
    }
}

/// Whether the work qubits of the configured strategy are all allowed.
pub open spec fn work_covered(c: LoweringConfig, allowed: Seq<Qubit>) -> bool {
    &&& c.mode == AncillaMode::CleanAncilla ==> covered(c.clean, allowed)
    &&& c.mode == AncillaMode::DirtyAncilla ==> covered(c.dirty, allowed)
}

/// A subrange holds only elements of the full sequence.
proof fn lemma_subrange_covered(s: Seq<Qubit>, start: int, stop: int, allowed: Seq<Qubit>)
    requires
        0 <= start <= stop <= s.len(),
        covered(s, allowed),
    ensures
        covered(s.subrange(start, stop), allowed),
{
    broadcast use lemma_seq_subrange_elements;
    assert forall|q: Qubit| s.subrange(start, stop).contains(q) implies allowed.contains(q) by {
        let i = choose|i: int| 0 <= start <= i < stop <= s.len() && #[trigger] s[i] == q;
        assert(s.contains(s[i]));
    }
}

/// The MCX lowering touches only its controls, its target, and the
/// configured work qubits.
proof fn lemma_mcx_lowering_confined(m: OperandModel, c: LoweringConfig, family: LoweringFamily, controls: Seq<Qubit>, target: Qubit, allowed: Seq<Qubit>)
    requires
        covered(controls, allowed),
        allowed.contains(target),
        work_covered(c, allowed),
    ensures
        mcx_lowering(m, c, family, controls, target) matches Ok(ops) ==> confined(ops, allowed),
{
    broadcast use lemma_seq_concat_contains_all_elements, lemma_seq_contains_after_push;
    let n = controls.len();
    if let Ok(ops) = mcx_lowering(m, c, family, controls, target) {
        assert(covered(controls.push(target), allowed));
        if c.mode == AncillaMode::CleanAncilla {
            let used = c.clean.subrange(0, clean_required(n) as int);
            lemma_clean_mcx_confined(controls, target, c.clean);
            lemma_subrange_covered(c.clean, 0, clean_required(n) as int, allowed);
            assert(covered(controls + seq![target] + used, allowed));
            lemma_confined_widen(ops, controls + seq![target] + used, allowed);
        } else if c.mode == AncillaMode::DirtyAncilla && n > 2 {
            let dirty = c.dirty[0];
            assert(c.dirty.contains(dirty));
            lemma_dirty_mcx_confined(controls, target, dirty);
            assert(covered(controls + seq![target, dirty], allowed));
            lemma_confined_widen(ops, controls + seq![target, dirty], allowed);
        } else {
            lemma_no_ancilla_mcx_confined(controls, target);
            lemma_confined_widen(ops, controls.push(target), allowed);
        }
    }
}

/// The parity phases over subsets of `qubits` touch only `qubits`.
proof fn lemma_phase_terms_confined(qubits: Seq<Qubit>, masks: nat, pos: Angle, neg: Angle)
    requires
        masks <= two_pow(qubits.len()),
    ensures
        confined(phase_terms(qubits, masks, pos, neg), qubits),
    decreases masks,
{
    if masks > 1 {
        let mask = (masks - 1) as nat;
        let subset = subset_of(qubits, mask);
        let angle = if subset.len() % 2 == 0 { neg } else { pos };
        lemma_phase_terms_confined(qubits, mask, pos, neg);
        lemma_subset_nonempty(qubits, mask);
        lemma_subset_contained(qubits, mask);
        lemma_parity_rotation_confined(StandardGate::Phase, subset, angle, qubits);
        lemma_confined_concat(
            phase_terms(qubits, mask, pos, neg),
            crate::decompose::mcx::parity_rotation(StandardGate::Phase, subset, angle),
            qubits,
        );
    }
}

/// A phase component touches only its controls, its target, and the
/// configured clean qubits.
proof fn lemma_phase_component_confined(m: OperandModel, c: LoweringConfig, family: LoweringFamily, controls: Seq<Qubit>, target: Qubit, theta: Angle, allowed: Seq<Qubit>)
    requires
        covered(controls, allowed),
        allowed.contains(target),
        work_covered(c, allowed),
    ensures
        phase_component(m, c, family, controls, target, theta) matches Ok(ops) ==> confined(ops, allowed),
{
    broadcast use lemma_seq_concat_contains_all_elements, lemma_seq_contains_after_push;
    let k = controls.len();
    if let Ok(ops) = phase_component(m, c, family, controls, target, theta) {
        let qubits = controls.push(target);
        assert(covered(qubits, allowed));
        if c.mode == AncillaMode::NoAncilla {
            let q = qubits.len();
            let pos = crate::circuit::scaled_angle(theta, 1, (q - 1) as nat)->Some_0;
            let neg = crate::circuit::scaled_angle(theta, -1, (q - 1) as nat)->Some_0;
            lemma_phase_terms_confined(qubits, two_pow(q), pos, neg);
            lemma_confined_widen(ops, qubits, allowed);
        } else if k == 0 {
            assert(ops[0].qubits[0] == target);
        } else if k == 1 {
            assert(controls.contains(controls[0]));
        } else {
            let flag = c.clean[0];
            let work = c.clean.subrange(1, k - 1);
            assert(c.clean.contains(flag));
            lemma_subrange_covered(c.clean, 1, k - 1, allowed);
            let compute = clean_ancilla_mcx_result(controls, flag, work)->Ok_0;
            lemma_clean_mcx_confined(controls, flag, work);
            lemma_subrange_covered(work, 0, clean_required(k) as int, allowed);
            let used = work.subrange(0, clean_required(k) as int);
            assert(covered(controls + seq![flag] + used, allowed));
            lemma_confined_widen(compute, controls + seq![flag] + used, allowed);
            let pair = phase_pair(flag, target, theta)->Some_0;
            assert(confined(pair, allowed));
            lemma_confined_concat(compute, pair, allowed);
            lemma_confined_reverse(compute, allowed);
            lemma_confined_concat(compute + pair, compute.reverse(), allowed);
        }
    }
}

/// Whether the model's operands and the configured work qubits are all allowed.
pub open spec fn model_covered(m: OperandModel, c: LoweringConfig, allowed: Seq<Qubit>) -> bool {
    &&& covered(m.controls, allowed)
    &&& covered(m.targets, allowed)
    &&& work_covered(c, allowed)
}

/// A concatenation of confined results is confined.
proof fn lemma_then_confined(a: Result<Seq<OpView>, crate::error::McGateFailure>, b: Result<Seq<OpView>, crate::error::McGateFailure>, allowed: Seq<Qubit>)
    requires
        a matches Ok(x) ==> confined(x, allowed),
        b matches Ok(y) ==> confined(y, allowed),
    ensures
        then(a, b) matches Ok(z) ==> confined(z, allowed),
{
    if let (Ok(x), Ok(y)) = (a, b) {
        lemma_confined_concat(x, y, allowed);
    }
}

/// The Pauli family stays within the allowed qubits.
proof fn lemma_pauli_confined(m: OperandModel, c: LoweringConfig, allowed: Seq<Qubit>)
    requires
        model_covered(m, c, allowed),
    ensures
        pauli_family(m, c) matches Ok(ops) ==> confined(ops, allowed),
{
    if m.targets.len() == 1 {
        let target = m.targets[0];
        assert(m.targets.contains(target));
        lemma_mcx_lowering_confined(m, c, LoweringFamily::Pauli, m.controls, target, allowed);
        if let Ok(body) = mcx_lowering(m, c, LoweringFamily::Pauli, m.controls, target) {
            let sdg = seq![crate::circuit::plain(StandardGate::SDG, seq![target])];
            let s = seq![crate::circuit::plain(StandardGate::S, seq![target])];
            let h = seq![crate::circuit::plain(StandardGate::H, seq![target])];
            assert(confined(sdg, allowed));
            assert(confined(s, allowed));
            assert(confined(h, allowed));
            lemma_confined_concat(sdg, body, allowed);
            lemma_confined_concat(sdg + body, s, allowed);
            lemma_confined_concat(h, body, allowed);
            lemma_confined_concat(h + body, h, allowed);
        }
    }
}

/// The SWAP family stays within the allowed qubits.
proof fn lemma_swap_confined(m: OperandModel, c: LoweringConfig, allowed: Seq<Qubit>)
    requires
        model_covered(m, c, allowed),
    ensures
        swap_family(m, c) matches Ok(ops) ==> confined(ops, allowed),
{
    broadcast use lemma_seq_contains_after_push;
    if m.targets.len() == 2 {
        let family = LoweringFamily::Swap;
        let first = m.targets[0];
        let second = m.targets[1];
        assert(m.targets.contains(first));
        assert(m.targets.contains(second));
        assert(covered(m.controls.push(first), allowed));
        assert(covered(m.controls.push(second), allowed));
        lemma_mcx_lowering_confined(m, c, family, m.controls.push(first), second, allowed);
        lemma_mcx_lowering_confined(m, c, family, m.controls.push(second), first, allowed);
        if let (Ok(x), Ok(y)) = (
            mcx_lowering(m, c, family, m.controls.push(first), second),
            mcx_lowering(m, c, family, m.controls.push(second), first),
        ) {
            lemma_confined_concat(x, y, allowed);
            lemma_confined_concat(x + y, x, allowed);
        }
    }
}

/// The `RZ`/`CRZ` family stays within the allowed qubits.
/// The Phase family stays within the allowed qubits.
proof fn lemma_phase_confined(m: OperandModel, params: Seq<CircuitParam>, c: LoweringConfig, allowed: Seq<Qubit>)
    requires
        model_covered(m, c, allowed),
    ensures
        phase_family(m, params, c) matches Ok(ops) ==> confined(ops, allowed),
{
    if m.targets.len() == 1 && phase_family(m, params, c) is Ok {
        let target = m.targets[0];
        assert(m.targets.contains(target));
        if m.controls.len() > 0 {
            let theta = phase_angle(m.base, params)->Some_0;
            lemma_phase_component_confined(m, c, LoweringFamily::Phase, m.controls, target, theta, allowed);
        }
    }
}

proof fn lemma_rz_confined(m: OperandModel, params: Seq<CircuitParam>, c: LoweringConfig, allowed: Seq<Qubit>)
    requires
        model_covered(m, c, allowed),
    ensures
        rz_family(m, params, c) matches Ok(ops) ==> confined(ops, allowed),
{
    if m.targets.len() == 1 && rz_family(m, params, c) is Ok {
        let k = m.controls.len();
        let target = m.targets[0];
        assert(m.targets.contains(target));
        if k >= 1 {
            assert(m.controls.contains(m.controls[0]));
        }
        if k >= 2 {
            let theta = params[0]->Fixed_0;
            let family = LoweringFamily::Rz;
            assert(m.controls.contains(m.controls[k - 1]));
            lemma_subrange_covered(m.controls, 0, k - 1, allowed);
            lemma_phase_component_confined(m, c, family, m.controls, target, theta, allowed);
            let h = crate::circuit::scaled_angle(theta, -1, 1)->Some_0;
            lemma_phase_component_confined(m, c, family, m.controls.subrange(0, k - 1), m.controls[k - 1], h, allowed);
            if let (Ok(x), Ok(y)) = (
                phase_component(m, c, family, m.controls, target, theta),
                phase_component(m, c, family, m.controls.subrange(0, k - 1), m.controls[k - 1], h),
            ) {
                lemma_confined_concat(x, y, allowed);
            }
            assert(rz_family(m, params, c) == rz_lifted(m, c, theta));
        }
    }
}

/// A lifted gate of lower rank stays within the allowed qubits.
proof fn lemma_lifted_result_confined(bound: nat, gate: McGate, qubits: Seq<Qubit>, params: Seq<CircuitParam>, c: LoweringConfig, step: NestedStep, allowed: Seq<Qubit>)
    requires
        covered(qubits, allowed),
        work_covered(c, allowed),
    ensures
        lifted_result(bound, gate, qubits, params, c, step) matches Ok(ops) ==> confined(ops, allowed),
    decreases bound, 0nat, 0nat,
{
    if gate_rank(gate.base) < bound {
        lemma_mc_gate_confined(gate, qubits, params, c, allowed);
    }
}

/// The target with the controls in front is covered when both are.
proof fn lemma_pushed_covered(m: OperandModel, c: LoweringConfig, allowed: Seq<Qubit>)
    requires
        model_covered(m, c, allowed),
        m.targets.len() >= 1,
    ensures
        covered(m.controls.push(m.targets[0]), allowed),
        allowed.contains(m.targets[0]),
{
    broadcast use lemma_seq_contains_after_push;
    assert(m.targets.contains(m.targets[0]));
}

/// The lifted `CRZ` of the basis-change path stays within the allowed qubits.
proof fn lemma_lifted_rz_confined(m: OperandModel, params: Seq<CircuitParam>, c: LoweringConfig, allowed: Seq<Qubit>)
    requires
        gate_rank(m.base) == 1,
        model_covered(m, c, allowed),
    ensures
        lifted_rz(m, params, c) matches Ok(ops) ==> confined(ops, allowed),
    decreases gate_rank(m.base), 0nat, 0nat,
{
    if m.controls.len() >= 1 && m.targets.len() == 1 {
        lemma_pushed_covered(m, c, allowed);
        let lifted = McGate { added_controls: (m.controls.len() - 1) as u8, base: StandardGate::CRZ };
        lemma_mc_gate_confined(lifted, m.controls.push(m.targets[0]), params, c, allowed);
    }
}

/// The `RX`/`RY`/`CRX`/`CRY` family stays within the allowed qubits.
proof fn lemma_rx_ry_confined(m: OperandModel, params: Seq<CircuitParam>, c: LoweringConfig, allowed: Seq<Qubit>)
    requires
        gate_rank(m.base) == 1,
        model_covered(m, c, allowed),
    ensures
        rx_ry_family(m, params, c) matches Ok(ops) ==> confined(ops, allowed),
    decreases gate_rank(m.base), 1nat, 0nat,
{
    if m.targets.len() == 1 {
        let target = m.targets[0];
        lemma_pushed_covered(m, c, allowed);
        if m.controls.len() >= 1 {
            assert(m.controls.contains(m.controls[0]));
        }
        lemma_lifted_rz_confined(m, params, c, allowed);
        if let Ok(rz) = lifted_rz(m, params, c) {
            let h = seq![crate::circuit::plain(StandardGate::H, seq![target])];
            let up = seq![rotation_op(StandardGate::RX, target, half_pi(1i64))];
            let down = seq![rotation_op(StandardGate::RX, target, half_pi(-1i64))];
            assert(confined(h, allowed));
            assert(confined(up, allowed));
            assert(confined(down, allowed));
            lemma_confined_concat(h, rz, allowed);
            lemma_confined_concat(h + rz, h, allowed);
            lemma_confined_concat(up, rz, allowed);
            lemma_confined_concat(up + rz, down, allowed);
        }
    }
}

/// A rotation lifted under the controls stays within the allowed qubits.
proof fn lemma_lifted_rotation_confined(m: OperandModel, c: LoweringConfig, gate: StandardGate, theta: Angle, step: NestedStep, allowed: Seq<Qubit>)
    requires
        model_covered(m, c, allowed),
        m.targets.len() >= 1,
    ensures
        lifted_rotation(m, c, gate, theta, step) matches Ok(ops) ==> confined(ops, allowed),
    decreases 2nat, 0nat, 1nat,
{
    lemma_pushed_covered(m, c, allowed);
    lemma_lifted_result_confined(
        2,
        McGate { added_controls: m.controls.len() as u8, base: gate },
        m.controls.push(m.targets[0]),
        seq![CircuitParam::Fixed(theta)],
        c,
        step,
        allowed,
    );
}

/// A lifted rotation, skipped at angle zero, stays within the allowed qubits.
proof fn lemma_lifted_if_needed_confined(m: OperandModel, c: LoweringConfig, gate: StandardGate, theta: Angle, step: NestedStep, allowed: Seq<Qubit>)
    requires
        model_covered(m, c, allowed),
        m.targets.len() >= 1,
    ensures
        lifted_if_needed(m, c, gate, theta, step) matches Ok(ops) ==> confined(ops, allowed),
    decreases 2nat, 0nat, 2nat,
{
    lemma_lifted_rotation_confined(m, c, gate, theta, step, allowed);
}

/// An Euler-synthesized gate stays within the allowed qubits.
proof fn lemma_synthesized_confined(m: OperandModel, params: Seq<CircuitParam>, c: LoweringConfig, allowed: Seq<Qubit>)
    requires
        model_covered(m, c, allowed),
        m.targets.len() >= 1,
        m.controls.len() >= 1,
    ensures
        synthesized(m, params, c) matches Ok(ops) ==> confined(ops, allowed),
    decreases 2nat, 0nat, 3nat,
{
    if let Some((phase, lambda, theta, phi)) = euler_angles(m.base) {
        let family = LoweringFamily::OneQubit;
        let k = m.controls.len() as int;
        assert(m.controls.contains(m.controls[0]));
        assert(m.controls.contains(m.controls[k - 1]));
        lemma_subrange_covered(m.controls, 0, k - 1, allowed);
        lemma_phase_component_confined(m, c, family, m.controls.subrange(0, k - 1), m.controls[k - 1], phase, allowed);
        let a = conditional_phase(m, c, phase);
        assert(a matches Ok(x) ==> confined(x, allowed));
        let step_lambda = NestedStep::EulerRotation(EulerStep::Lambda);
        let step_theta = NestedStep::EulerRotation(EulerStep::Theta);
        let step_phi = NestedStep::EulerRotation(EulerStep::Phi);
        lemma_lifted_if_needed_confined(m, c, StandardGate::RZ, lambda, step_lambda, allowed);
        lemma_lifted_if_needed_confined(m, c, StandardGate::RY, theta, step_theta, allowed);
        lemma_lifted_if_needed_confined(m, c, StandardGate::RZ, phi, step_phi, allowed);
        let b = lifted_if_needed(m, c, StandardGate::RZ, lambda, step_lambda);
        let d = lifted_if_needed(m, c, StandardGate::RY, theta, step_theta);
        let e = lifted_if_needed(m, c, StandardGate::RZ, phi, step_phi);
        lemma_then_confined(a, b, allowed);
        lemma_then_confined(then(a, b), d, allowed);
        lemma_then_confined(then(then(a, b), d), e, allowed);
    }
}

/// A half rotation stays within the allowed qubits.
proof fn lemma_named_half_confined(m: OperandModel, c: LoweringConfig, gate: StandardGate, theta: Angle, allowed: Seq<Qubit>)
    requires
        model_covered(m, c, allowed),
        m.targets.len() >= 1,
    ensures
        named_half_rotation(m, c, gate, theta) matches Ok(ops) ==> confined(ops, allowed),
    decreases 2nat, 0nat, 3nat,
{
    lemma_lifted_rotation_confined(m, c, gate, theta, NestedStep::NamedHalfRotation(m.base), allowed);
}

/// The one-qubit family stays within the allowed qubits.
proof fn lemma_one_qubit_confined(m: OperandModel, params: Seq<CircuitParam>, c: LoweringConfig, allowed: Seq<Qubit>)
    requires
        gate_rank(m.base) == 2,
        model_covered(m, c, allowed),
    ensures
        one_qubit_family(m, params, c) matches Ok(ops) ==> confined(ops, allowed),
    decreases gate_rank(m.base), 1nat, 0nat,
{
    if m.targets.len() == 1 {
        assert(m.targets.contains(m.targets[0]));
        if m.controls.len() >= 1 {
            lemma_named_half_confined(m, c, StandardGate::RX, half_pi(1i64), allowed);
            lemma_named_half_confined(m, c, StandardGate::RX, half_pi(-1i64), allowed);
            lemma_named_half_confined(m, c, StandardGate::RY, half_pi(1i64), allowed);
            lemma_named_half_confined(m, c, StandardGate::RY, half_pi(-1i64), allowed);
            lemma_synthesized_confined(m, params, c, allowed);
        }
    }
}

/// The uncontrolled interaction acts on its two qubits only.
proof fn lemma_base_interaction_confined(base: StandardGate, a: Qubit, b: Qubit, theta: CircuitParam, allowed: Seq<Qubit>)
    requires
        allowed.contains(a),
        allowed.contains(b),
    ensures
        confined(base_interaction(base, a, b, theta), allowed),
{
    let body = crate::decompose::mc_gate::pauli_interaction::rzz_body(a, b, theta);
    assert(confined(body, allowed));
    let ops = base_interaction(base, a, b, theta);
    if base == StandardGate::RXX {
        let pre = seq![crate::circuit::plain(StandardGate::H, seq![a]), crate::circuit::plain(StandardGate::H, seq![b])];
        assert(confined(pre, allowed));
        lemma_confined_concat(pre, body, allowed);
        lemma_confined_concat(pre + body, pre, allowed);
    } else if base == StandardGate::RYY {
        let pre = seq![rotation_op(StandardGate::RX, a, half_pi(1i64)), rotation_op(StandardGate::RX, b, half_pi(1i64))];
        let post = seq![rotation_op(StandardGate::RX, a, half_pi(-1i64)), rotation_op(StandardGate::RX, b, half_pi(-1i64))];
        assert(confined(pre, allowed));
        assert(confined(post, allowed));
        lemma_confined_concat(pre, body, allowed);
        lemma_confined_concat(pre + body, post, allowed);
    } else if base != StandardGate::RZZ {
        let h = seq![crate::circuit::plain(StandardGate::H, seq![b])];
        assert(confined(h, allowed));
        lemma_confined_concat(h, body, allowed);
        lemma_confined_concat(h + body, h, allowed);
    }
}

/// Lifting confined base operations stays within the allowed qubits.
proof fn lemma_lift_all_confined(m: OperandModel, c: LoweringConfig, family: LoweringFamily, ops: Seq<OpView>, budget: usize, allowed: Seq<Qubit>)
    requires
        model_covered(m, c, allowed),
        confined(ops, allowed),
    ensures
        lift_all(m, c, family, ops, budget) matches Ok(r) ==> confined(r, allowed),
    decreases lift_bound(family), 0nat, ops.len(),
{
    broadcast use lemma_seq_concat_contains_all_elements;
    if ops.len() > 0 {
        let op = ops[0];
        let g = crate::decompose::mc_gate::pauli_interaction::standard_gate_of(op);
        let nested = LoweringConfig { max_ops: budget, ..c };
        let step = lift_step(family, g);
        let gate = McGate { added_controls: m.controls.len() as u8, base: g };
        assert forall|q: Qubit| op.qubits.contains(q) implies allowed.contains(q) by {
            let j = choose|j: int| 0 <= j < op.qubits.len() && op.qubits[j] == q;
            assert(allowed.contains(ops[0].qubits[j]));
        }
        assert(covered(m.controls + op.qubits, allowed));
        lemma_lifted_result_confined(lift_bound(family), gate, m.controls + op.qubits, op.params, nested, step, allowed);
        let rest = ops.drop_first();
        assert(confined(rest, allowed)) by {
            assert forall|i: int, j: int| 0 <= i < rest.len() && 0 <= j < rest[i].qubits.len() implies allowed.contains(
                #[trigger] rest[i].qubits[j],
            ) by {
                assert(rest[i] == ops[i + 1]);
            }
        }
        if let Ok(x) = lifted_result(lift_bound(family), gate, m.controls + op.qubits, op.params, nested, step) {
            if x.len() <= budget {
                let remaining = (budget - x.len()) as usize;
                lemma_lift_all_confined(m, c, family, rest, remaining, allowed);
                lemma_then_confined(Ok(x), lift_all(m, c, family, rest, remaining), allowed);
            }
        }
    }
}

/// The Pauli-interaction family stays within the allowed qubits.
proof fn lemma_pauli_interaction_confined(m: OperandModel, params: Seq<CircuitParam>, c: LoweringConfig, allowed: Seq<Qubit>)
    requires
        gate_rank(m.base) == 3,
        model_covered(m, c, allowed),
    ensures
        pauli_interaction_family(m, params, c) matches Ok(ops) ==> confined(ops, allowed),
    decreases gate_rank(m.base), 1nat, 0nat,
{
    if m.targets.len() == 2 {
        assert(m.targets.contains(m.targets[0]));
        assert(m.targets.contains(m.targets[1]));
        let base_ops = base_interaction(m.base, m.targets[0], m.targets[1], params[0]);
        lemma_base_interaction_confined(m.base, m.targets[0], m.targets[1], params[0], allowed);
        lemma_lift_all_confined(m, c, LoweringFamily::PauliInteraction, base_ops, c.max_ops, allowed);
    }
}

/// The FSIM body on allowed qubits stays within them.
proof fn lemma_fsim_body_confined(a: Qubit, b: Qubit, theta: CircuitParam, half: Angle, negative_half: Angle, allowed: Seq<Qubit>)
    requires
        allowed.contains(a),
        allowed.contains(b),
    ensures
        confined(fsim_body(a, b, theta, half, negative_half), allowed),
{
    let ops = fsim_body(a, b, theta, half, negative_half);
    assert forall|i: int, j: int| 0 <= i < ops.len() && 0 <= j < ops[i].qubits.len() implies allowed.contains(
        #[trigger] ops[i].qubits[j],
    ) by {
        assert(ops[i].qubits[j] == a || ops[i].qubits[j] == b);
    }
}

/// The FSIM family stays within the allowed qubits.
proof fn lemma_fsim_confined(m: OperandModel, params: Seq<CircuitParam>, c: LoweringConfig, allowed: Seq<Qubit>)
    requires
        gate_rank(m.base) == 4,
        model_covered(m, c, allowed),
    ensures
        fsim_family(m, params, c) matches Ok(ops) ==> confined(ops, allowed),
    decreases gate_rank(m.base), 1nat, 0nat,
{
    if m.targets.len() == 2 {
        assert(m.targets.contains(m.targets[0]));
        assert(m.targets.contains(m.targets[1]));
        if m.controls.len() > 0 {
            if let CircuitParam::Fixed(phi) = params[1] {
                if let (Some(half), Some(negative_half)) = (crate::circuit::scaled_angle(phi, -1, 1), crate::circuit::scaled_angle(phi, 1, 1)) {
                    let body = fsim_body(m.targets[0], m.targets[1], params[0], half, negative_half);
                    lemma_fsim_body_confined(m.targets[0], m.targets[1], params[0], half, negative_half, allowed);
                    lemma_lift_all_confined(m, c, LoweringFamily::Fsim, body, c.max_ops, allowed);
                }
            }
        }
    }
}

/// A lowering whose operands and work qubits are allowed stays within them.
proof fn lemma_mc_gate_confined(gate: McGate, qubits: Seq<Qubit>, params: Seq<CircuitParam>, c: LoweringConfig, allowed: Seq<Qubit>)
    requires
        covered(qubits, allowed),
        work_covered(c, allowed),
    ensures
        mc_gate_result(gate, qubits, params, c) matches Ok(ops) ==> confined(ops, allowed),
    decreases gate_rank(gate.base), 2nat, 0nat,
{
    if validation_issue(gate, qubits, params, c) is None {
        let m = operand_model(gate, qubits, params);
        let split = m.controls.len() as int;
        lemma_subrange_covered(qubits, 0, split, allowed);
        lemma_subrange_covered(qubits, split, qubits.len() as int, allowed);
        assert(model_covered(m, c, allowed));
        assert(m.base == gate.base);
        match family_of(gate.base) {
            McGateFamily::Pauli => lemma_pauli_confined(m, c, allowed),
            McGateFamily::Phase => lemma_phase_confined(m, params, c, allowed),
            McGateFamily::Rotation => {
                if gate.base == StandardGate::RZ || gate.base == StandardGate::CRZ {
                    lemma_rz_confined(m, params, c, allowed);
                } else {
                    lemma_rx_ry_confined(m, params, c, allowed);
                }
            },
            McGateFamily::OneQubit => lemma_one_qubit_confined(m, params, c, allowed),
            McGateFamily::Swap => lemma_swap_confined(m, c, allowed),
            McGateFamily::PauliInteraction => lemma_pauli_interaction_confined(m, params, c, allowed),
            McGateFamily::Fsim => lemma_fsim_confined(m, params, c, allowed),
            _ => {},
        }
    }
}

/// Law: a lowering touches only the operands of the lowered operation and
/// the work qubits of the configured strategy: none without ancillas, only
/// clean ones in clean mode, only borrowed ones in dirty mode.
pub proof fn lemma_lowering_touches_only_operands_and_ancillas(gate: McGate, qubits: Seq<Qubit>, params: Seq<CircuitParam>, c: LoweringConfig)
    ensures
        mc_gate_result(gate, qubits, params, c) matches Ok(ops) ==> confined(ops, lowering_pool(qubits, c)),
{
    broadcast use lemma_seq_concat_contains_all_elements;
    let pool = lowering_pool(qubits, c);
    assert(covered(qubits, pool));
    assert(work_covered(c, pool));
    lemma_mc_gate_confined(gate, qubits, params, c, pool);
}

} // verus!
