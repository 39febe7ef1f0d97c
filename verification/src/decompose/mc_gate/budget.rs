//! Every lowering stays within the operation budget.
//!
//! Each family estimates its operation count before it emits anything and
//! fails when the estimate exceeds `max_expansion_ops`. The lemmas below
//! show that the estimates are exact: the MCX primitives and the phase
//! components emit exactly as many operations as their cost functions
//! count, and the nested lowerings of lifted rotations as many as the
//! one-qubit family reserves for them. The Pauli-interaction family
//! instead checks each lifted block against the remaining budget.
use crate::circuit::{gate_control_count, Angle, CircuitParam, McGate, OpView, Qubit, StandardGate};
use crate::decompose::mc_gate::decompose::{
    family_of, lifted_result, mc_gate_control_count, mc_gate_result, operand_model, validation_issue, AncillaMode,
    LoweringConfig, McGateFamily, OperandModel,
};
use crate::decompose::mc_gate::one_qubit::{
    add_count, conditional_phase, conditional_phase_count, controlled_rz_count, controlled_xy_count, euler_angles,
    lifted_if_needed, lifted_rotation, named_half_rotation, one_qubit_family, synthesized, then,
};
use crate::decompose::mc_gate::pauli::{mcx_cost, mcx_lowering, pauli_family};
use crate::decompose::mc_gate::pauli_interaction::{base_interaction, lift_all, lift_bound, lift_step};
use crate::decompose::mc_gate::phase_ops::{
    phase_component, phase_component_cost, phase_pair, phase_terms, CONTROLLED_PHASE_OPERATION_COUNT,
};
use crate::decompose::mc_gate::rx_ry::rx_ry_family;
use crate::decompose::mc_gate::fsim::{fsim_body, fsim_family};
use crate::decompose::mc_gate::phase::{phase_angle, phase_family};
use crate::decompose::mc_gate::rz::rz_family;
use crate::decompose::mc_gate::swap::swap_family;
use crate::decompose::mcx::{
    clean_ancilla_mcx_result, clean_count, clean_required, lemma_clean_mcx_count, lemma_dirty_mcx_count,
    lemma_two_pow_monotone, two_pow, MAX_NO_ANCILLA_PHASE_POLY_QUBITS,
};
use crate::decompose::mcx_lengths::{lemma_no_ancilla_mcx_length, lemma_phase_terms_length, lemma_polynomial_length};
use crate::error::{EulerStep, LoweringFamily, NestedStep};
use vstd::prelude::*;

verus! {

/// Whether a successful result emits at most `max` operations.
pub open spec fn within<E>(r: Result<Seq<OpView>, E>, max: nat) -> bool {
    r matches Ok(ops) ==> ops.len() <= max
}

/// Operations of `C^k Phase` under the configured strategy, where it can be emitted.
pub open spec fn phase_len(c: LoweringConfig, k: nat) -> Option<nat> {
    match c.mode {
        AncillaMode::NoAncilla => if k + 1 > MAX_NO_ANCILLA_PHASE_POLY_QUBITS {
            None
        } else {
            Some(k * two_pow(k + 1) + 1nat)
        },
        AncillaMode::CleanAncilla => if k == 0 {
            Some(1)
        } else if k == 1 {
            Some(CONTROLLED_PHASE_OPERATION_COUNT as nat)
        } else if c.clean.len() < k - 1 {
            None
        } else {
            Some(2 * clean_count(k) + CONTROLLED_PHASE_OPERATION_COUNT as nat)
        },
        AncillaMode::DirtyAncilla => None,
    }
}

/// The phase-component cost succeeds exactly where `phase_len` is defined,
/// with that value, whatever the operands and family it reports.
proof fn lemma_cost_value(m: OperandModel, c: LoweringConfig, family: LoweringFamily, k: nat)
    ensures
        phase_component_cost(m, c, family, k) is Ok <==> phase_len(c, k) is Some,
        phase_component_cost(m, c, family, k) is Ok ==> phase_component_cost(m, c, family, k)->Ok_0 == phase_len(c, k)->Some_0,
{
}

/// The MCX lowering emits exactly the operations its cost counts.
proof fn lemma_mcx_length(m: OperandModel, c: LoweringConfig, family: LoweringFamily, controls: Seq<Qubit>, target: Qubit)
    ensures
        mcx_lowering(m, c, family, controls, target) is Ok && mcx_cost(m, c, family, controls.len()) is Ok
            ==> mcx_lowering(m, c, family, controls, target)->Ok_0.len() == mcx_cost(m, c, family, controls.len())->Ok_0,
{
    let n = controls.len();
    if mcx_lowering(m, c, family, controls, target) is Ok && mcx_cost(m, c, family, n) is Ok {
        match c.mode {
            AncillaMode::NoAncilla => lemma_no_ancilla_mcx_length(controls, target),
            AncillaMode::CleanAncilla => {
                lemma_clean_mcx_count(controls, target, c.clean.subrange(0, clean_required(n) as int));
            },
            AncillaMode::DirtyAncilla => {
                if n <= 2 {
                    lemma_no_ancilla_mcx_length(controls, target);
                } else {
                    lemma_dirty_mcx_count(controls, target, c.dirty[0]);
                }
            },
        }
    }
}

/// A phase component emits exactly `phase_len` operations.
proof fn lemma_phase_length(m: OperandModel, c: LoweringConfig, family: LoweringFamily, controls: Seq<Qubit>, target: Qubit, theta: Angle)
    ensures
        phase_component(m, c, family, controls, target, theta) is Ok && phase_len(c, controls.len()) is Some
            ==> phase_component(m, c, family, controls, target, theta)->Ok_0.len() == phase_len(c, controls.len())->Some_0,
{
    let k = controls.len();
    if phase_component(m, c, family, controls, target, theta) is Ok && phase_len(c, k) is Some {
        let ops = phase_component(m, c, family, controls, target, theta)->Ok_0;
        match c.mode {
            AncillaMode::NoAncilla => {
                let qubits = controls.push(target);
                let q = qubits.len();
                let p = two_pow(q);
                lemma_two_pow_monotone(0, q);
                let pos = crate::circuit::scaled_angle(theta, 1, (q - 1) as nat)->Some_0;
                let neg = crate::circuit::scaled_angle(theta, -1, (q - 1) as nat)->Some_0;
                assert(ops == phase_terms(qubits, p, pos, neg));
                lemma_phase_terms_length(qubits, p, pos, neg);
                lemma_polynomial_length(qubits);
                assert(q == k + 1);
                assert(q * p == k * p + p) by (nonlinear_arith)
                    requires
                        q == k + 1;
            },
            AncillaMode::CleanAncilla => {
                if k >= 2 {
                    let flag = c.clean[0];
                    let work = c.clean.subrange(1, k - 1);
                    let compute = clean_ancilla_mcx_result(controls, flag, work)->Ok_0;
                    assert(work.subrange(0, clean_required(k) as int) == work);
                    lemma_clean_mcx_count(controls, flag, work);
                    assert(ops == compute + phase_pair(flag, target, theta)->Some_0 + compute.reverse());
                }
            },
            AncillaMode::DirtyAncilla => {},
        }
    }
}

/// Operations of a lowered `C^k RZ`.
pub open spec fn rz_len(c: LoweringConfig, k: nat) -> nat {
    if k <= 1 {
        1
    } else {
        phase_len(c, k)->Some_0 + phase_len(c, (k - 1) as nat)->Some_0
    }
}

/// Operations of a lowered `C^k RX` or `C^k RY`.
pub open spec fn xy_len(c: LoweringConfig, k: nat) -> nat {
    if k <= 1 {
        1
    } else {
        rz_len(c, k) + 2
    }
}

/// A validated operand list splits into as many controls as its multi-controlled gate has.
proof fn lemma_model_controls(gate: McGate, qubits: Seq<Qubit>, params: Seq<CircuitParam>, c: LoweringConfig)
    requires
        validation_issue(gate, qubits, params, c) is None,
    ensures
        operand_model(gate, qubits, params).controls.len() == mc_gate_control_count(gate),
        operand_model(gate, qubits, params).targets.len() + mc_gate_control_count(gate) == qubits.len(),
{
}

/// A lowered `RZ` or `CRZ` emits `rz_len` operations over its controls.
proof fn lemma_rz_length(gate: McGate, qubits: Seq<Qubit>, params: Seq<CircuitParam>, c: LoweringConfig)
    requires
        gate.base == StandardGate::RZ || gate.base == StandardGate::CRZ,
    ensures
        mc_gate_result(gate, qubits, params, c) matches Ok(ops) ==> ops.len() == rz_len(c, mc_gate_control_count(gate)),
{
    if mc_gate_result(gate, qubits, params, c) is Ok {
        lemma_model_controls(gate, qubits, params, c);
        let m = operand_model(gate, qubits, params);
        let k = m.controls.len();
        assert(family_of(gate.base) == McGateFamily::Rotation);
        assert(mc_gate_result(gate, qubits, params, c) == rz_family(m, params, c));
        if k >= 2 {
            let theta = params[0]->Fixed_0;
            let target = m.targets[0];
            lemma_cost_value(m, c, LoweringFamily::Rz, k);
            lemma_cost_value(m, c, LoweringFamily::Rz, (k - 1) as nat);
            lemma_phase_length(m, c, LoweringFamily::Rz, m.controls, target, theta);
            let h = crate::circuit::scaled_angle(theta, -1, 1)->Some_0;
            lemma_phase_length(m, c, LoweringFamily::Rz, m.controls.subrange(0, k - 1), m.controls[k - 1], h);
        }
    }
}

/// A lowered `RX`, `RY`, `CRX` or `CRY` emits `xy_len` operations over its controls.
proof fn lemma_xy_length(gate: McGate, qubits: Seq<Qubit>, params: Seq<CircuitParam>, c: LoweringConfig)
    requires
        gate.base == StandardGate::RX || gate.base == StandardGate::RY || gate.base == StandardGate::CRX
            || gate.base == StandardGate::CRY,
    ensures
        mc_gate_result(gate, qubits, params, c) matches Ok(ops) ==> ops.len() == xy_len(c, mc_gate_control_count(gate)),
{
    if mc_gate_result(gate, qubits, params, c) is Ok {
        lemma_model_controls(gate, qubits, params, c);
        let m = operand_model(gate, qubits, params);
        let k = m.controls.len();
        assert(family_of(gate.base) == McGateFamily::Rotation);
        assert(mc_gate_result(gate, qubits, params, c) == rx_ry_family(m, params, c));
        if k >= 2 {
            let target = m.targets[0];
            lemma_cost_value(m, c, LoweringFamily::RxRy, k);
            lemma_cost_value(m, c, LoweringFamily::RxRy, (k - 1) as nat);
            assert(gate_control_count(gate.base) <= 1);
            let lifted = McGate { added_controls: (k - 1) as u8, base: StandardGate::CRZ };
            assert(mc_gate_control_count(lifted) == k);
            lemma_rz_length(lifted, m.controls.push(target), params, c);
        }
    }
}

/// The one-qubit family's count estimates, where they succeed, are the
/// exact operation counts of the lowerings they stand for.
proof fn lemma_one_qubit_counts(m: OperandModel, c: LoweringConfig, phase: Angle)
    ensures
        controlled_rz_count(m, c) is Ok ==> controlled_rz_count(m, c)->Ok_0 == rz_len(c, m.controls.len()),
        controlled_xy_count(m, c) is Ok ==> controlled_xy_count(m, c)->Ok_0 == xy_len(c, m.controls.len()),
        controlled_xy_count(m, c) is Ok && m.controls.len() >= 2 ==> controlled_rz_count(m, c) is Ok,
{
    let k = m.controls.len();
    if k >= 2 {
        lemma_cost_value(m, c, LoweringFamily::OneQubit, k);
        lemma_cost_value(m, c, LoweringFamily::OneQubit, (k - 1) as nat);
    }
}

/// A concatenation succeeds only when both parts do, with their lengths added.
proof fn lemma_then_length(a: Result<Seq<OpView>, crate::error::McGateFailure>, b: Result<Seq<OpView>, crate::error::McGateFailure>)
    ensures
        then(a, b) is Ok ==> a is Ok && b is Ok && then(a, b)->Ok_0.len() == a->Ok_0.len() + b->Ok_0.len(),
{
}

/// A rotation lifted under `k` controls emits `rz_len` or `xy_len` operations.
proof fn lemma_lifted_rotation_length(m: OperandModel, c: LoweringConfig, gate: StandardGate, theta: Angle, step: crate::error::NestedStep)
    requires
        m.controls.len() <= 255,
        gate == StandardGate::RZ || gate == StandardGate::RX || gate == StandardGate::RY,
    ensures
        lifted_rotation(m, c, gate, theta, step) matches Ok(ops) ==> ops.len() == if gate == StandardGate::RZ {
            rz_len(c, m.controls.len())
        } else {
            xy_len(c, m.controls.len())
        },
{
    let lifted = McGate { added_controls: m.controls.len() as u8, base: gate };
    let qubits = m.controls.push(m.targets[0]);
    let params = seq![CircuitParam::Fixed(theta)];
    assert(mc_gate_control_count(lifted) == m.controls.len());
    if gate == StandardGate::RZ {
        lemma_rz_length(lifted, qubits, params, c);
    } else {
        lemma_xy_length(lifted, qubits, params, c);
    }
}

/// A half rotation stays within the budget.
proof fn lemma_named_half_within(m: OperandModel, c: LoweringConfig, gate: StandardGate, theta: Angle)
    requires
        m.controls.len() <= 255,
        gate == StandardGate::RX || gate == StandardGate::RY,
    ensures
        within(named_half_rotation(m, c, gate, theta), c.max_ops as nat),
{
    lemma_one_qubit_counts(m, c, theta);
    lemma_lifted_rotation_length(m, c, gate, theta, crate::error::NestedStep::NamedHalfRotation(m.base));
}

/// The conditional phase on the controls emits what its count estimates.
proof fn lemma_conditional_phase_length(m: OperandModel, c: LoweringConfig, phase: Angle)
    requires
        m.controls.len() >= 1,
    ensures
        conditional_phase(m, c, phase) is Ok && conditional_phase_count(m, c, phase) is Ok
            ==> conditional_phase(m, c, phase)->Ok_0.len() == conditional_phase_count(m, c, phase)->Ok_0,
{
    let k = m.controls.len();
    if k >= 2 {
        lemma_cost_value(m, c, LoweringFamily::OneQubit, (k - 1) as nat);
        lemma_phase_length(m, c, LoweringFamily::OneQubit, m.controls.subrange(0, k - 1), m.controls[k - 1], phase);
    }
}

/// A counted step adds exactly the length of the part it counts.
proof fn lemma_add_count(m: OperandModel, c: LoweringConfig, total: Result<nat, crate::error::McGateFailure>, counted: bool, extra: Result<nat, crate::error::McGateFailure>)
    ensures
        add_count(m, c, total, counted, extra) is Ok ==> total is Ok && (counted ==> extra is Ok)
            && add_count(m, c, total, counted, extra)->Ok_0 == total->Ok_0 + if counted { extra->Ok_0 } else { 0 },
{
}

/// An Euler-synthesized gate stays within the budget.
proof fn lemma_synthesized_within(m: OperandModel, params: Seq<CircuitParam>, c: LoweringConfig)
    requires
        1 <= m.controls.len() <= 255,
    ensures
        within(synthesized(m, params, c), c.max_ops as nat),
{
    if let Some((phase, lambda, theta, phi)) = euler_angles(m.base) {
        if synthesized(m, params, c) is Ok {
            let a = conditional_phase(m, c, phase);
            let b = lifted_if_needed(m, c, StandardGate::RZ, lambda, NestedStep::EulerRotation(EulerStep::Lambda));
            let d = lifted_if_needed(m, c, StandardGate::RY, theta, NestedStep::EulerRotation(EulerStep::Theta));
            let e = lifted_if_needed(m, c, StandardGate::RZ, phi, NestedStep::EulerRotation(EulerStep::Phi));
            lemma_then_length(then(then(a, b), d), e);
            lemma_then_length(then(a, b), d);
            lemma_then_length(a, b);
            lemma_one_qubit_counts(m, c, phase);
            lemma_conditional_phase_length(m, c, phase);
            lemma_lifted_rotation_length(m, c, StandardGate::RZ, lambda, NestedStep::EulerRotation(EulerStep::Lambda));
            lemma_lifted_rotation_length(m, c, StandardGate::RY, theta, NestedStep::EulerRotation(EulerStep::Theta));
            lemma_lifted_rotation_length(m, c, StandardGate::RZ, phi, NestedStep::EulerRotation(EulerStep::Phi));
            let with_lambda = add_count(m, c, conditional_phase_count(m, c, phase), !crate::circuit::angle_is_zero(lambda), controlled_rz_count(m, c));
            let with_theta = add_count(m, c, with_lambda, !crate::circuit::angle_is_zero(theta), controlled_xy_count(m, c));
            lemma_add_count(m, c, with_theta, !crate::circuit::angle_is_zero(phi), controlled_rz_count(m, c));
            lemma_add_count(m, c, with_lambda, !crate::circuit::angle_is_zero(theta), controlled_xy_count(m, c));
            lemma_add_count(m, c, conditional_phase_count(m, c, phase), !crate::circuit::angle_is_zero(lambda), controlled_rz_count(m, c));
        }
    }
}

/// The one-qubit family stays within the budget.
proof fn lemma_one_qubit_within(m: OperandModel, params: Seq<CircuitParam>, c: LoweringConfig)
    requires
        m.controls.len() <= 255,
    ensures
        within(one_qubit_family(m, params, c), c.max_ops as nat),
{
    if m.controls.len() >= 1 {
        lemma_named_half_within(m, c, StandardGate::RX, crate::decompose::mc_gate::rx_ry::half_pi(1i64));
        lemma_named_half_within(m, c, StandardGate::RX, crate::decompose::mc_gate::rx_ry::half_pi(-1i64));
        lemma_named_half_within(m, c, StandardGate::RY, crate::decompose::mc_gate::rx_ry::half_pi(1i64));
        lemma_named_half_within(m, c, StandardGate::RY, crate::decompose::mc_gate::rx_ry::half_pi(-1i64));
        lemma_synthesized_within(m, params, c);
    }
}

/// Lifting base operations one by one never overdraws the remaining budget.
proof fn lemma_lift_all_within(m: OperandModel, c: LoweringConfig, family: LoweringFamily, ops: Seq<OpView>, budget: usize)
    ensures
        within(lift_all(m, c, family, ops, budget), budget as nat),
    decreases ops.len(),
{
    if ops.len() > 0 {
        let op = ops[0];
        let g = crate::decompose::mc_gate::pauli_interaction::standard_gate_of(op);
        let nested = LoweringConfig { max_ops: budget, ..c };
        let gate = McGate { added_controls: m.controls.len() as u8, base: g };
        if let Ok(x) = lifted_result(lift_bound(family), gate, m.controls + op.qubits, op.params, nested, lift_step(family, g)) {
            if x.len() <= budget {
                let rest = (budget - x.len()) as usize;
                lemma_lift_all_within(m, c, family, ops.drop_first(), rest);
                lemma_then_length(Ok(x), lift_all(m, c, family, ops.drop_first(), rest));
            }
        }
    }
}

/// The Pauli family stays within the budget.
proof fn lemma_pauli_within(m: OperandModel, c: LoweringConfig)
    ensures
        within(pauli_family(m, c), c.max_ops as nat),
{
    if m.targets.len() == 1 {
        lemma_mcx_length(m, c, LoweringFamily::Pauli, m.controls, m.targets[0]);
    }
}

/// The Phase family stays within the budget.
proof fn lemma_phase_within(m: OperandModel, params: Seq<CircuitParam>, c: LoweringConfig)
    ensures
        within(phase_family(m, params, c), c.max_ops as nat),
{
    if m.targets.len() == 1 && m.controls.len() > 0 {
        if let Some(theta) = phase_angle(m.base, params) {
            lemma_cost_value(m, c, LoweringFamily::Phase, m.controls.len());
            lemma_phase_length(m, c, LoweringFamily::Phase, m.controls, m.targets[0], theta);
        }
    }
}

/// The FSIM family stays within the budget.
proof fn lemma_fsim_within(m: OperandModel, params: Seq<CircuitParam>, c: LoweringConfig)
    ensures
        within(fsim_family(m, params, c), c.max_ops as nat),
{
    if m.targets.len() == 2 && m.controls.len() > 0 {
        if let CircuitParam::Fixed(phi) = params[1] {
            if let (Some(half), Some(negative_half)) = (crate::circuit::scaled_angle(phi, -1, 1), crate::circuit::scaled_angle(phi, 1, 1)) {
                lemma_lift_all_within(m, c, LoweringFamily::Fsim, fsim_body(m.targets[0], m.targets[1], params[0], half, negative_half), c.max_ops);
            }
        }
    }
}

/// The SWAP family stays within the budget.
proof fn lemma_swap_within(m: OperandModel, c: LoweringConfig)
    ensures
        within(swap_family(m, c), c.max_ops as nat),
{
    if m.targets.len() == 2 {
        lemma_mcx_length(m, c, LoweringFamily::Swap, m.controls.push(m.targets[0]), m.targets[1]);
        lemma_mcx_length(m, c, LoweringFamily::Swap, m.controls.push(m.targets[1]), m.targets[0]);
    }
}

/// Law: a successful lowering of a multi-controlled gate emits at most
/// `max_expansion_ops` operations.
pub proof fn lemma_lowering_within_budget(gate: McGate, qubits: Seq<Qubit>, params: Seq<CircuitParam>, c: LoweringConfig)
    ensures
        mc_gate_result(gate, qubits, params, c) matches Ok(ops) ==> ops.len() <= c.max_ops,
{
    if validation_issue(gate, qubits, params, c) is None {
        lemma_model_controls(gate, qubits, params, c);
        let m = operand_model(gate, qubits, params);
        match family_of(gate.base) {
            McGateFamily::Pauli => lemma_pauli_within(m, c),
            McGateFamily::Phase => lemma_phase_within(m, params, c),
            McGateFamily::Rotation => {
                if gate.base == StandardGate::RZ || gate.base == StandardGate::CRZ {
                    lemma_rz_length(gate, qubits, params, c);
                    let k = m.controls.len();
                    if k >= 2 {
                        lemma_cost_value(m, c, LoweringFamily::Rz, k);
                        lemma_cost_value(m, c, LoweringFamily::Rz, (k - 1) as nat);
                    }
                } else {
                    lemma_xy_length(gate, qubits, params, c);
                    let k = m.controls.len();
                    if k >= 2 {
                        lemma_cost_value(m, c, LoweringFamily::RxRy, k);
                        lemma_cost_value(m, c, LoweringFamily::RxRy, (k - 1) as nat);
                    }
                }
            },
            McGateFamily::OneQubit => lemma_one_qubit_within(m, params, c),
            McGateFamily::Swap => lemma_swap_within(m, c),
            McGateFamily::Fsim => lemma_fsim_within(m, params, c),
            McGateFamily::PauliInteraction => {
                if m.targets.len() == 2 {
                    lemma_lift_all_within(m, c, LoweringFamily::PauliInteraction, base_interaction(m.base, m.targets[0], m.targets[1], params[0]), c.max_ops);
                }
            },
            _ => {},
        }
    }
}

} // verus!
