//! Every lowering emits standard gates only.
//!
//! The lowering of a multi-controlled gate is built from `X`, `CX`, `CCX`,
//! rotations, phases, and the lowerings of lifted gates of lower rank, so no
//! MCGate survives it. The lemmas below follow the recursion of the
//! lowering specifications family by family.
use crate::circuit::{Angle, CircuitParam, McGate, OpView, Qubit, StandardGate};
use crate::decompose::mc_gate::decompose::{
    family_of, gate_rank, lifted_result, mc_gate_result, operand_model, validation_issue, AncillaMode,
    LoweringConfig, McGateFamily, OperandModel,
};
use crate::decompose::mc_gate::one_qubit::{
    conditional_phase, euler_angles, lifted_if_needed, lifted_rotation, named_half_rotation, one_qubit_family,
    synthesized, then,
};
use crate::decompose::mc_gate::pauli::{mcx_lowering, mcx_primitive, pauli_family};
use crate::decompose::mc_gate::pauli_interaction::{base_interaction, lift_all, lift_bound, lift_step, pauli_interaction_family};
use crate::error::LoweringFamily;
use crate::decompose::mc_gate::phase_ops::{
    no_ancilla_phase, phase_component, phase_pair, phase_terms,
};
use crate::decompose::mc_gate::rx_ry::{lifted_rz, rx_ry_family};
use crate::decompose::mc_gate::fsim::{fsim_body, fsim_family};
use crate::decompose::mc_gate::phase::{phase_angle, phase_family};
use crate::decompose::mc_gate::rz::{rz_family, rz_lifted};
use crate::decompose::mc_gate::swap::swap_family;
use crate::decompose::mc_gate::transformer::{lower_sequence, lower_step};
use crate::decompose::mcx::{
    clean_ancilla_mcx_result, dirty_mcx, no_ancilla_mcx, no_ancilla_mcx_result,
    parity_ladder, parity_rotation, phase_polynomial_mcx, polynomial_angle, polynomial_terms, subset_of,
    trivial_mcx, two_pow, v_chain, v_chain_compute,
};
use crate::error::McGateFailure;
use vstd::prelude::*;

verus! {

/// Whether every operation holds a standard-gate instruction and no label.
pub open spec fn standard_only(ops: Seq<OpView>) -> bool {
    forall|i: int| 0 <= i < ops.len() ==> (#[trigger] ops[i]).instruction is Standard && ops[i].label is None
}

/// Whether a successful result holds unlabeled standard gates only.
pub open spec fn ok_standard<E>(r: Result<Seq<OpView>, E>) -> bool {
    r matches Ok(ops) ==> standard_only(ops)
}

proof fn lemma_concat(a: Seq<OpView>, b: Seq<OpView>)
    requires
        standard_only(a),
        standard_only(b),
    ensures
        standard_only(a + b),
{
    assert forall|i: int| 0 <= i < (a + b).len() implies (#[trigger] (a + b)[i]).instruction is Standard by {
        if i < a.len() {
            assert((a + b)[i] == a[i]);
        } else {
            assert((a + b)[i] == b[i - a.len()]);
        }
    }
}

proof fn lemma_reverse(a: Seq<OpView>)
    requires
        standard_only(a),
    ensures
        standard_only(a.reverse()),
{
    assert forall|i: int| 0 <= i < a.reverse().len() implies (#[trigger] a.reverse()[i]).instruction is Standard by {
        assert(a.reverse()[i] == a[a.len() - 1 - i]);
    }
}

proof fn lemma_then(a: Result<Seq<OpView>, McGateFailure>, b: Result<Seq<OpView>, McGateFailure>)
    requires
        ok_standard(a),
        ok_standard(b),
    ensures
        ok_standard(then(a, b)),
{
    if let (Ok(x), Ok(y)) = (a, b) {
        lemma_concat(x, y);
    }
}

proof fn lemma_trivial(controls: Seq<Qubit>, target: Qubit)
    ensures
        standard_only(trivial_mcx(controls, target)),
{
}

proof fn lemma_clean(controls: Seq<Qubit>, target: Qubit, clean: Seq<Qubit>)
    ensures
        ok_standard(clean_ancilla_mcx_result(controls, target, clean)),
{
    if let Ok(ops) = clean_ancilla_mcx_result(controls, target, clean) {
        let used = clean.subrange(0, crate::decompose::mcx::clean_required(controls.len()) as int);
        if controls.len() > 2 {
            let compute = v_chain_compute(controls, used);
            let flip = seq![
                crate::circuit::plain(
                    StandardGate::CCX,
                    seq![used[used.len() - 1], controls[controls.len() - 1], target],
                ),
            ];
            lemma_concat(compute, flip);
            lemma_reverse(compute);
            lemma_concat(compute + flip, compute.reverse());
            assert(ops == v_chain(controls, target, used));
        } else {
            lemma_trivial(controls, target);
        }
    }
}

proof fn lemma_polynomial_terms(qubits: Seq<Qubit>, masks: nat)
    ensures
        standard_only(polynomial_terms(qubits, masks)),
    decreases masks,
{
    if masks > 1 {
        let mask = (masks - 1) as nat;
        let subset = subset_of(qubits, mask);
        lemma_polynomial_terms(qubits, mask);
        lemma_rotation_any(StandardGate::RZ, subset, polynomial_angle(qubits.len(), subset));
        lemma_concat(
            polynomial_terms(qubits, mask),
            parity_rotation(StandardGate::RZ, subset, polynomial_angle(qubits.len(), subset)),
        );
    }
}

/// A parity rotation over any subset, the empty one included, holds standard gates only.
proof fn lemma_rotation_any(gate: StandardGate, qubits: Seq<Qubit>, angle: Angle)
    ensures
        standard_only(parity_rotation(gate, qubits, angle)),
{
    let ladder = parity_ladder(qubits);
    let rotation = seq![crate::circuit::with_params(gate, seq![qubits.last()], seq![CircuitParam::Fixed(angle)])];
    lemma_concat(ladder, rotation);
    lemma_reverse(ladder);
    lemma_concat(ladder + rotation, ladder.reverse());
}

proof fn lemma_no_ancilla(controls: Seq<Qubit>, target: Qubit)
    ensures
        ok_standard(no_ancilla_mcx_result(controls, target)),
{
    if controls.len() > 2 {
        let qubits = controls.push(target);
        let h = seq![crate::circuit::plain(StandardGate::H, seq![target])];
        let terms = polynomial_terms(qubits, two_pow(qubits.len()));
        lemma_polynomial_terms(qubits, two_pow(qubits.len()));
        lemma_concat(h, terms);
        lemma_concat(h + terms, h);
        assert(no_ancilla_mcx(controls, target) == phase_polynomial_mcx(controls, target));
    } else {
        lemma_trivial(controls, target);
    }
}

proof fn lemma_dirty_mcx(controls: Seq<Qubit>, target: Qubit, dirty: Qubit)
    ensures
        standard_only(dirty_mcx(controls, target, dirty)),
    decreases controls.len(),
{
    if controls.len() > 2 {
        let inner = dirty_mcx(controls.drop_last(), dirty, target);
        let toggle = seq![crate::circuit::plain(StandardGate::CCX, seq![dirty, controls.last(), target])];
        lemma_dirty_mcx(controls.drop_last(), dirty, target);
        lemma_concat(inner, toggle);
        lemma_concat(inner + toggle, inner);
        lemma_concat(inner + toggle + inner, toggle);
    }
}

proof fn lemma_mcx_lowering(m: OperandModel, c: LoweringConfig, family: crate::error::LoweringFamily, controls: Seq<Qubit>, target: Qubit)
    ensures
        ok_standard(mcx_lowering(m, c, family, controls, target)),
{
    lemma_no_ancilla(controls, target);
    lemma_clean(controls, target, c.clean);
    lemma_dirty_mcx(controls, target, c.dirty[0]);
    if let Ok(ops) = mcx_primitive(c, controls, target) {
        assert(standard_only(ops));
    }
}

proof fn lemma_pauli(m: OperandModel, c: LoweringConfig)
    ensures
        ok_standard(pauli_family(m, c)),
{
    if m.targets.len() == 1 {
        let target = m.targets[0];
        lemma_mcx_lowering(m, c, crate::error::LoweringFamily::Pauli, m.controls, target);
        if let Ok(body) = mcx_lowering(m, c, crate::error::LoweringFamily::Pauli, m.controls, target) {
            let sdg = seq![crate::circuit::plain(StandardGate::SDG, seq![target])];
            let s = seq![crate::circuit::plain(StandardGate::S, seq![target])];
            let h = seq![crate::circuit::plain(StandardGate::H, seq![target])];
            lemma_concat(sdg, body);
            lemma_concat(sdg + body, s);
            lemma_concat(h, body);
            lemma_concat(h + body, h);
        }
    }
}

proof fn lemma_swap(m: OperandModel, c: LoweringConfig)
    ensures
        ok_standard(swap_family(m, c)),
{
    if m.targets.len() == 2 {
        let family = crate::error::LoweringFamily::Swap;
        let first = m.targets[0];
        let second = m.targets[1];
        lemma_mcx_lowering(m, c, family, m.controls.push(first), second);
        lemma_mcx_lowering(m, c, family, m.controls.push(second), first);
        if let (Ok(x), Ok(y)) = (
            mcx_lowering(m, c, family, m.controls.push(first), second),
            mcx_lowering(m, c, family, m.controls.push(second), first),
        ) {
            lemma_concat(x, y);
            lemma_concat(x + y, x);
        }
    }
}

proof fn lemma_phase_terms(qubits: Seq<Qubit>, masks: nat, pos: Angle, neg: Angle)
    ensures
        standard_only(phase_terms(qubits, masks, pos, neg)),
    decreases masks,
{
    if masks > 1 {
        let mask = (masks - 1) as nat;
        let subset = subset_of(qubits, mask);
        let angle = if subset.len() % 2 == 0 { neg } else { pos };
        lemma_phase_terms(qubits, mask, pos, neg);
        lemma_rotation_any(StandardGate::Phase, subset, angle);
        lemma_concat(phase_terms(qubits, mask, pos, neg), parity_rotation(StandardGate::Phase, subset, angle));
    }
}

proof fn lemma_phase_component(m: OperandModel, c: LoweringConfig, family: crate::error::LoweringFamily, controls: Seq<Qubit>, target: Qubit, theta: Angle)
    ensures
        ok_standard(phase_component(m, c, family, controls, target, theta)),
{
    let qubits = controls.push(target);
    if c.mode == AncillaMode::NoAncilla {
        if let Ok(ops) = no_ancilla_phase(m, c, controls, target, theta) {
            let q = qubits.len();
            let pos = crate::circuit::scaled_angle(theta, 1, (q - 1) as nat)->Some_0;
            let neg = crate::circuit::scaled_angle(theta, -1, (q - 1) as nat)->Some_0;
            lemma_phase_terms(qubits, two_pow(q), pos, neg);
        }
    } else if c.mode == AncillaMode::CleanAncilla && controls.len() >= 2 {
        let flag = c.clean[0];
        let work = c.clean.subrange(1, controls.len() - 1);
        lemma_clean(controls, flag, work);
        if let (Ok(compute), Some(pair)) = (clean_ancilla_mcx_result(controls, flag, work), phase_pair(flag, target, theta)) {
            lemma_reverse(compute);
            lemma_concat(compute, pair);
            lemma_concat(compute + pair, compute.reverse());
        }
    }
}

proof fn lemma_rz(m: OperandModel, params: Seq<CircuitParam>, c: LoweringConfig)
    ensures
        ok_standard(rz_family(m, params, c)),
{
    let family = crate::error::LoweringFamily::Rz;
    if m.targets.len() == 1 && m.controls.len() >= 2 {
        if let CircuitParam::Fixed(theta) = params[0] {
            let k = m.controls.len();
            let target = m.targets[0];
            lemma_phase_component(m, c, family, m.controls, target, theta);
            if let Some(h) = crate::circuit::scaled_angle(theta, -1, 1) {
                lemma_phase_component(m, c, family, m.controls.subrange(0, k - 1), m.controls[k - 1], h);
                if let (Ok(x), Ok(y)) = (
                    phase_component(m, c, family, m.controls, target, theta),
                    phase_component(m, c, family, m.controls.subrange(0, k - 1), m.controls[k - 1], h),
                ) {
                    lemma_concat(x, y);
                }
            }
            assert(ok_standard(rz_lifted(m, c, theta)));
        }
    }
}

proof fn lemma_phase(m: OperandModel, params: Seq<CircuitParam>, c: LoweringConfig)
    ensures
        ok_standard(phase_family(m, params, c)),
{
    if m.targets.len() == 1 && m.controls.len() > 0 {
        if let Some(theta) = phase_angle(m.base, params) {
            lemma_phase_component(m, c, crate::error::LoweringFamily::Phase, m.controls, m.targets[0], theta);
        }
    }
}

proof fn lemma_lifted_result(bound: nat, gate: McGate, qubits: Seq<Qubit>, params: Seq<CircuitParam>, c: LoweringConfig, step: crate::error::NestedStep)
    ensures
        ok_standard(lifted_result(bound, gate, qubits, params, c, step)),
    decreases bound, 0nat, 0nat,
{
    if gate_rank(gate.base) < bound {
        lemma_mc_gate(gate, qubits, params, c);
    }
}

proof fn lemma_lifted_rz(m: OperandModel, params: Seq<CircuitParam>, c: LoweringConfig)
    requires
        gate_rank(m.base) == 1,
    ensures
        ok_standard(lifted_rz(m, params, c)),
    decreases gate_rank(m.base), 0nat, 0nat,
{
    if m.controls.len() >= 1 && m.targets.len() == 1 {
        let lifted = McGate { added_controls: (m.controls.len() - 1) as u8, base: StandardGate::CRZ };
        lemma_mc_gate(lifted, m.controls.push(m.targets[0]), params, c);
    }
}

proof fn lemma_rx_ry(m: OperandModel, params: Seq<CircuitParam>, c: LoweringConfig)
    requires
        gate_rank(m.base) == 1,
    ensures
        ok_standard(rx_ry_family(m, params, c)),
    decreases gate_rank(m.base), 1nat, 0nat,
{
    if m.targets.len() == 1 {
        let target = m.targets[0];
        lemma_lifted_rz(m, params, c);
        if let Ok(rz) = lifted_rz(m, params, c) {
            let h = seq![crate::circuit::plain(StandardGate::H, seq![target])];
            let up = seq![crate::decompose::mc_gate::rx_ry::rotation_op(StandardGate::RX, target, crate::decompose::mc_gate::rx_ry::half_pi(1i64))];
            let down = seq![crate::decompose::mc_gate::rx_ry::rotation_op(StandardGate::RX, target, crate::decompose::mc_gate::rx_ry::half_pi(-1i64))];
            lemma_concat(h, rz);
            lemma_concat(h + rz, h);
            lemma_concat(up, rz);
            lemma_concat(up + rz, down);
        }
    }
}

proof fn lemma_lifted_rotation(m: OperandModel, c: LoweringConfig, gate: StandardGate, theta: Angle, step: crate::error::NestedStep)
    ensures
        ok_standard(lifted_rotation(m, c, gate, theta, step)),
    decreases 2nat, 0nat, 1nat,
{
    lemma_lifted_result(
        2,
        McGate { added_controls: m.controls.len() as u8, base: gate },
        m.controls.push(m.targets[0]),
        seq![CircuitParam::Fixed(theta)],
        c,
        step,
    );
}

proof fn lemma_lifted_if_needed(m: OperandModel, c: LoweringConfig, gate: StandardGate, theta: Angle, step: crate::error::NestedStep)
    ensures
        ok_standard(lifted_if_needed(m, c, gate, theta, step)),
    decreases 2nat, 0nat, 2nat,
{
    lemma_lifted_rotation(m, c, gate, theta, step);
}

proof fn lemma_synthesized(m: OperandModel, params: Seq<CircuitParam>, c: LoweringConfig)
    ensures
        ok_standard(synthesized(m, params, c)),
    decreases 2nat, 0nat, 3nat,
{
    if let Some((phase, lambda, theta, phi)) = euler_angles(m.base) {
        let family = crate::error::LoweringFamily::OneQubit;
        let k = m.controls.len() as int;
        lemma_phase_component(m, c, family, m.controls.subrange(0, k - 1), m.controls[k - 1], phase);
        assert(ok_standard(conditional_phase(m, c, phase)));
        let step = crate::error::NestedStep::EulerRotation(crate::error::EulerStep::Lambda);
        lemma_lifted_if_needed(m, c, StandardGate::RZ, lambda, step);
        let step_theta = crate::error::NestedStep::EulerRotation(crate::error::EulerStep::Theta);
        lemma_lifted_if_needed(m, c, StandardGate::RY, theta, step_theta);
        let step_phi = crate::error::NestedStep::EulerRotation(crate::error::EulerStep::Phi);
        lemma_lifted_if_needed(m, c, StandardGate::RZ, phi, step_phi);
        let a = conditional_phase(m, c, phase);
        let b = lifted_if_needed(m, c, StandardGate::RZ, lambda, step);
        lemma_then(a, b);
        let d = lifted_if_needed(m, c, StandardGate::RY, theta, step_theta);
        lemma_then(then(a, b), d);
        let e = lifted_if_needed(m, c, StandardGate::RZ, phi, step_phi);
        lemma_then(then(then(a, b), d), e);
    }
}

proof fn lemma_named_half(m: OperandModel, c: LoweringConfig, gate: StandardGate, theta: Angle)
    ensures
        ok_standard(named_half_rotation(m, c, gate, theta)),
    decreases 2nat, 0nat, 3nat,
{
    lemma_lifted_rotation(m, c, gate, theta, crate::error::NestedStep::NamedHalfRotation(m.base));
}

proof fn lemma_one_qubit(m: OperandModel, params: Seq<CircuitParam>, c: LoweringConfig)
    requires
        gate_rank(m.base) == 2,
    ensures
        ok_standard(one_qubit_family(m, params, c)),
    decreases gate_rank(m.base), 1nat, 0nat,
{
    lemma_named_half(m, c, StandardGate::RX, crate::decompose::mc_gate::rx_ry::half_pi(1i64));
    lemma_named_half(m, c, StandardGate::RX, crate::decompose::mc_gate::rx_ry::half_pi(-1i64));
    lemma_named_half(m, c, StandardGate::RY, crate::decompose::mc_gate::rx_ry::half_pi(1i64));
    lemma_named_half(m, c, StandardGate::RY, crate::decompose::mc_gate::rx_ry::half_pi(-1i64));
    lemma_synthesized(m, params, c);
}

proof fn lemma_lift_all(m: OperandModel, c: LoweringConfig, family: LoweringFamily, ops: Seq<OpView>, budget: usize)
    ensures
        ok_standard(lift_all(m, c, family, ops, budget)),
    decreases lift_bound(family), 0nat, ops.len(),
{
    if ops.len() > 0 {
        let op = ops[0];
        let g = crate::decompose::mc_gate::pauli_interaction::standard_gate_of(op);
        let nested = LoweringConfig { max_ops: budget, ..c };
        let step = lift_step(family, g);
        let bound = lift_bound(family);
        let gate = McGate { added_controls: m.controls.len() as u8, base: g };
        lemma_lifted_result(bound, gate, m.controls + op.qubits, op.params, nested, step);
        if let Ok(x) = lifted_result(bound, gate, m.controls + op.qubits, op.params, nested, step) {
            if x.len() <= budget {
                lemma_lift_all(m, c, family, ops.drop_first(), (budget - x.len()) as usize);
                lemma_then(Ok(x), lift_all(m, c, family, ops.drop_first(), (budget - x.len()) as usize));
            }
        }
    }
}

proof fn lemma_pauli_interaction(m: OperandModel, params: Seq<CircuitParam>, c: LoweringConfig)
    requires
        gate_rank(m.base) == 3,
    ensures
        ok_standard(pauli_interaction_family(m, params, c)),
    decreases gate_rank(m.base), 1nat, 0nat,
{
    if m.targets.len() == 2 {
        lemma_lift_all(m, c, LoweringFamily::PauliInteraction, base_interaction(m.base, m.targets[0], m.targets[1], params[0]), c.max_ops);
    }
}

proof fn lemma_fsim(m: OperandModel, params: Seq<CircuitParam>, c: LoweringConfig)
    requires
        gate_rank(m.base) == 4,
    ensures
        ok_standard(fsim_family(m, params, c)),
    decreases gate_rank(m.base), 1nat, 0nat,
{
    if m.targets.len() == 2 && m.controls.len() > 0 {
        if let CircuitParam::Fixed(phi) = params[1] {
            if let (Some(half), Some(negative_half)) = (crate::circuit::scaled_angle(phi, -1, 1), crate::circuit::scaled_angle(phi, 1, 1)) {
                lemma_lift_all(m, c, LoweringFamily::Fsim, fsim_body(m.targets[0], m.targets[1], params[0], half, negative_half), c.max_ops);
            }
        }
    }
}

/// Every successful lowering of a multi-controlled gate consists of
/// unlabeled standard-gate operations only: lowering never emits an MCGate
/// and never a label.
pub proof fn lemma_lowering_emits_standard_gates(gate: McGate, qubits: Seq<Qubit>, params: Seq<CircuitParam>, c: LoweringConfig)
    ensures
        mc_gate_result(gate, qubits, params, c) matches Ok(ops) ==> standard_only(ops),
{
    lemma_mc_gate(gate, qubits, params, c);
}

proof fn lemma_mc_gate(gate: McGate, qubits: Seq<Qubit>, params: Seq<CircuitParam>, c: LoweringConfig)
    ensures
        ok_standard(mc_gate_result(gate, qubits, params, c)),
    decreases gate_rank(gate.base), 2nat, 0nat,
{
    if validation_issue(gate, qubits, params, c) is None {
        let m = operand_model(gate, qubits, params);
        assert(m.base == gate.base);
        match family_of(gate.base) {
            McGateFamily::Pauli => lemma_pauli(m, c),
            McGateFamily::Phase => lemma_phase(m, params, c),
            McGateFamily::Rotation => {
                if gate.base == StandardGate::RZ || gate.base == StandardGate::CRZ {
                    lemma_rz(m, params, c);
                } else {
                    lemma_rx_ry(m, params, c);
                }
            },
            McGateFamily::OneQubit => lemma_one_qubit(m, params, c),
            McGateFamily::Swap => lemma_swap(m, c),
            McGateFamily::PauliInteraction => lemma_pauli_interaction(m, params, c),
            McGateFamily::Fsim => lemma_fsim(m, params, c),
            _ => {},
        }
    }
}

/// After lowering a sequence, an MCGate remains only where a labeled
/// operation was kept because labeled operations are skipped; with
/// skipping disabled, no MCGate remains at all.
pub proof fn lemma_lowering_leaves_only_skipped_mc_gates(ops: Seq<OpView>, c: LoweringConfig, skip_labeled: bool, n: nat)
    ensures
        lower_sequence(ops, c, skip_labeled, n) matches Ok(t) ==> forall|i: int|
            0 <= i < t.ops.len() && (#[trigger] t.ops[i]).instruction is McGate ==> skip_labeled && t.ops[i].label is Some,
    decreases ops.len(),
{
    if ops.len() > 0 {
        lemma_lowering_leaves_only_skipped_mc_gates(ops.drop_last(), c, skip_labeled, n);
        if let Ok(t) = lower_sequence(ops, c, skip_labeled, n) {
            let prev = lower_sequence(ops.drop_last(), c, skip_labeled, n)->Ok_0;
            let op = ops.last();
            reveal(lower_step);
            let replacement = lower_step(op, c, skip_labeled, n)->Ok_0.1;
            if let crate::circuit::Instruction::McGate(g) = op.instruction {
                if !(op.label is Some && skip_labeled) {
                    lemma_mc_gate(g, op.qubits, op.params, c);
                }
            }
            assert forall|i: int| 0 <= i < t.ops.len() && (#[trigger] t.ops[i]).instruction is McGate implies skip_labeled
                && t.ops[i].label is Some by {
                assert(t.ops == prev.ops + replacement);
                if i < prev.ops.len() {
                    assert(t.ops[i] == prev.ops[i]);
                } else {
                    assert(t.ops[i] == replacement[i - prev.ops.len()]);
                }
            }
        }
    }
}

} // verus!
