//! The lowering of a controlled Phase-family gate is exactly the
//! multi-controlled phase, without ancillas and with clean ancillas alike.
//!
//! `S`, `SDG`, `T`, `TDG` and `Phase(theta)` are phases of fixed angles, so
//! their controlled lowering is a single controlled-phase component: on a
//! basis state it adds the angle exactly when all controls and the target
//! are set, and nothing otherwise.
use crate::circuit::{scaled_angle, CircuitParam, McGate, Qubit};
use crate::decompose::mc_gate::decompose::{
    mc_gate_control_count, mc_gate_result, operand_model, validation_issue, AncillaMode, LoweringConfig,
};
use crate::decompose::mc_gate::flip_semantics::lemma_ancillas_apart;
use crate::decompose::mc_gate::phase::{phase_angle, phase_member};
use crate::decompose::mc_gate::phase_ops::{phase_component, phase_terms};
use crate::decompose::mc_gate::rz_semantics::{clean_ready, lemma_clean_phase_component};
use crate::decompose::mcx::two_pow;
use crate::decompose::phase_polynomial::{
    bit_value, is_cx_or_phase, lemma_phase_polynomial_is_controlled_phase, phase_run,
};
use crate::error::{AncillaKind, LoweringFamily};
use crate::semantics::{all_set, lemma_first_duplicate_none};
use vstd::prelude::*;

verus! {

/// Law: without ancillas, the lowering of an `S`, `SDG`, `T`, `TDG` or
/// `Phase(theta)` under at least one control is a sequence of `CX` and
/// `Phase` operations that maps every basis state to itself with the
/// gate's phase exactly when all controls and the target are set: exactly
/// `C^k Phase(theta)`. Phases are counted in units of the angle's base over
/// `2^(d + k)`, where `2^d` is the angle's denominator and `k` the number of
/// controls.
pub proof fn lemma_no_ancilla_phase_family_is_controlled_phase(gate: McGate, qubits: Seq<Qubit>, params: Seq<CircuitParam>, c: LoweringConfig, bits: spec_fn(Qubit) -> bool)
    requires
        phase_member(gate.base),
        mc_gate_control_count(gate) >= 1,
        c.mode == AncillaMode::NoAncilla,
    ensures
        mc_gate_result(gate, qubits, params, c) matches Ok(ops) ==> ({
            let k = mc_gate_control_count(gate);
            let theta = phase_angle(gate.base, params)->Some_0;
            &&& forall|i: int| 0 <= i < ops.len() ==> is_cx_or_phase(#[trigger] ops[i])
            &&& phase_run(ops, bits, (theta.log2_denominator + k) as nat) == (
                bits,
                theta.numerator * two_pow(k) * bit_value(all_set(bits, qubits)),
            )
        }),
{
    if let Ok(ops) = mc_gate_result(gate, qubits, params, c) {
        assert(validation_issue(gate, qubits, params, c) is None);
        let m = operand_model(gate, qubits, params);
        let k = m.controls.len();
        let theta = phase_angle(gate.base, params)->Some_0;
        assert(m.controls.push(m.targets[0]) =~= qubits);
        lemma_first_duplicate_none(qubits);
        let pos = scaled_angle(theta, 1, k)->Some_0;
        let neg = scaled_angle(theta, -1, k)->Some_0;
        assert(ops == phase_terms(qubits, two_pow(k + 1), pos, neg));
        lemma_phase_polynomial_is_controlled_phase(qubits, pos, neg, theta, bits);
    }
}

/// Law: with clean ancillas that start unset, the lowering of an `S`,
/// `SDG`, `T`, `TDG` or `Phase(theta)` under at least one control maps every
/// basis state to itself with its phase exactly when all controls and
/// the target are set, and leaves the ancillas unset: exactly
/// `C^k Phase(theta)` on the operands. Phases are counted in units of the
/// angle's base over `2^(d + 1)`, where `2^d` is the angle's denominator.
pub proof fn lemma_clean_phase_family_is_controlled_phase(gate: McGate, qubits: Seq<Qubit>, params: Seq<CircuitParam>, c: LoweringConfig, bits: spec_fn(Qubit) -> bool)
    requires
        phase_member(gate.base),
        mc_gate_control_count(gate) >= 1,
        c.mode == AncillaMode::CleanAncilla,
        forall|i: int| 0 <= i < c.clean.len() ==> !bits(#[trigger] c.clean[i]),
    ensures
        mc_gate_result(gate, qubits, params, c) matches Ok(ops) ==> ({
            let theta = phase_angle(gate.base, params)->Some_0;
            phase_run(ops, bits, (theta.log2_denominator + 1) as nat) == (
                bits,
                2 * theta.numerator * bit_value(all_set(bits, qubits)),
            )
        }),
{
    if let Ok(ops) = mc_gate_result(gate, qubits, params, c) {
        assert(validation_issue(gate, qubits, params, c) is None);
        let m = operand_model(gate, qubits, params);
        let theta = phase_angle(gate.base, params)->Some_0;
        let controls = m.controls;
        let target = m.targets[0];
        assert(controls.push(target) =~= qubits);
        lemma_first_duplicate_none(qubits);
        lemma_ancillas_apart(AncillaKind::Clean, qubits, c.clean);
        assert(clean_ready(c, qubits, bits));
        let precision = (theta.log2_denominator + 1) as nat;
        lemma_clean_phase_component(m, c, LoweringFamily::Phase, controls, target, theta, bits, precision);
        assert(ops == phase_component(m, c, LoweringFamily::Phase, controls, target, theta)->Ok_0);
        assert(((precision - theta.log2_denominator) as nat) == 1);
        assert(two_pow(1) == 2) by {
            assert(two_pow(0) == 1);
        }
        assert(theta.numerator * two_pow(1) * bit_value(all_set(bits, qubits)) == 2 * theta.numerator * bit_value(all_set(bits, qubits))) by (nonlinear_arith)
            requires
                two_pow(1) == 2;
    }
}

} // verus!
