//! The lowering of a multi-controlled `RZ` is exactly the multi-controlled
//! rotation, without ancillas and with clean ancillas alike.
//!
//! `C^k RZ(theta)` is `C^k Phase(theta)` on the target followed by
//! `C^(k-1) Phase(-theta / 2)` on the last control. Without ancillas each
//! controlled phase is an exact phase polynomial; with clean ancillas it
//! computes the AND of its controls into a clean flag, applies a
//! controlled-phase pair to the flag and the target, and uncomputes the
//! flag. On a basis state whose controls are all set the two phases add up
//! to `theta / 2` or `-theta / 2` as the target is set or not, and to
//! nothing otherwise.
use crate::circuit::{scaled_angle, Angle, CircuitParam, McGate, OpView, Qubit, StandardGate};
use crate::decompose::mc_gate::decompose::{
    mc_gate_control_count, mc_gate_result, operand_model, validation_issue, AncillaMode, LoweringConfig, OperandModel,
};
use crate::decompose::mc_gate::phase_ops::{controlled_phase_pair, phase_component, phase_op, phase_terms};
use crate::decompose::mcx::{
    clean_ancilla_mcx_result, clean_mcx, clean_required, lemma_all_set_split, lemma_clean_mcx_implements_mcx, two_pow,
    v_chain_compute,
};
use crate::decompose::phase_polynomial::{
    bit_value, is_cx_or_phase, lemma_clean_mcx_shape, lemma_flip_run, lemma_phase_pair_run,
    lemma_phase_polynomial_is_controlled_phase, lemma_phase_run_concat, phase_run,
};
use crate::decompose::mc_gate::flip_semantics::lemma_ancillas_apart;
use crate::decompose::mc_gate::rx_ry::{half_pi, rotation_op};
use crate::error::{AncillaKind, LoweringFamily};
use crate::semantics::{all_set, lemma_first_duplicate_none};
use vstd::prelude::*;

verus! {

/// The ancilla-free lowering of a multi-controlled `RZ(theta)` is the
/// controlled phase `theta` over all operands followed by the controlled
/// phase `-theta / 2` over the controls.
proof fn lemma_rz_shape(gate: McGate, qubits: Seq<Qubit>, params: Seq<CircuitParam>, c: LoweringConfig)
    requires
        gate.base == StandardGate::RZ || gate.base == StandardGate::CRZ,
        mc_gate_control_count(gate) >= 2,
        c.mode == AncillaMode::NoAncilla,
    ensures
        mc_gate_result(gate, qubits, params, c) matches Ok(ops) ==> ({
            let k = mc_gate_control_count(gate);
            let theta = params[0]->Fixed_0;
            let h = scaled_angle(theta, -1, 1)->Some_0;
            &&& params[0] is Fixed
            &&& qubits.no_duplicates()
            &&& qubits.len() == k + 1
            &&& scaled_angle(theta, 1, k) is Some
            &&& scaled_angle(theta, -1, k) is Some
            &&& scaled_angle(theta, -1, 1) is Some
            &&& scaled_angle(h, 1, (k - 1) as nat) is Some
            &&& scaled_angle(h, -1, (k - 1) as nat) is Some
            &&& ops == phase_terms(qubits, two_pow(k + 1), scaled_angle(theta, 1, k)->Some_0, scaled_angle(theta, -1, k)->Some_0)
                + phase_terms(
                qubits.drop_last(),
                two_pow(k),
                scaled_angle(h, 1, (k - 1) as nat)->Some_0,
                scaled_angle(h, -1, (k - 1) as nat)->Some_0,
            )
        }),
{
    if let Ok(ops) = mc_gate_result(gate, qubits, params, c) {
        assert(validation_issue(gate, qubits, params, c) is None);
        let m = operand_model(gate, qubits, params);
        let k = m.controls.len();
        assert(m.controls == qubits.drop_last());
        assert(m.controls.push(m.targets[0]) =~= qubits);
        assert(m.controls.subrange(0, k - 1).push(m.controls[k - 1]) =~= m.controls);
        lemma_first_duplicate_none(qubits);
    }
}

/// Law: without ancillas, the lowering of an `RZ(theta)` or `CRZ(theta)`
/// under at least two controls in all is a sequence of `CX` and `Phase`
/// operations that maps every basis state to itself with the phase
/// `theta / 2` when all controls and the target are set, `-theta / 2` when
/// all controls are set and the target is not, and `0` otherwise: exactly
/// `C^k RZ(theta)`. Phases are counted in units of `theta`'s base over
/// `2^(d + k)`, where `2^d` is `theta`'s denominator and `k` the number of
/// controls.
pub proof fn lemma_no_ancilla_rz_is_controlled_rz(gate: McGate, qubits: Seq<Qubit>, params: Seq<CircuitParam>, c: LoweringConfig, bits: spec_fn(Qubit) -> bool)
    requires
        gate.base == StandardGate::RZ || gate.base == StandardGate::CRZ,
        mc_gate_control_count(gate) >= 2,
        c.mode == AncillaMode::NoAncilla,
    ensures
        mc_gate_result(gate, qubits, params, c) matches Ok(ops) ==> ({
            let k = mc_gate_control_count(gate);
            let theta = params[0]->Fixed_0;
            let half = theta.numerator * two_pow((k - 1) as nat);
            &&& forall|i: int| 0 <= i < ops.len() ==> is_cx_or_phase(#[trigger] ops[i])
            &&& phase_run(ops, bits, (theta.log2_denominator + k) as nat) == (bits, if all_set(bits, qubits.drop_last()) {
                if bits(qubits.last()) { half } else { -half }
            } else {
                0
            })
        }),
{
    lemma_rz_shape(gate, qubits, params, c);
    if let Ok(ops) = mc_gate_result(gate, qubits, params, c) {
        let k = mc_gate_control_count(gate);
        let theta = params[0]->Fixed_0;
        let controls = qubits.drop_last();
        let target = qubits.last();
        let precision = (theta.log2_denominator + k) as nat;
        let pos = scaled_angle(theta, 1, k)->Some_0;
        let neg = scaled_angle(theta, -1, k)->Some_0;
        assert(controls.push(target) =~= qubits);
        lemma_phase_polynomial_is_controlled_phase(qubits, pos, neg, theta, bits);
        let x = phase_terms(qubits, two_pow(k + 1), pos, neg);
        let h = scaled_angle(theta, -1, 1)->Some_0;
        assert(controls.no_duplicates()) by {
            assert forall|i: int, j: int| 0 <= i < controls.len() && 0 <= j < controls.len() && i != j implies controls[i] != controls[j] by {
                assert(controls[i] == qubits[i] && controls[j] == qubits[j]);
            }
        }
        let pos2 = scaled_angle(h, 1, (k - 1) as nat)->Some_0;
        let neg2 = scaled_angle(h, -1, (k - 1) as nat)->Some_0;
        lemma_phase_polynomial_is_controlled_phase(controls, pos2, neg2, h, bits);
        let y = phase_terms(controls, two_pow(k), pos2, neg2);
        lemma_phase_run_concat(x, y, bits, precision);
        lemma_all_set_split(bits, qubits);
        assert(pos.log2_denominator == precision);
        assert(pos2.log2_denominator == precision);
        let a = two_pow(k);
        let half = theta.numerator * two_pow((k - 1) as nat);
        assert(a == 2 * two_pow((k - 1) as nat));
        let both = bit_value(all_set(bits, qubits));
        let ctl = bit_value(all_set(bits, controls));
        assert(theta.numerator * a * both + h.numerator * two_pow((k - 1) as nat) * ctl == if all_set(bits, controls) {
            if bits(target) { half } else { -half }
        } else {
            0
        }) by (nonlinear_arith)
            requires
                a == 2 * two_pow((k - 1) as nat),
                h.numerator == -theta.numerator,
                half == theta.numerator * two_pow((k - 1) as nat),
                both == if all_set(bits, controls) && bits(target) { 1int } else { 0int },
                ctl == if all_set(bits, controls) { 1int } else { 0int };
        assert forall|i: int| 0 <= i < ops.len() implies is_cx_or_phase(#[trigger] ops[i]) by {
            if i < x.len() {
                assert(ops[i] == x[i]);
            } else {
                assert(ops[i] == y[i - x.len()]);
            }
        }
    }
}

/// Whether the clean work qubits are distinct, apart from `operands`, and unset.
pub open spec fn clean_ready(c: LoweringConfig, operands: Seq<Qubit>, bits: spec_fn(Qubit) -> bool) -> bool {
    &&& c.clean.no_duplicates()
    &&& forall|i: int| 0 <= i < c.clean.len() ==> !operands.contains(#[trigger] c.clean[i])
    &&& forall|i: int| 0 <= i < c.clean.len() ==> !bits(#[trigger] c.clean[i])
}

/// With clean work qubits that start unset, a controlled phase component
/// adds `theta` exactly when its controls and its target are all set.
pub(crate) proof fn lemma_clean_phase_component(m: OperandModel, c: LoweringConfig, family: LoweringFamily, controls: Seq<Qubit>, target: Qubit, theta: Angle, bits: spec_fn(Qubit) -> bool, precision: nat)
    requires
        c.mode == AncillaMode::CleanAncilla,
        controls.push(target).no_duplicates(),
        clean_ready(c, controls.push(target), bits),
        theta.log2_denominator + 1 <= precision,
    ensures
        phase_component(m, c, family, controls, target, theta) matches Ok(ops) ==> phase_run(ops, bits, precision) == (
            bits,
            theta.numerator * two_pow((precision - theta.log2_denominator) as nat) * bit_value(all_set(bits, controls.push(target))),
        ),
{
    let k = controls.len();
    let all = controls.push(target);
    let w = two_pow((precision - theta.log2_denominator) as nat);
    lemma_all_set_split(bits, all);
    assert(all.drop_last() =~= controls);
    if let Ok(ops) = phase_component(m, c, family, controls, target, theta) {
        if k == 0 {
            let op = phase_op(target, theta);
            assert(ops == seq![op]);
            assert(seq![op].drop_last() =~= Seq::<OpView>::empty());
            assert(seq![op].last() == op);
            assert(all_set(bits, controls));
            assert(all_set(bits, all) == bits(target));
            assert(op.qubits[0] == target && op.params[0] == CircuitParam::Fixed(theta));
            assert(phase_run(Seq::<OpView>::empty(), bits, precision) == (bits, 0int));
            let v = bit_value(all_set(bits, all));
            assert(theta.numerator * w * v == if bits(target) { theta.numerator * w } else { 0 }) by (nonlinear_arith)
                requires
                    v == if bits(target) { 1int } else { 0int };
            assert(phase_run(ops, bits, precision) == (bits, theta.numerator * w * bit_value(all_set(bits, all))));
        } else if k == 1 {
            let half = scaled_angle(theta, 1, 1)->Some_0;
            let negative_half = scaled_angle(theta, -1, 1)->Some_0;
            assert(all[0] != all[1]);
            lemma_phase_pair_run(controls[0], target, half, negative_half, bits, precision);
            assert(two_pow((precision - theta.log2_denominator) as nat) == 2 * two_pow((precision - half.log2_denominator) as nat));
            lemma_all_set_split(bits, controls);
            assert(controls.drop_last() =~= Seq::<Qubit>::empty());
            assert(all_set(bits, controls) == bits(controls[0]));
            let u = half.numerator * two_pow((precision - half.log2_denominator) as nat);
            assert(2 * u == theta.numerator * w) by (nonlinear_arith)
                requires
                    u == half.numerator * two_pow((precision - half.log2_denominator) as nat),
                    half.numerator == theta.numerator,
                    w == 2 * two_pow((precision - half.log2_denominator) as nat);
            assert(phase_run(ops, bits, precision) == (bits, theta.numerator * w * bit_value(all_set(bits, all))));
        } else {
            let flag = c.clean[0];
            let work = c.clean.subrange(1, k - 1);
            let compute = clean_ancilla_mcx_result(controls, flag, work)->Ok_0;
            assert(work.subrange(0, clean_required(k) as int) == work);
            assert(compute == clean_mcx(controls, flag, work));
            let half = scaled_angle(theta, 1, 1)->Some_0;
            let negative_half = scaled_angle(theta, -1, 1)->Some_0;
            let pair = controlled_phase_pair(flag, target, half, negative_half);
            assert(ops == compute + pair + compute.reverse());
            lemma_clean_mcx_shape(controls, flag, work);
            crate::semantics::lemma_first_duplicate_none(controls + seq![flag] + work);
            assert forall|i: int| 0 <= i < work.len() implies !bits(#[trigger] work[i]) by {
                assert(work[i] == c.clean[i + 1]);
            }
            lemma_clean_mcx_implements_mcx(controls, flag, work, bits);
            lemma_flip_run(compute, bits, precision);
            let s1 = crate::semantics::mcx_state(bits, controls, flag);
            assert(!bits(flag));
            assert(all[k as int] == target);
            assert(all.contains(target));
            assert(flag != target);
            assert(s1(flag) == all_set(bits, controls));
            assert(s1(target) == bits(target));
            lemma_phase_pair_run(flag, target, half, negative_half, s1, precision);
            assert forall|i: int| 0 <= i < work.len() implies !s1(#[trigger] work[i]) by {
                assert(work[i] == c.clean[i + 1]);
                assert(c.clean[i + 1] != c.clean[0]);
            }
            lemma_clean_mcx_implements_mcx(controls, flag, work, s1);
            lemma_flip_run(compute, s1, precision);
            assert forall|i: int| 0 <= i < controls.len() implies controls[i] != flag by {
                assert(all.contains(controls[i])) by {
                    assert(all[i] == controls[i]);
                }
            }
            assert(all_set(s1, controls) == all_set(bits, controls)) by {
                assert forall|i: int| 0 <= i < controls.len() implies s1(controls[i]) == bits(controls[i]) by {}
            }
            assert(crate::semantics::mcx_state(s1, controls, flag) =~= bits);
            lemma_phase_run_concat(compute, pair, bits, precision);
            lemma_phase_run_concat(compute + pair, compute.reverse(), bits, precision);
            assert(two_pow((precision - theta.log2_denominator) as nat) == 2 * two_pow((precision - half.log2_denominator) as nat));
            let u = half.numerator * two_pow((precision - half.log2_denominator) as nat);
            assert(2 * u == theta.numerator * w) by (nonlinear_arith)
                requires
                    u == half.numerator * two_pow((precision - half.log2_denominator) as nat),
                    half.numerator == theta.numerator,
                    w == 2 * two_pow((precision - half.log2_denominator) as nat);
            assert(phase_run(ops, bits, precision) == (bits, theta.numerator * w * bit_value(all_set(bits, all))));
        }
    }
}

/// With clean ancillas, the lowering of a multi-controlled `RZ(theta)` is
/// the clean controlled phase `theta` over all operands followed by the
/// clean controlled phase `-theta / 2` over the controls, on distinct
/// operands with distinct work qubits apart from them.
proof fn lemma_clean_rz_shape(gate: McGate, qubits: Seq<Qubit>, params: Seq<CircuitParam>, c: LoweringConfig)
    requires
        gate.base == StandardGate::RZ || gate.base == StandardGate::CRZ,
        mc_gate_control_count(gate) >= 2,
        c.mode == AncillaMode::CleanAncilla,
    ensures
        mc_gate_result(gate, qubits, params, c) matches Ok(ops) ==> ({
            let k = mc_gate_control_count(gate);
            let m = operand_model(gate, qubits, params);
            let theta = params[0]->Fixed_0;
            let h = scaled_angle(theta, -1, 1)->Some_0;
            let controls = qubits.drop_last();
            let x = phase_component(m, c, LoweringFamily::Rz, controls, qubits.last(), theta);
            let y = phase_component(m, c, LoweringFamily::Rz, controls.subrange(0, k - 1), controls[k - 1], h);
            &&& params[0] is Fixed
            &&& qubits.no_duplicates()
            &&& qubits.len() == k + 1
            &&& c.clean.no_duplicates()
            &&& forall|i: int| 0 <= i < c.clean.len() ==> !qubits.contains(#[trigger] c.clean[i])
            &&& scaled_angle(theta, -1, 1) is Some
            &&& x is Ok && y is Ok
            &&& ops == x->Ok_0 + y->Ok_0
        }),
{
    if let Ok(ops) = mc_gate_result(gate, qubits, params, c) {
        assert(validation_issue(gate, qubits, params, c) is None);
        let m = operand_model(gate, qubits, params);
        let k = m.controls.len();
        assert(m.controls == qubits.drop_last());
        assert(m.targets[0] == qubits.last());
        lemma_first_duplicate_none(qubits);
        lemma_ancillas_apart(AncillaKind::Clean, qubits, c.clean);
    }
}

/// Law: with clean ancillas that start unset, the lowering of an
/// `RZ(theta)` or `CRZ(theta)` under at least two controls in all maps every
/// basis state to itself with the phase `theta / 2` when all controls and
/// the target are set, `-theta / 2` when all controls are set and the target
/// is not, and `0` otherwise, and leaves the ancillas unset: exactly
/// `C^k RZ(theta)` on the operands. Phases are counted in units of `theta`'s
/// base over `2^(d + 2)`, where `2^d` is `theta`'s denominator.
pub proof fn lemma_clean_rz_is_controlled_rz(gate: McGate, qubits: Seq<Qubit>, params: Seq<CircuitParam>, c: LoweringConfig, bits: spec_fn(Qubit) -> bool)
    requires
        gate.base == StandardGate::RZ || gate.base == StandardGate::CRZ,
        mc_gate_control_count(gate) >= 2,
        c.mode == AncillaMode::CleanAncilla,
        forall|i: int| 0 <= i < c.clean.len() ==> !bits(#[trigger] c.clean[i]),
    ensures
        mc_gate_result(gate, qubits, params, c) matches Ok(ops) ==> ({
            let theta = params[0]->Fixed_0;
            let half = 2 * theta.numerator;
            phase_run(ops, bits, (theta.log2_denominator + 2) as nat) == (bits, if all_set(bits, qubits.drop_last()) {
                if bits(qubits.last()) { half } else { -half }
            } else {
                0
            })
        }),
{
    lemma_clean_rz_shape(gate, qubits, params, c);
    if let Ok(ops) = mc_gate_result(gate, qubits, params, c) {
        let k = mc_gate_control_count(gate);
        let m = operand_model(gate, qubits, params);
        let theta = params[0]->Fixed_0;
        let h = scaled_angle(theta, -1, 1)->Some_0;
        let controls = qubits.drop_last();
        let target = qubits.last();
        let first = controls.subrange(0, k - 1);
        let last = controls[k - 1];
        let precision = (theta.log2_denominator + 2) as nat;
        assert(controls.push(target) =~= qubits);
        assert(first.push(last) =~= controls);
        assert(controls.no_duplicates()) by {
            assert forall|i: int, j: int| 0 <= i < controls.len() && 0 <= j < controls.len() && i != j implies controls[i] != controls[j] by {
                assert(controls[i] == qubits[i] && controls[j] == qubits[j]);
            }
        }
        assert(clean_ready(c, controls, bits)) by {
            assert forall|i: int| 0 <= i < c.clean.len() implies !controls.contains(#[trigger] c.clean[i]) by {
                if controls.contains(c.clean[i]) {
                    let j = choose|j: int| 0 <= j < controls.len() && controls[j] == c.clean[i];
                    assert(qubits[j] == c.clean[i]);
                }
            }
        }
        lemma_clean_phase_component(m, c, LoweringFamily::Rz, controls, target, theta, bits, precision);
        lemma_clean_phase_component(m, c, LoweringFamily::Rz, first, last, h, bits, precision);
        let x = phase_component(m, c, LoweringFamily::Rz, controls, target, theta)->Ok_0;
        let y = phase_component(m, c, LoweringFamily::Rz, first, last, h)->Ok_0;
        lemma_phase_run_concat(x, y, bits, precision);
        lemma_all_set_split(bits, qubits);
        assert(two_pow(2) == 4 && two_pow(1) == 2) by {
            assert(two_pow(0) == 1);
        }
        assert(((precision - theta.log2_denominator) as nat) == 2);
        assert(((precision - h.log2_denominator) as nat) == 1);
        let both = bit_value(all_set(bits, qubits));
        let ctl = bit_value(all_set(bits, controls));
        let half = 2 * theta.numerator;
        assert(theta.numerator * 4 * both + h.numerator * 2 * ctl == if all_set(bits, controls) {
            if bits(target) { half } else { -half }
        } else {
            0
        }) by (nonlinear_arith)
            requires
                h.numerator == -theta.numerator,
                half == 2 * theta.numerator,
                both == if all_set(bits, controls) && bits(target) { 1int } else { 0int },
                ctl == if all_set(bits, controls) { 1int } else { 0int };
    }
}

/// Law: the lowering of an `RX`, `RY`, `CRX` or `CRY` under at least two
/// controls in all is the lowering of the `CRZ` with the same operands and
/// parameter, conjugated on the target by `H` for `RX` and `CRX`, and by
/// `RX(pi / 2)` before and `RX(-pi / 2)` after for `RY` and `CRY`. The laws
/// above give that inner lowering's action exactly.
#[verifier::rlimit(40)]
pub proof fn lemma_rx_ry_conjugates_rz(gate: McGate, qubits: Seq<Qubit>, params: Seq<CircuitParam>, c: LoweringConfig)
    requires
        gate.base == StandardGate::RX || gate.base == StandardGate::RY || gate.base == StandardGate::CRX
            || gate.base == StandardGate::CRY,
        mc_gate_control_count(gate) >= 2,
    ensures
        mc_gate_result(gate, qubits, params, c) matches Ok(ops) ==> ({
            let lifted = McGate { added_controls: (mc_gate_control_count(gate) - 1) as u8, base: StandardGate::CRZ };
            let target = qubits.last();
            let x_axis = gate.base == StandardGate::RX || gate.base == StandardGate::CRX;
            let before = if x_axis {
                crate::circuit::plain(StandardGate::H, seq![target])
            } else {
                rotation_op(StandardGate::RX, target, half_pi(1i64))
            };
            let after = if x_axis {
                crate::circuit::plain(StandardGate::H, seq![target])
            } else {
                rotation_op(StandardGate::RX, target, half_pi(-1i64))
            };
            &&& mc_gate_control_count(lifted) == mc_gate_control_count(gate)
            &&& mc_gate_result(lifted, qubits, params, c) is Ok
            &&& ops == seq![before] + mc_gate_result(lifted, qubits, params, c)->Ok_0 + seq![after]
        }),
{
    if let Ok(ops) = mc_gate_result(gate, qubits, params, c) {
        assert(validation_issue(gate, qubits, params, c) is None);
        let m = operand_model(gate, qubits, params);
        assert(m.controls.push(m.targets[0]) =~= qubits);
    }
}

} // verus!
