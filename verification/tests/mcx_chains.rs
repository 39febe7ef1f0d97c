use cqlib_decompose::circuit::{
    make_operation, Angle, AngleBase, CircuitParam, Directive, Instruction, Operation, Qubit, StandardGate,
};
use cqlib_decompose::decompose::mc_gate::mcx::clean_v_chain::decompose_mcx_n_clean;
use cqlib_decompose::decompose::mc_gate::mcx::dirty_v_chain::{
    decompose_mcx_n_dirty, decompose_relative_phase_mcx_n_dirty,
};
use cqlib_decompose::decompose::mc_gate::mcx::one_clean_recursive::decompose_mcx_1_clean_b95;
use cqlib_decompose::decompose::mc_gate::mcx::trivial::{decompose_mcx_small, emit_relative_phase_toffoli};
use cqlib_decompose::decompose::mc_gate::mcx::utils::{invert_parameter_free_operations, selected_basis_states};
use cqlib_decompose::error::{AncillaKind, CompilerError, McxFailure};
use num_complex::Complex64;
use std::collections::HashMap;
use std::f64::consts::PI;

const EPSILON: f64 = 1e-10;

type Matrix = Vec<Vec<Complex64>>;
type State = HashMap<u64, Complex64>;

fn c(re: f64, im: f64) -> Complex64 {
    Complex64::new(re, im)
}

fn angle_value(angle: &Angle) -> f64 {
    let base = match angle.base {
        AngleBase::Pi => PI,
        AngleBase::Literal(bits) => f64::from_bits(bits),
    };
    angle.numerator as f64 * base / 2f64.powi(angle.log2_denominator as i32)
}

fn param_value(param: &CircuitParam, table: &[f64]) -> f64 {
    match param {
        CircuitParam::Fixed(angle) => angle_value(angle),
        CircuitParam::Index(index) => table[*index as usize],
    }
}

fn diag(a: Complex64, b: Complex64) -> Matrix {
    vec![vec![a, c(0.0, 0.0)], vec![c(0.0, 0.0), b]]
}

fn rx(theta: f64) -> Matrix {
    let (s, co) = (theta / 2.0).sin_cos();
    vec![vec![c(co, 0.0), c(0.0, -s)], vec![c(0.0, -s), c(co, 0.0)]]
}

fn ry(theta: f64) -> Matrix {
    let (s, co) = (theta / 2.0).sin_cos();
    vec![vec![c(co, 0.0), c(-s, 0.0)], vec![c(s, 0.0), c(co, 0.0)]]
}

fn rz(theta: f64) -> Matrix {
    diag(Complex64::from_polar(1.0, -theta / 2.0), Complex64::from_polar(1.0, theta / 2.0))
}

fn pauli_x() -> Matrix {
    vec![vec![c(0.0, 0.0), c(1.0, 0.0)], vec![c(1.0, 0.0), c(0.0, 0.0)]]
}

fn pauli_y() -> Matrix {
    vec![vec![c(0.0, 0.0), c(0.0, -1.0)], vec![c(0.0, 1.0), c(0.0, 0.0)]]
}

fn pauli_z() -> Matrix {
    diag(c(1.0, 0.0), c(-1.0, 0.0))
}

/// Inherent control count and the matrix applied to the remaining operands
/// (first remaining operand is the most significant local bit).
fn gate_action(gate: StandardGate, p: &[f64]) -> (usize, Matrix) {
    let one = c(1.0, 0.0);
    let i = c(0.0, 1.0);
    match gate {
        StandardGate::I => (0, diag(one, one)),
        StandardGate::X => (0, pauli_x()),
        StandardGate::Y => (0, pauli_y()),
        StandardGate::Z => (0, pauli_z()),
        StandardGate::H => {
            let h = c(1.0 / 2f64.sqrt(), 0.0);
            (0, vec![vec![h, h], vec![h, -h]])
        }
        StandardGate::S => (0, diag(one, i)),
        StandardGate::SDG => (0, diag(one, -i)),
        StandardGate::T => (0, diag(one, Complex64::from_polar(1.0, PI / 4.0))),
        StandardGate::TDG => (0, diag(one, Complex64::from_polar(1.0, -PI / 4.0))),
        StandardGate::RZ => (0, rz(p[0])),
        StandardGate::RX => (0, rx(p[0])),
        StandardGate::RY => (0, ry(p[0])),
        StandardGate::CX => (1, pauli_x()),
        StandardGate::CCX => (2, pauli_x()),
        other => panic!("gate {other:?} is not simulated here"),
    }
}

fn apply_operation(state: &State, op: &Operation, table: &[f64]) -> State {
    let qubits: Vec<u64> = op.qubits.to_vec().iter().map(|q| q.index() as u64).collect();
    let params: Vec<f64> = op.params.to_vec().iter().map(|p| param_value(p, table)).collect();
    let (controls, matrix) = match op.instruction {
        Instruction::Standard(gate) => gate_action(gate, &params),
        Instruction::McGate(gate) => {
            let (inherent, matrix) = gate_action(gate.base, &params);
            (inherent + gate.added_controls as usize, matrix)
        }
        Instruction::Directive(_) | Instruction::Delay => return state.clone(),
    };
    let (control_bits, target_bits) = qubits.split_at(controls);
    let k = target_bits.len();
    let mut out: State = HashMap::new();
    for (&basis, &amplitude) in state {
        if control_bits.iter().all(|&q| (basis >> q) & 1 == 1) {
            let mut column = 0usize;
            for (j, &t) in target_bits.iter().enumerate() {
                if (basis >> t) & 1 == 1 {
                    column |= 1 << (k - 1 - j);
                }
            }
            let cleared = target_bits.iter().fold(basis, |b, &t| b & !(1u64 << t));
            for (row, entries) in matrix.iter().enumerate() {
                let factor = entries[column];
                if factor.norm() == 0.0 {
                    continue;
                }
                let mut next = cleared;
                for (j, &t) in target_bits.iter().enumerate() {
                    if (row >> (k - 1 - j)) & 1 == 1 {
                        next |= 1u64 << t;
                    }
                }
                *out.entry(next).or_insert(c(0.0, 0.0)) += factor * amplitude;
            }
        } else {
            *out.entry(basis).or_insert(c(0.0, 0.0)) += amplitude;
        }
    }
    out.retain(|_, a| a.norm() > 1e-14);
    out
}

fn run_basis(ops: &[Operation], input: usize) -> State {
    let mut state: State = HashMap::new();
    state.insert(input as u64, c(1.0, 0.0));
    for op in ops {
        state = apply_operation(&state, op, &[]);
    }
    state
}

fn single_output(state: &State) -> (usize, Complex64) {
    let outputs: Vec<(u64, Complex64)> =
        state.iter().filter(|(_, a)| a.norm() >= EPSILON).map(|(b, a)| (*b, *a)).collect();
    assert_eq!(outputs.len(), 1, "state has outputs {outputs:?}");
    (outputs[0].0 as usize, outputs[0].1)
}

fn q(id: u32) -> Qubit {
    Qubit::new(id)
}

fn qubits(range: std::ops::Range<usize>) -> Vec<Qubit> {
    range.map(|id| Qubit::new(id as u32)).collect()
}

fn standard(gate: StandardGate, operands: &[Qubit]) -> Operation {
    make_operation(Instruction::Standard(gate), operands, &[])
}

fn assert_standard_operation(operation: &Operation, gate: StandardGate, operands: &[Qubit]) {
    assert_eq!(operation.instruction, Instruction::Standard(gate));
    assert_eq!(operation.qubits.to_vec().as_slice(), operands);
    assert!(operation.params.to_vec().is_empty());
    assert!(operation.label.is_none());
}

fn assert_single_operation(operations: &[Operation], gate: StandardGate, operands: &[Qubit]) {
    assert_eq!(operations.len(), 1);
    assert_standard_operation(&operations[0], gate, operands);
}

fn assert_rccx_expansion(operations: &[Operation], first: Qubit, second: Qubit, target: Qubit) {
    let mut expected = Vec::new();
    emit_relative_phase_toffoli(&mut expected, first, second, target);
    assert_eq!(operations, &expected[..]);
}

fn assert_action_gadget(operations: &[Operation], first: Qubit, second: Qubit, target: Qubit) {
    let expected = [
        (StandardGate::H, vec![target]),
        (StandardGate::T, vec![target]),
        (StandardGate::CX, vec![first, target]),
        (StandardGate::TDG, vec![target]),
        (StandardGate::CX, vec![second, target]),
    ];
    assert_eq!(operations.len(), expected.len());
    for (operation, (gate, operands)) in operations.iter().zip(expected) {
        assert_standard_operation(operation, gate, &operands);
    }
}

fn assert_reset_gadget(operations: &[Operation], first: Qubit, second: Qubit, target: Qubit) {
    let expected = [
        (StandardGate::CX, vec![second, target]),
        (StandardGate::T, vec![target]),
        (StandardGate::CX, vec![first, target]),
        (StandardGate::TDG, vec![target]),
        (StandardGate::H, vec![target]),
    ];
    assert_eq!(operations.len(), expected.len());
    for (operation, (gate, operands)) in operations.iter().zip(expected) {
        assert_standard_operation(operation, gate, &operands);
    }
}

fn duplicate_error(duplicate: Qubit) -> CompilerError {
    CompilerError::McxFailed(McxFailure::DuplicateQubit(duplicate))
}

/// Checks MCX bit-flip behavior for every listed input; ancilla bits must be
/// restored and, when `exact`, every amplitude must carry the same phase.
fn assert_mcx_behavior(
    operations: &[Operation],
    controls: &[Qubit],
    target: Qubit,
    ancillas: &[Qubit],
    inputs: impl IntoIterator<Item = usize>,
    exact: bool,
) {
    let mut global_phase: Option<Complex64> = None;
    for input in inputs {
        let (output, amplitude) = single_output(&run_basis(operations, input));
        let all_controls_set = controls.iter().all(|control| input & (1 << control.index()) != 0);
        let expected = if all_controls_set { input ^ (1 << target.index()) } else { input };
        assert_eq!(output, expected, "input basis state {input}");
        for ancilla in ancillas {
            assert_eq!(output & (1 << ancilla.index()), input & (1 << ancilla.index()));
        }
        assert!((amplitude.norm() - 1.0).abs() < EPSILON);
        if exact {
            let expected_phase = *global_phase.get_or_insert(amplitude);
            assert!(
                (amplitude - expected_phase).norm() < EPSILON,
                "input basis state {input} has relative phase {amplitude}, expected {expected_phase}"
            );
        }
    }
}

fn selected_data_inputs(num_controls: usize, target: Qubit) -> Vec<usize> {
    let control_mask = (1usize << num_controls) - 1;
    let target_mask = 1usize << target.index();
    let mut inputs = selected_basis_states(num_controls + 1);
    inputs.extend([control_mask, control_mask | target_mask]);
    inputs.sort_unstable();
    inputs.dedup();
    inputs
}

fn assert_clean_subspace_semantics(num_controls: usize) {
    let controls = qubits(0..num_controls);
    let target = q(num_controls as u32);
    let clean = qubits(num_controls + 1..2 * num_controls - 1);
    let operations = decompose_mcx_n_clean(&controls, target, &clean).unwrap();
    assert_mcx_behavior(&operations, &controls, target, &clean, 0..1usize << (num_controls + 1), true);
}

fn assert_clean_subspace_selected_basis_semantics(num_controls: usize) {
    let controls = qubits(0..num_controls);
    let target = q(num_controls as u32);
    let clean = qubits(num_controls + 1..2 * num_controls - 1);
    let operations = decompose_mcx_n_clean(&controls, target, &clean).unwrap();
    let inputs = selected_data_inputs(num_controls, target);
    assert_mcx_behavior(&operations, &controls, target, &clean, inputs, true);
}

fn dirty_operations(controls: &[Qubit], target: Qubit, dirty: &[Qubit], exact: bool) -> Vec<Operation> {
    if exact {
        decompose_mcx_n_dirty(controls, target, dirty).unwrap()
    } else {
        decompose_relative_phase_mcx_n_dirty(controls, target, dirty).unwrap()
    }
}

fn assert_dirty_ancilla_semantics(num_controls: usize, exact: bool) {
    let controls = qubits(0..num_controls);
    let target = q(num_controls as u32);
    let dirty = qubits(num_controls + 1..2 * num_controls - 1);
    let num_qubits = 2 * num_controls - 1;
    let operations = dirty_operations(&controls, target, &dirty, exact);
    assert_mcx_behavior(&operations, &controls, target, &dirty, 0..1usize << num_qubits, exact);
}

fn assert_dirty_ancilla_selected_basis_semantics(num_controls: usize, exact: bool) {
    let controls = qubits(0..num_controls);
    let target = q(num_controls as u32);
    let dirty = qubits(num_controls + 1..2 * num_controls - 1);
    let dirty_mask = (1usize << dirty.len()) - 1;
    let alternating = (0..dirty.len()).filter(|i| i % 2 == 0).fold(0usize, |s, i| s | (1usize << i));
    let operations = dirty_operations(&controls, target, &dirty, exact);
    let mut dirty_inputs = vec![0, dirty_mask, alternating, dirty_mask ^ alternating];
    dirty_inputs.sort_unstable();
    dirty_inputs.dedup();
    let data_inputs = selected_data_inputs(num_controls, target);
    let mut inputs = Vec::new();
    for dirty_input in dirty_inputs {
        for data_input in data_inputs.iter().copied() {
            inputs.push(data_input | (dirty_input << (num_controls + 1)));
        }
    }
    assert_mcx_behavior(&operations, &controls, target, &dirty, inputs, exact);
}

fn assert_one_clean_ancilla_semantics(num_controls: usize) {
    let controls = qubits(0..num_controls);
    let target = q(num_controls as u32);
    let clean = q(num_controls as u32 + 1);
    let operations = decompose_mcx_1_clean_b95(&controls, target, clean).unwrap();
    assert_mcx_behavior(&operations, &controls, target, &[clean], 0..1usize << (num_controls + 1), true);
}

fn assert_one_clean_ancilla_selected_basis_semantics(num_controls: usize) {
    let controls = qubits(0..num_controls);
    let target = q(num_controls as u32);
    let clean = q(num_controls as u32 + 1);
    let operations = decompose_mcx_1_clean_b95(&controls, target, clean).unwrap();
    let inputs = selected_data_inputs(num_controls, target);
    assert_mcx_behavior(&operations, &controls, target, &[clean], inputs, true);
}

// ---------------------------------------------------------------- trivial

#[test]
fn trivial_mcx_without_controls_emits_x() {
    let target = q(2);
    let operations = decompose_mcx_small(&[], target).unwrap();
    assert_single_operation(&operations, StandardGate::X, &[target]);
}

#[test]
fn trivial_mcx_with_one_control_emits_cx() {
    let operations = decompose_mcx_small(&[q(1)], q(2)).unwrap();
    assert_single_operation(&operations, StandardGate::CX, &[q(1), q(2)]);
}

#[test]
fn trivial_mcx_with_two_controls_emits_ccx() {
    let operations = decompose_mcx_small(&[q(1), q(3)], q(2)).unwrap();
    assert_single_operation(&operations, StandardGate::CCX, &[q(1), q(3), q(2)]);
}

#[test]
fn trivial_mcx_rejects_three_controls() {
    let error = decompose_mcx_small(&[q(0), q(1), q(2)], q(3)).unwrap_err();
    assert_eq!(error, CompilerError::McxFailed(McxFailure::TooManyTrivialControls(3)));
}

#[test]
fn trivial_mcx_rejects_duplicate_controls() {
    let error = decompose_mcx_small(&[q(1), q(1)], q(2)).unwrap_err();
    assert_eq!(error, duplicate_error(q(1)));
}

#[test]
fn trivial_mcx_rejects_target_matching_control() {
    let error = decompose_mcx_small(&[q(1)], q(1)).unwrap_err();
    assert_eq!(error, duplicate_error(q(1)));
}

#[test]
fn trivial_mcx_validates_qubits_before_rejecting_control_count() {
    let error = decompose_mcx_small(&[q(1), q(1), q(2)], q(3)).unwrap_err();
    assert_eq!(error, duplicate_error(q(1)));
}

// ---------------------------------------------------------------- clean V-chain

#[test]
fn clean_v_chain_without_controls_matches_trivial_decomposition() {
    let operations = decompose_mcx_n_clean(&[], q(0), &[]).unwrap();
    assert_eq!(operations, decompose_mcx_small(&[], q(0)).unwrap());
}

#[test]
fn clean_v_chain_with_one_control_matches_trivial_decomposition() {
    let controls = [q(0)];
    let operations = decompose_mcx_n_clean(&controls, q(1), &[]).unwrap();
    assert_eq!(operations, decompose_mcx_small(&controls, q(1)).unwrap());
}

#[test]
fn clean_v_chain_with_two_controls_matches_trivial_decomposition() {
    let controls = [q(0), q(1)];
    let operations = decompose_mcx_n_clean(&controls, q(2), &[]).unwrap();
    assert_eq!(operations, decompose_mcx_small(&controls, q(2)).unwrap());
}

#[test]
fn clean_v_chain_trivial_cases_ignore_extra_ancillas() {
    let target = q(2);
    let extra = [target, q(0), target];
    for controls in [&[][..], &[q(0)][..], &[q(0), q(1)][..]] {
        let operations = decompose_mcx_n_clean(controls, target, &extra).unwrap();
        assert_eq!(operations, decompose_mcx_small(controls, target).unwrap());
    }
}

#[test]
fn clean_v_chain_with_three_controls_emits_compute_target_uncompute() {
    let controls = [q(0), q(1), q(2)];
    let target = q(3);
    let clean = [q(4)];
    let operations = decompose_mcx_n_clean(&controls, target, &clean).unwrap();
    assert_eq!(operations.len(), 19);
    assert_rccx_expansion(&operations[..9], controls[0], controls[1], clean[0]);
    assert_standard_operation(&operations[9], StandardGate::CCX, &[controls[2], clean[0], target]);
    assert_rccx_expansion(&operations[10..], controls[0], controls[1], clean[0]);
}

#[test]
fn clean_v_chain_with_four_controls_emits_compute_target_reverse_uncompute() {
    let controls = [q(0), q(1), q(2), q(3)];
    let target = q(4);
    let clean = [q(5), q(6)];
    let operations = decompose_mcx_n_clean(&controls, target, &clean).unwrap();
    assert_eq!(operations.len(), 37);
    assert_rccx_expansion(&operations[..9], controls[0], controls[1], clean[0]);
    assert_rccx_expansion(&operations[9..18], controls[2], clean[0], clean[1]);
    assert_standard_operation(&operations[18], StandardGate::CCX, &[controls[3], clean[1], target]);
    assert_rccx_expansion(&operations[19..28], controls[2], clean[0], clean[1]);
    assert_rccx_expansion(&operations[28..], controls[0], controls[1], clean[0]);
}

#[test]
fn clean_v_chain_with_five_controls_emits_expected_operation_count() {
    let operations =
        decompose_mcx_n_clean(&qubits(0..5), q(5), &[q(6), q(7), q(8)]).unwrap();
    assert_eq!(operations.len(), 55);
}

#[test]
fn clean_v_chain_rejects_insufficient_clean_ancillas() {
    let error = decompose_mcx_n_clean(&qubits(0..4), q(4), &[q(5)]).unwrap_err();
    assert_eq!(
        error,
        CompilerError::McxFailed(McxFailure::VChainAncillasMissing {
            kind: AncillaKind::Clean,
            controls: 4,
            required: 2,
            got: 1,
        })
    );
}

#[test]
fn clean_v_chain_rejects_duplicate_controls() {
    let error = decompose_mcx_n_clean(&[q(0), q(1), q(1)], q(3), &[q(4)]).unwrap_err();
    assert_eq!(error, duplicate_error(q(1)));
}

#[test]
fn clean_v_chain_rejects_target_matching_control() {
    let error = decompose_mcx_n_clean(&[q(0), q(1), q(2)], q(1), &[q(4)]).unwrap_err();
    assert_eq!(error, duplicate_error(q(1)));
}

#[test]
fn clean_v_chain_rejects_used_ancilla_matching_control() {
    let error = decompose_mcx_n_clean(&[q(0), q(1), q(2)], q(3), &[q(1)]).unwrap_err();
    assert_eq!(error, duplicate_error(q(1)));
}

#[test]
fn clean_v_chain_rejects_used_ancilla_matching_target() {
    let error = decompose_mcx_n_clean(&[q(0), q(1), q(2)], q(3), &[q(3)]).unwrap_err();
    assert_eq!(error, duplicate_error(q(3)));
}

#[test]
fn clean_v_chain_rejects_duplicate_used_ancillas() {
    let error = decompose_mcx_n_clean(&qubits(0..4), q(4), &[q(5), q(5)]).unwrap_err();
    assert_eq!(error, duplicate_error(q(5)));
}

#[test]
fn clean_v_chain_ignores_unused_extra_ancillas() {
    let controls = [q(0), q(1), q(2)];
    let target = q(3);
    let used = q(4);
    let operations = decompose_mcx_n_clean(&controls, target, &[used]).unwrap();
    let with_extras = decompose_mcx_n_clean(&controls, target, &[used, controls[0], target, used]).unwrap();
    assert_eq!(with_extras, operations);
}

#[test]
fn clean_v_chain_validates_all_used_qubits_before_returning_operations() {
    let result = decompose_mcx_n_clean(&[q(0), q(1), q(2), q(3)], q(4), &[q(5), q(0)]);
    assert!(result.is_err());
}

#[test]
fn clean_v_chain_with_three_controls_matches_mcx_on_clean_subspace() {
    assert_clean_subspace_semantics(3);
}

#[test]
fn clean_v_chain_with_four_controls_matches_mcx_on_clean_subspace() {
    assert_clean_subspace_semantics(4);
}

#[test]
fn clean_v_chain_with_five_controls_matches_mcx_on_clean_subspace() {
    assert_clean_subspace_semantics(5);
}

#[test]
fn clean_v_chain_matches_selected_basis_semantics_at_large_widths() {
    for num_controls in [6, 7, 8] {
        assert_clean_subspace_selected_basis_semantics(num_controls);
    }
}

// ---------------------------------------------------------------- dirty V-chain

#[test]
fn dirty_v_chain_trivial_cases_match_trivial_decomposition() {
    let target = q(2);
    for controls in [&[][..], &[q(0)][..], &[q(0), q(1)][..]] {
        let expected = decompose_mcx_small(controls, target).unwrap();
        assert_eq!(decompose_mcx_n_dirty(controls, target, &[]).unwrap(), expected);
        assert_eq!(decompose_relative_phase_mcx_n_dirty(controls, target, &[]).unwrap(), expected);
    }
}

#[test]
fn dirty_v_chain_trivial_cases_ignore_extra_ancillas() {
    let target = q(2);
    let extra = [target, q(0), target];
    for controls in [&[][..], &[q(0)][..], &[q(0), q(1)][..]] {
        let expected = decompose_mcx_small(controls, target).unwrap();
        assert_eq!(decompose_mcx_n_dirty(controls, target, &extra).unwrap(), expected);
        assert_eq!(decompose_relative_phase_mcx_n_dirty(controls, target, &extra).unwrap(), expected);
    }
}

#[test]
fn dirty_v_chain_exact_with_three_controls_emits_two_ladders() {
    let controls = [q(0), q(1), q(2)];
    let target = q(3);
    let dirty = [q(4)];
    let operations = decompose_mcx_n_dirty(&controls, target, &dirty).unwrap();
    assert_eq!(operations.len(), 20);
    assert_standard_operation(&operations[0], StandardGate::CCX, &[controls[2], dirty[0], target]);
    assert_rccx_expansion(&operations[1..10], controls[0], controls[1], dirty[0]);
    assert_standard_operation(&operations[10], StandardGate::CCX, &[controls[2], dirty[0], target]);
    assert_rccx_expansion(&operations[11..], controls[0], controls[1], dirty[0]);
}

#[test]
fn dirty_v_chain_exact_with_four_controls_emits_two_ladders() {
    let controls = [q(0), q(1), q(2), q(3)];
    let target = q(4);
    let dirty = [q(5), q(6)];
    let operations = decompose_mcx_n_dirty(&controls, target, &dirty).unwrap();
    assert_eq!(operations.len(), 40);
    for offset in [0, 20] {
        assert_standard_operation(&operations[offset], StandardGate::CCX, &[controls[3], dirty[1], target]);
        assert_action_gadget(&operations[offset + 1..offset + 6], controls[2], dirty[0], dirty[1]);
        assert_rccx_expansion(&operations[offset + 6..offset + 15], controls[0], controls[1], dirty[0]);
        assert_reset_gadget(&operations[offset + 15..offset + 20], controls[2], dirty[0], dirty[1]);
    }
}

#[test]
fn dirty_v_chain_exact_with_five_controls_emits_two_internal_gadgets_per_ladder() {
    let controls = qubits(0..5);
    let target = q(5);
    let dirty = [q(6), q(7), q(8)];
    let operations = decompose_mcx_n_dirty(&controls, target, &dirty).unwrap();
    assert_eq!(operations.len(), 60);
    for offset in [0, 30] {
        assert_standard_operation(&operations[offset], StandardGate::CCX, &[controls[4], dirty[2], target]);
        assert_action_gadget(&operations[offset + 1..offset + 6], controls[3], dirty[1], dirty[2]);
        assert_action_gadget(&operations[offset + 6..offset + 11], controls[2], dirty[0], dirty[1]);
        assert_rccx_expansion(&operations[offset + 11..offset + 20], controls[0], controls[1], dirty[0]);
        assert_reset_gadget(&operations[offset + 20..offset + 25], controls[2], dirty[0], dirty[1]);
        assert_reset_gadget(&operations[offset + 25..offset + 30], controls[3], dirty[1], dirty[2]);
    }
}

#[test]
fn dirty_v_chain_relative_phase_with_three_controls_emits_endpoint_gadgets() {
    let controls = [q(0), q(1), q(2)];
    let target = q(3);
    let dirty = [q(4)];
    let operations = decompose_relative_phase_mcx_n_dirty(&controls, target, &dirty).unwrap();
    assert_eq!(operations.len(), 28);
    assert_action_gadget(&operations[..5], controls[2], dirty[0], target);
    assert_rccx_expansion(&operations[5..14], controls[0], controls[1], dirty[0]);
    assert_reset_gadget(&operations[14..19], controls[2], dirty[0], target);
    assert_rccx_expansion(&operations[19..], controls[0], controls[1], dirty[0]);
}

#[test]
fn dirty_v_chain_relative_phase_with_four_controls_emits_two_ladders() {
    let controls = [q(0), q(1), q(2), q(3)];
    let target = q(4);
    let dirty = [q(5), q(6)];
    let operations = decompose_relative_phase_mcx_n_dirty(&controls, target, &dirty).unwrap();
    assert_eq!(operations.len(), 48);
    assert_action_gadget(&operations[..5], controls[3], dirty[1], target);
    assert_action_gadget(&operations[5..10], controls[2], dirty[0], dirty[1]);
    assert_rccx_expansion(&operations[10..19], controls[0], controls[1], dirty[0]);
    assert_reset_gadget(&operations[19..24], controls[2], dirty[0], dirty[1]);
    assert_reset_gadget(&operations[24..29], controls[3], dirty[1], target);
    assert_action_gadget(&operations[29..34], controls[2], dirty[0], dirty[1]);
    assert_rccx_expansion(&operations[34..43], controls[0], controls[1], dirty[0]);
    assert_reset_gadget(&operations[43..], controls[2], dirty[0], dirty[1]);
}

#[test]
fn dirty_v_chain_rejects_insufficient_dirty_ancillas() {
    let error = decompose_mcx_n_dirty(&qubits(0..4), q(4), &[q(5)]).unwrap_err();
    assert_eq!(
        error,
        CompilerError::McxFailed(McxFailure::VChainAncillasMissing {
            kind: AncillaKind::Dirty,
            controls: 4,
            required: 2,
            got: 1,
        })
    );
}

#[test]
fn dirty_v_chain_rejects_duplicate_controls() {
    let error = decompose_mcx_n_dirty(&[q(0), q(1), q(1)], q(3), &[q(4)]).unwrap_err();
    assert_eq!(error, duplicate_error(q(1)));
}

#[test]
fn dirty_v_chain_rejects_target_matching_control() {
    let error = decompose_mcx_n_dirty(&[q(0), q(1), q(2)], q(1), &[q(4)]).unwrap_err();
    assert_eq!(error, duplicate_error(q(1)));
}

#[test]
fn dirty_v_chain_rejects_used_ancilla_matching_control() {
    let error = decompose_mcx_n_dirty(&[q(0), q(1), q(2)], q(3), &[q(1)]).unwrap_err();
    assert_eq!(error, duplicate_error(q(1)));
}

#[test]
fn dirty_v_chain_rejects_used_ancilla_matching_target() {
    let error = decompose_mcx_n_dirty(&[q(0), q(1), q(2)], q(3), &[q(3)]).unwrap_err();
    assert_eq!(error, duplicate_error(q(3)));
}

#[test]
fn dirty_v_chain_rejects_duplicate_used_ancillas() {
    let error = decompose_mcx_n_dirty(&qubits(0..4), q(4), &[q(5), q(5)]).unwrap_err();
    assert_eq!(error, duplicate_error(q(5)));
}

#[test]
fn dirty_v_chain_ignores_unused_extra_ancillas() {
    let controls = [q(0), q(1), q(2)];
    let target = q(3);
    let used = q(4);
    let extras = [used, controls[0], target, used];
    assert_eq!(
        decompose_mcx_n_dirty(&controls, target, &extras).unwrap(),
        decompose_mcx_n_dirty(&controls, target, &[used]).unwrap()
    );
    assert_eq!(
        decompose_relative_phase_mcx_n_dirty(&controls, target, &extras).unwrap(),
        decompose_relative_phase_mcx_n_dirty(&controls, target, &[used]).unwrap()
    );
}

#[test]
fn dirty_v_chain_exact_with_three_controls_matches_mcx() {
    assert_dirty_ancilla_semantics(3, true);
}

#[test]
fn dirty_v_chain_exact_with_four_controls_matches_mcx() {
    assert_dirty_ancilla_semantics(4, true);
}

#[test]
fn dirty_v_chain_exact_with_five_controls_matches_mcx() {
    assert_dirty_ancilla_semantics(5, true);
}

#[test]
fn dirty_v_chain_relative_phase_with_three_controls_matches_mcx_bit_flip_behavior() {
    assert_dirty_ancilla_semantics(3, false);
}

#[test]
fn dirty_v_chain_relative_phase_with_four_controls_matches_mcx_bit_flip_behavior() {
    assert_dirty_ancilla_semantics(4, false);
}

#[test]
fn dirty_v_chain_exact_matches_selected_basis_semantics_at_large_widths() {
    for num_controls in [6, 7, 8] {
        assert_dirty_ancilla_selected_basis_semantics(num_controls, true);
    }
}

#[test]
fn dirty_v_chain_relative_phase_matches_selected_basis_semantics_at_large_widths() {
    for num_controls in [5, 6, 7, 8] {
        assert_dirty_ancilla_selected_basis_semantics(num_controls, false);
    }
}

// ---------------------------------------------------------------- one clean ancilla

#[test]
fn one_clean_recursive_trivial_cases_match_trivial_decomposition() {
    let target = q(2);
    for (controls, clean) in [(vec![], target), (vec![q(0)], target), (vec![q(0), q(1)], q(0))] {
        let expected = decompose_mcx_small(&controls, target).unwrap();
        assert_eq!(decompose_mcx_1_clean_b95(&controls, target, clean).unwrap(), expected);
    }
}

#[test]
fn one_clean_recursive_rejects_duplicate_controls() {
    let error = decompose_mcx_1_clean_b95(&[q(0), q(1), q(1)], q(3), q(4)).unwrap_err();
    assert_eq!(error, duplicate_error(q(1)));
}

#[test]
fn one_clean_recursive_rejects_target_matching_control() {
    let error = decompose_mcx_1_clean_b95(&[q(0), q(1), q(2)], q(1), q(4)).unwrap_err();
    assert_eq!(error, duplicate_error(q(1)));
}

#[test]
fn one_clean_recursive_rejects_clean_ancilla_matching_control() {
    let error = decompose_mcx_1_clean_b95(&[q(0), q(1), q(2)], q(3), q(1)).unwrap_err();
    assert_eq!(error, duplicate_error(q(1)));
}

#[test]
fn one_clean_recursive_rejects_clean_ancilla_matching_target() {
    let error = decompose_mcx_1_clean_b95(&[q(0), q(1), q(2)], q(3), q(3)).unwrap_err();
    assert_eq!(error, duplicate_error(q(3)));
}

#[test]
fn one_clean_recursive_emits_b95_four_segment_structure() {
    for num_controls in 3..=6usize {
        let controls = qubits(0..num_controls);
        let target = q(num_controls as u32);
        let clean = q(num_controls as u32 + 1);
        let middle = (num_controls + 2) / 2;
        let first_controls = &controls[..middle];
        let first_dirty = &controls[middle..middle + first_controls.len() - 2];
        let mut second_controls = controls[middle..].to_vec();
        second_controls.push(clean);
        let second_dirty = &controls[..second_controls.len() - 2];

        let first = decompose_relative_phase_mcx_n_dirty(first_controls, clean, first_dirty).unwrap();
        let second = decompose_mcx_n_dirty(&second_controls, target, second_dirty).unwrap();
        let inverse_first = invert_parameter_free_operations(&first).unwrap();
        let second_again = decompose_mcx_n_dirty(&second_controls, target, second_dirty).unwrap();
        let mut expected = first;
        expected.extend(second);
        expected.extend(inverse_first);
        expected.extend(second_again);

        let operations = decompose_mcx_1_clean_b95(&controls, target, clean).unwrap();
        assert_eq!(operations, expected);
    }
}

#[test]
fn one_clean_recursive_with_three_controls_matches_mcx() {
    assert_one_clean_ancilla_semantics(3);
}

#[test]
fn one_clean_recursive_with_four_controls_matches_mcx() {
    assert_one_clean_ancilla_semantics(4);
}

#[test]
fn one_clean_recursive_with_five_controls_matches_mcx() {
    assert_one_clean_ancilla_semantics(5);
}

#[test]
fn one_clean_recursive_matches_selected_basis_semantics_at_large_widths() {
    for num_controls in [6, 7, 8, 9, 10] {
        assert_one_clean_ancilla_selected_basis_semantics(num_controls);
    }
}

#[test]
fn invert_parameter_free_operations_reverses_and_inverts_operations() {
    let operations = vec![
        standard(StandardGate::H, &[q(0)]),
        standard(StandardGate::CX, &[q(0), q(1)]),
        standard(StandardGate::T, &[q(1)]),
        standard(StandardGate::TDG, &[q(2)]),
        standard(StandardGate::CCX, &[q(0), q(1), q(2)]),
    ];
    let expected = vec![
        standard(StandardGate::CCX, &[q(0), q(1), q(2)]),
        standard(StandardGate::T, &[q(2)]),
        standard(StandardGate::TDG, &[q(1)]),
        standard(StandardGate::CX, &[q(0), q(1)]),
        standard(StandardGate::H, &[q(0)]),
    ];
    assert_eq!(invert_parameter_free_operations(&operations).unwrap(), expected);
}

#[test]
fn invert_parameter_free_operations_rejects_parameters() {
    let operation = make_operation(
        Instruction::Standard(StandardGate::RZ),
        &[q(0)],
        &[CircuitParam::Fixed(Angle::literal(0.5f64.to_bits()))],
    );
    let error = invert_parameter_free_operations(&vec![operation]).unwrap_err();
    assert_eq!(error, CompilerError::McxFailed(McxFailure::InversionRequiresParameterFree));
}

#[test]
fn invert_parameter_free_operations_rejects_non_invertible_instructions() {
    let instruction = Instruction::Directive(Directive::Barrier);
    let operation = make_operation(instruction, &[q(0)], &[]);
    let error = invert_parameter_free_operations(&vec![operation]).unwrap_err();
    assert_eq!(error, CompilerError::McxFailed(McxFailure::InversionUnsupported(instruction)));
}

// ---------------------------------------------------------------- own checks

#[test]
fn selected_basis_states_are_sorted_and_distinct() {
    assert_eq!(selected_basis_states(1), vec![0, 1]);
    assert_eq!(selected_basis_states(4), vec![0, 1, 5, 8, 10, 15]);
}

#[test]
fn relative_phase_toffoli_restores_its_controls_and_flips_the_target() {
    let mut operations = Vec::new();
    emit_relative_phase_toffoli(&mut operations, q(0), q(1), q(2));
    assert_eq!(operations.len(), 9);
    for input in 0..8usize {
        let (output, amplitude) = single_output(&run_basis(&operations, input));
        let expected = if input & 3 == 3 { input ^ 4 } else { input };
        assert_eq!(output, expected);
        assert!((amplitude.norm() - 1.0).abs() < EPSILON);
    }
}

#[test]
fn inverting_twice_gives_back_the_sequence() {
    let mut operations = Vec::new();
    emit_relative_phase_toffoli(&mut operations, q(0), q(1), q(2));
    operations.push(standard(StandardGate::S, &[q(1)]));
    operations.push(standard(StandardGate::X2P, &[q(0)]));
    let inverse = invert_parameter_free_operations(&operations).unwrap();
    assert_ne!(inverse, operations);
    assert_eq!(inverse[0], standard(StandardGate::X2M, &[q(0)]));
    assert_eq!(inverse[1], standard(StandardGate::SDG, &[q(1)]));
    assert_eq!(invert_parameter_free_operations(&inverse).unwrap(), operations);
}
