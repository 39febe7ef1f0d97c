use cqlib_decompose::circuit::{Angle, AngleBase, CircuitParam, Instruction, Operation, Qubit, StandardGate};
use cqlib_decompose::decompose::mcx::{
    clean_ancilla_mcx_operation_count, clean_ancilla_mcx_required_ancillas, decompose_clean_ancilla_mcx,
    decompose_dirty_ancilla_mcx, decompose_no_ancilla_mcx, dirty_ancilla_mcx_operation_count,
    no_ancilla_mcx_operation_count, MAX_DIRTY_RECURSIVE_CONTROLS, MAX_NO_ANCILLA_PHASE_POLY_QUBITS,
};
use cqlib_decompose::error::McxFailure;
use num_complex::Complex64;
use std::collections::{HashMap, HashSet};
use std::f64::consts::PI;

const EPSILON: f64 = 1e-10;

type Matrix = Vec<Vec<Complex64>>;
type State = HashMap<u64, Complex64>;

fn c(re: f64, im: f64) -> Complex64 {
    Complex64::new(re, im)
}

fn angle_value(angle: &Angle) -> f64 {
    let base = match angle.base {
        AngleBase::Pi => PI,
        AngleBase::Literal(bits) => f64::from_bits(bits),
    };
    angle.numerator as f64 * base / 2f64.powi(angle.log2_denominator as i32)
}

fn param_value(param: &CircuitParam, table: &[f64]) -> f64 {
    match param {
        CircuitParam::Fixed(angle) => angle_value(angle),
        CircuitParam::Index(index) => table[*index as usize],
    }
}

fn diag(a: Complex64, b: Complex64) -> Matrix {
    vec![vec![a, c(0.0, 0.0)], vec![c(0.0, 0.0), b]]
}

fn rx(theta: f64) -> Matrix {
    let (s, co) = (theta / 2.0).sin_cos();
    vec![vec![c(co, 0.0), c(0.0, -s)], vec![c(0.0, -s), c(co, 0.0)]]
}

fn ry(theta: f64) -> Matrix {
    let (s, co) = (theta / 2.0).sin_cos();
    vec![vec![c(co, 0.0), c(-s, 0.0)], vec![c(s, 0.0), c(co, 0.0)]]
}

fn rz(theta: f64) -> Matrix {
    diag(Complex64::from_polar(1.0, -theta / 2.0), Complex64::from_polar(1.0, theta / 2.0))
}

fn pauli_x() -> Matrix {
    vec![vec![c(0.0, 0.0), c(1.0, 0.0)], vec![c(1.0, 0.0), c(0.0, 0.0)]]
}

fn pauli_y() -> Matrix {
    vec![vec![c(0.0, 0.0), c(0.0, -1.0)], vec![c(0.0, 1.0), c(0.0, 0.0)]]
}

fn pauli_z() -> Matrix {
    diag(c(1.0, 0.0), c(-1.0, 0.0))
}

/// Inherent control count and the matrix applied to the remaining operands
/// (first remaining operand is the most significant local bit).
fn gate_action(gate: StandardGate, p: &[f64]) -> (usize, Matrix) {
    let one = c(1.0, 0.0);
    let i = c(0.0, 1.0);
    match gate {
        StandardGate::I => (0, diag(one, one)),
        StandardGate::X => (0, pauli_x()),
        StandardGate::Y => (0, pauli_y()),
        StandardGate::Z => (0, pauli_z()),
        StandardGate::H => {
            let h = c(1.0 / 2f64.sqrt(), 0.0);
            (0, vec![vec![h, h], vec![h, -h]])
        }
        StandardGate::S => (0, diag(one, i)),
        StandardGate::SDG => (0, diag(one, -i)),
        StandardGate::T => (0, diag(one, Complex64::from_polar(1.0, PI / 4.0))),
        StandardGate::TDG => (0, diag(one, Complex64::from_polar(1.0, -PI / 4.0))),
        StandardGate::RZ => (0, rz(p[0])),
        StandardGate::RX => (0, rx(p[0])),
        StandardGate::RY => (0, ry(p[0])),
        StandardGate::CX => (1, pauli_x()),
        StandardGate::CCX => (2, pauli_x()),
        other => panic!("gate {other:?} is not simulated here"),
    }
}

fn apply_operation(state: &State, op: &Operation, table: &[f64]) -> State {
    let qubits: Vec<u64> = op.qubits.to_vec().iter().map(|q| q.index() as u64).collect();
    let params: Vec<f64> = op.params.to_vec().iter().map(|p| param_value(p, table)).collect();
    let (controls, matrix) = match op.instruction {
        Instruction::Standard(gate) => gate_action(gate, &params),
        Instruction::McGate(gate) => {
            let (inherent, matrix) = gate_action(gate.base, &params);
            (inherent + gate.added_controls as usize, matrix)
        }
        Instruction::Directive(_) | Instruction::Delay => return state.clone(),
    };
    let (control_bits, target_bits) = qubits.split_at(controls);
    let k = target_bits.len();
    let mut out: State = HashMap::new();
    for (&basis, &amplitude) in state {
        if control_bits.iter().all(|&q| (basis >> q) & 1 == 1) {
            let mut column = 0usize;
            for (j, &t) in target_bits.iter().enumerate() {
                if (basis >> t) & 1 == 1 {
                    column |= 1 << (k - 1 - j);
                }
            }
            let cleared = target_bits.iter().fold(basis, |b, &t| b & !(1u64 << t));
            for (row, entries) in matrix.iter().enumerate() {
                let factor = entries[column];
                if factor.norm() == 0.0 {
                    continue;
                }
                let mut next = cleared;
                for (j, &t) in target_bits.iter().enumerate() {
                    if (row >> (k - 1 - j)) & 1 == 1 {
                        next |= 1u64 << t;
                    }
                }
                *out.entry(next).or_insert(c(0.0, 0.0)) += factor * amplitude;
            }
        } else {
            *out.entry(basis).or_insert(c(0.0, 0.0)) += amplitude;
        }
    }
    out.retain(|_, a| a.norm() > 1e-14);
    out
}

fn run_basis(ops: &[Operation], input: usize) -> State {
    let mut state: State = HashMap::new();
    state.insert(input as u64, c(1.0, 0.0));
    for op in ops {
        state = apply_operation(&state, op, &[]);
    }
    state
}

fn single_output(state: &State) -> (usize, Complex64) {
    let outputs: Vec<(u64, Complex64)> =
        state.iter().filter(|(_, a)| a.norm() >= EPSILON).map(|(b, a)| (*b, *a)).collect();
    assert_eq!(outputs.len(), 1, "state has outputs {outputs:?}");
    (outputs[0].0 as usize, outputs[0].1)
}

fn q(id: u32) -> Qubit {
    Qubit::new(id)
}

fn qubits(range: std::ops::Range<usize>) -> Vec<Qubit> {
    range.map(|id| Qubit::new(id as u32)).collect()
}

fn assert_standard_operation(operation: &Operation, gate: StandardGate, operands: &[Qubit]) {
    assert_eq!(operation.instruction, Instruction::Standard(gate));
    assert_eq!(operation.qubits.to_vec().as_slice(), operands);
    assert!(operation.params.to_vec().is_empty());
    assert!(operation.label.is_none());
}

/// Phase-invariant distance between the simulated unitary of `operations` and
/// the MCX over `controls` and `target`, on all inputs over `width` qubits.
fn assert_matches_mcx_up_to_global_phase(operations: &[Operation], controls: &[Qubit], target: Qubit, width: usize) {
    let mut actual_norm_sq = 0.0;
    let mut expected_norm_sq = 0.0;
    let mut inner = Complex64::new(0.0, 0.0);
    for input in 0..1usize << width {
        let state = run_basis(operations, input);
        let all_set = controls.iter().all(|control| input & (1 << control.index()) != 0);
        let expected = if all_set { input ^ (1 << target.index()) } else { input };
        for amplitude in state.values() {
            actual_norm_sq += amplitude.norm_sqr();
        }
        expected_norm_sq += 1.0;
        inner += state.get(&(expected as u64)).copied().unwrap_or(Complex64::new(0.0, 0.0));
    }
    let residual = (actual_norm_sq + expected_norm_sq - 2.0 * inner.norm()).max(0.0f64).sqrt();
    assert!(residual < 1e-9, "matrices differ beyond global phase: residual {residual}");
}

fn assert_no_ancilla_mcx_equivalent_to_original(control_count: usize) {
    let controls = qubits(0..control_count);
    let target = q(control_count as u32);
    let operations = decompose_no_ancilla_mcx(&controls, target).unwrap();
    assert_matches_mcx_up_to_global_phase(&operations, &controls, target, control_count + 1);
}

/// Every input with the given work-qubit value maps to exactly the MCX
/// output with amplitude one.
fn assert_exact_mcx_columns(operations: &[Operation], controls: &[Qubit], target: Qubit, work: Qubit, width: usize, work_set: bool) {
    let work_mask = 1usize << work.index();
    let expected_work = if work_set { work_mask } else { 0 };
    for input in 0..1usize << width {
        if input & work_mask != expected_work {
            continue;
        }
        let all_set = controls.iter().all(|control| input & (1 << control.index()) != 0);
        let expected = if all_set { input ^ (1 << target.index()) } else { input };
        let (output, amplitude) = single_output(&run_basis(operations, input));
        assert_eq!(output, expected, "column {input}");
        assert!((amplitude - Complex64::new(1.0, 0.0)).norm() < 1e-10, "column {input}: amplitude {amplitude}");
        assert_eq!(expected & work_mask, expected_work);
    }
}

fn assert_dirty_ancilla_mcx_semantics(control_count: usize, borrow_initial: bool) {
    let controls = qubits(0..control_count);
    let target = q(control_count as u32);
    let borrow = q(control_count as u32 + 1);
    let operations = decompose_dirty_ancilla_mcx(&controls, target, borrow).unwrap();
    assert_exact_mcx_columns(&operations, &controls, target, borrow, control_count + 2, borrow_initial);
}

#[test]
fn decomposes_zero_control_mcx_to_x() {
    let operations = decompose_clean_ancilla_mcx(&[], q(0), &[]).unwrap();
    assert_eq!(operations.len(), 1);
    assert_standard_operation(&operations[0], StandardGate::X, &[q(0)]);
}

#[test]
fn decomposes_single_control_mcx_to_cx() {
    let operations = decompose_clean_ancilla_mcx(&[q(0)], q(1), &[]).unwrap();
    assert_eq!(operations.len(), 1);
    assert_standard_operation(&operations[0], StandardGate::CX, &[q(0), q(1)]);
}

#[test]
fn decomposes_two_control_mcx_to_ccx() {
    let operations = decompose_clean_ancilla_mcx(&[q(0), q(1)], q(2), &[]).unwrap();
    assert_eq!(operations.len(), 1);
    assert_standard_operation(&operations[0], StandardGate::CCX, &[q(0), q(1), q(2)]);
}

#[test]
fn dirty_ancilla_decomposes_zero_control_mcx_to_x() {
    let operations = decompose_dirty_ancilla_mcx(&[], q(0), q(0)).unwrap();
    assert_eq!(operations.len(), 1);
    assert_standard_operation(&operations[0], StandardGate::X, &[q(0)]);
}

#[test]
fn dirty_ancilla_decomposes_single_control_mcx_to_cx() {
    let operations = decompose_dirty_ancilla_mcx(&[q(0)], q(1), q(0)).unwrap();
    assert_eq!(operations.len(), 1);
    assert_standard_operation(&operations[0], StandardGate::CX, &[q(0), q(1)]);
}

#[test]
fn dirty_ancilla_decomposes_two_control_mcx_to_ccx() {
    let operations = decompose_dirty_ancilla_mcx(&[q(0), q(1)], q(2), q(2)).unwrap();
    assert_eq!(operations.len(), 1);
    assert_standard_operation(&operations[0], StandardGate::CCX, &[q(0), q(1), q(2)]);
}

#[test]
fn dirty_ancilla_three_control_mcx_restores_borrow_initial_zero() {
    assert_dirty_ancilla_mcx_semantics(3, false);
}

#[test]
fn dirty_ancilla_three_control_mcx_restores_borrow_initial_one() {
    assert_dirty_ancilla_mcx_semantics(3, true);
}

#[test]
fn dirty_ancilla_four_control_mcx_restores_borrow_initial_zero() {
    assert_dirty_ancilla_mcx_semantics(4, false);
}

#[test]
fn dirty_ancilla_four_control_mcx_restores_borrow_initial_one() {
    assert_dirty_ancilla_mcx_semantics(4, true);
}

#[test]
fn dirty_ancilla_rejects_repeated_qubits() {
    let cases = [
        (decompose_dirty_ancilla_mcx(&[q(0), q(0)], q(1), q(2)).unwrap_err(), q(0)),
        (decompose_dirty_ancilla_mcx(&[q(0), q(1)], q(1), q(2)).unwrap_err(), q(1)),
        (decompose_dirty_ancilla_mcx(&[q(0), q(1), q(2)], q(3), q(1)).unwrap_err(), q(1)),
        (decompose_dirty_ancilla_mcx(&[q(0), q(1), q(2)], q(3), q(3)).unwrap_err(), q(3)),
    ];
    for (error, duplicate) in cases {
        assert_eq!(error, McxFailure::DuplicateQubit(duplicate));
    }
}

#[test]
fn dirty_ancilla_output_uses_only_controls_target_and_borrow() {
    let controls = [q(5), q(1), q(7), q(3)];
    let target = q(0);
    let borrow = q(9);
    let operations = decompose_dirty_ancilla_mcx(&controls, target, borrow).unwrap();
    let allowed: HashSet<Qubit> = controls.into_iter().chain([target, borrow]).collect();
    for operation in operations {
        match operation.instruction {
            Instruction::Standard(StandardGate::X)
            | Instruction::Standard(StandardGate::CX)
            | Instruction::Standard(StandardGate::CCX) => {}
            other => panic!("unexpected gate in dirty-ancilla decomposition: {other:?}"),
        }
        for qubit in &operation.qubits.to_vec() {
            assert!(allowed.contains(qubit), "unexpected qubit {qubit:?}");
        }
    }
}

#[test]
fn dirty_ancilla_rejects_too_large_recursive_mcx() {
    let controls: Vec<Qubit> = (0..=MAX_DIRTY_RECURSIVE_CONTROLS as u32).map(Qubit::new).collect();
    let target = q(MAX_DIRTY_RECURSIVE_CONTROLS as u32 + 1);
    let borrow = q(MAX_DIRTY_RECURSIVE_CONTROLS as u32 + 2);
    let error = decompose_dirty_ancilla_mcx(&controls, target, borrow).unwrap_err();
    assert_eq!(error, McxFailure::DirtyRecursionTooWide { controls: MAX_DIRTY_RECURSIVE_CONTROLS + 1 });
}

#[test]
fn no_ancilla_decomposes_zero_control_mcx_to_x() {
    let operations = decompose_no_ancilla_mcx(&[], q(0)).unwrap();
    assert_eq!(operations.len(), 1);
    assert_standard_operation(&operations[0], StandardGate::X, &[q(0)]);
}

#[test]
fn no_ancilla_decomposes_single_control_mcx_to_cx() {
    let operations = decompose_no_ancilla_mcx(&[q(0)], q(1)).unwrap();
    assert_eq!(operations.len(), 1);
    assert_standard_operation(&operations[0], StandardGate::CX, &[q(0), q(1)]);
}

#[test]
fn no_ancilla_decomposes_two_control_mcx_to_ccx() {
    let operations = decompose_no_ancilla_mcx(&[q(0), q(1)], q(2)).unwrap();
    assert_eq!(operations.len(), 1);
    assert_standard_operation(&operations[0], StandardGate::CCX, &[q(0), q(1), q(2)]);
}

#[test]
fn no_ancilla_three_control_mcx_matches_original_up_to_global_phase() {
    assert_no_ancilla_mcx_equivalent_to_original(3);
}

#[test]
fn no_ancilla_four_control_mcx_matches_original_up_to_global_phase() {
    assert_no_ancilla_mcx_equivalent_to_original(4);
}

#[test]
fn no_ancilla_rejects_too_large_phase_polynomial_mcx() {
    let controls: Vec<Qubit> = (0..MAX_NO_ANCILLA_PHASE_POLY_QUBITS as u32).map(Qubit::new).collect();
    let target = q(MAX_NO_ANCILLA_PHASE_POLY_QUBITS as u32);
    let error = decompose_no_ancilla_mcx(&controls, target).unwrap_err();
    assert_eq!(error, McxFailure::NoAncillaTooWide { qubits: MAX_NO_ANCILLA_PHASE_POLY_QUBITS + 1 });
}

#[test]
fn no_ancilla_three_control_uses_only_h_cx_rz() {
    let operations = decompose_no_ancilla_mcx(&[q(0), q(1), q(2)], q(3)).unwrap();
    for operation in operations {
        match operation.instruction {
            Instruction::Standard(StandardGate::H)
            | Instruction::Standard(StandardGate::CX)
            | Instruction::Standard(StandardGate::RZ) => {}
            other => panic!("unexpected gate in no-ancilla decomposition: {other:?}"),
        }
    }
}

#[test]
fn no_ancilla_rejects_repeated_controls() {
    let error = decompose_no_ancilla_mcx(&[q(0), q(0)], q(1)).unwrap_err();
    assert_eq!(error, McxFailure::DuplicateQubit(q(0)));
}

#[test]
fn no_ancilla_rejects_target_reused_as_control() {
    let error = decompose_no_ancilla_mcx(&[q(0), q(1)], q(1)).unwrap_err();
    assert_eq!(error, McxFailure::DuplicateQubit(q(1)));
}

#[test]
fn no_ancilla_output_uses_only_controls_and_target() {
    let controls = [q(5), q(1), q(7), q(3)];
    let target = q(0);
    let operations = decompose_no_ancilla_mcx(&controls, target).unwrap();
    let allowed: HashSet<Qubit> = controls.into_iter().chain([target]).collect();
    for operation in operations {
        for qubit in &operation.qubits.to_vec() {
            assert!(allowed.contains(qubit), "unexpected qubit {qubit:?}");
        }
    }
}

#[test]
fn decomposes_three_control_mcx_with_one_clean_ancilla() {
    let operations = decompose_clean_ancilla_mcx(&[q(0), q(1), q(2)], q(3), &[q(4)]).unwrap();
    assert_eq!(operations.len(), 3);
    assert_standard_operation(&operations[0], StandardGate::CCX, &[q(0), q(1), q(4)]);
    assert_standard_operation(&operations[1], StandardGate::CCX, &[q(4), q(2), q(3)]);
    assert_standard_operation(&operations[2], StandardGate::CCX, &[q(0), q(1), q(4)]);
}

#[test]
fn decomposes_four_control_mcx_with_v_chain_and_reverse_uncompute() {
    let operations = decompose_clean_ancilla_mcx(&qubits(0..4), q(4), &[q(5), q(6)]).unwrap();
    assert_eq!(operations.len(), 5);
    assert_standard_operation(&operations[0], StandardGate::CCX, &[q(0), q(1), q(5)]);
    assert_standard_operation(&operations[1], StandardGate::CCX, &[q(5), q(2), q(6)]);
    assert_standard_operation(&operations[2], StandardGate::CCX, &[q(6), q(3), q(4)]);
    assert_standard_operation(&operations[3], StandardGate::CCX, &[q(5), q(2), q(6)]);
    assert_standard_operation(&operations[4], StandardGate::CCX, &[q(0), q(1), q(5)]);
}

#[test]
fn decomposes_non_contiguous_qubits_without_reordering() {
    let operations = decompose_clean_ancilla_mcx(&[q(5), q(1), q(7), q(3)], q(0), &[q(9), q(2)]).unwrap();
    assert_eq!(operations.len(), 5);
    assert_standard_operation(&operations[0], StandardGate::CCX, &[q(5), q(1), q(9)]);
    assert_standard_operation(&operations[1], StandardGate::CCX, &[q(9), q(7), q(2)]);
    assert_standard_operation(&operations[2], StandardGate::CCX, &[q(2), q(3), q(0)]);
    assert_standard_operation(&operations[3], StandardGate::CCX, &[q(9), q(7), q(2)]);
    assert_standard_operation(&operations[4], StandardGate::CCX, &[q(5), q(1), q(9)]);
}

#[test]
fn ignores_unused_extra_clean_ancillas_for_base_cases() {
    let operations = decompose_clean_ancilla_mcx(&[q(0)], q(1), &[q(0)]).unwrap();
    assert_eq!(operations.len(), 1);
    assert_standard_operation(&operations[0], StandardGate::CX, &[q(0), q(1)]);
}

#[test]
fn ignores_duplicate_unused_extra_clean_ancillas() {
    let operations = decompose_clean_ancilla_mcx(&[q(0), q(1), q(2)], q(3), &[q(4), q(4)]).unwrap();
    assert_eq!(operations.len(), 3);
    assert_standard_operation(&operations[0], StandardGate::CCX, &[q(0), q(1), q(4)]);
    assert_standard_operation(&operations[1], StandardGate::CCX, &[q(4), q(2), q(3)]);
    assert_standard_operation(&operations[2], StandardGate::CCX, &[q(0), q(1), q(4)]);
}

#[test]
fn rejects_missing_clean_ancillas() {
    let error = decompose_clean_ancilla_mcx(&[q(0), q(1), q(2)], q(3), &[]).unwrap_err();
    assert_eq!(error, McxFailure::CleanAncillasMissing { controls: 3, required: 1, got: 0 });
}

#[test]
fn rejects_repeated_controls() {
    let error = decompose_clean_ancilla_mcx(&[q(0), q(0)], q(1), &[]).unwrap_err();
    assert_eq!(error, McxFailure::DuplicateQubit(q(0)));
}

#[test]
fn rejects_target_reused_as_control() {
    let error = decompose_clean_ancilla_mcx(&[q(0), q(1)], q(1), &[]).unwrap_err();
    assert_eq!(error, McxFailure::DuplicateQubit(q(1)));
}

#[test]
fn rejects_repeated_clean_ancillas() {
    let error = decompose_clean_ancilla_mcx(&qubits(0..4), q(4), &[q(5), q(5)]).unwrap_err();
    assert_eq!(error, McxFailure::DuplicateQubit(q(5)));
}

#[test]
fn preserves_clean_ancilla_subspace_semantics() {
    let controls = [q(0), q(1), q(2)];
    let target = q(3);
    let ancilla = q(4);
    let operations = decompose_clean_ancilla_mcx(&controls, target, &[ancilla]).unwrap();
    assert_exact_mcx_columns(&operations, &controls, target, ancilla, 5, false);
}

#[test]
fn operation_counts_agree_with_the_emitted_sequences() {
    for control_count in 0..7usize {
        let controls = qubits(0..control_count);
        let target = q(control_count as u32);
        let clean = qubits(control_count + 1..2 * control_count + 1);
        let borrow = q(2 * control_count as u32 + 1);
        assert_eq!(clean_ancilla_mcx_required_ancillas(control_count), control_count.saturating_sub(2));
        assert_eq!(
            clean_ancilla_mcx_operation_count(control_count),
            decompose_clean_ancilla_mcx(&controls, target, &clean).unwrap().len()
        );
        assert_eq!(
            no_ancilla_mcx_operation_count(control_count).unwrap(),
            decompose_no_ancilla_mcx(&controls, target).unwrap().len()
        );
        assert_eq!(
            dirty_ancilla_mcx_operation_count(control_count).unwrap(),
            decompose_dirty_ancilla_mcx(&controls, target, borrow).unwrap().len()
        );
    }
}

#[test]
fn dirty_ancilla_five_control_mcx_restores_borrow_in_both_states() {
    assert_dirty_ancilla_mcx_semantics(5, false);
    assert_dirty_ancilla_mcx_semantics(5, true);
}
