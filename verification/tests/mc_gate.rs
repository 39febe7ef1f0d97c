use cqlib_decompose::circuit::{
    make_operation, Angle, AngleBase, Circuit, CircuitParam, Instruction, McGate, Operation, Qubit, StandardGate,
};
use cqlib_decompose::compiler::{CompilerContext, TransformNote};
use cqlib_decompose::decompose::mc_gate::decompose::{
    decompose_mc_gate, decompose_mc_gate_operation, AncillaMode, McGateDecomposeConfig, McGateFamily,
    McGateOperandView,
};
use cqlib_decompose::decompose::mc_gate::fsim::decompose_fsim_family;
use cqlib_decompose::decompose::mc_gate::pauli_interaction::decompose_pauli_interaction_family;
use cqlib_decompose::decompose::mc_gate::one_qubit::decompose_with_euler_angles;
use cqlib_decompose::decompose::mc_gate::phase::decompose_phase_family;
use cqlib_decompose::decompose::mc_gate::primitives::{
    decompose_fsim_n_clean, decompose_fsim_no_aux, decompose_mc_rzz_n_clean, decompose_mc_rzz_no_aux,
    decompose_pauli_rotation_n_clean, decompose_pauli_rotation_no_aux, decompose_phase_n_clean, decompose_phase_no_aux,
};
use cqlib_decompose::decompose::mc_gate::transformer::McGateDecomposer;
use cqlib_decompose::error::{
    AncillaKind, CompilerError, InputIssue, InvariantIssue, LoweringFamily, McGateDetail, McGateFailure, McxFailure, NestedStep, PrimitiveStage,
    SymbolicNeed,
};
use num_complex::Complex64;
use std::collections::HashMap;
use std::f64::consts::{FRAC_PI_2, PI};

const EPSILON: f64 = 1e-10;

type Matrix = Vec<Vec<Complex64>>;
type State = HashMap<u64, Complex64>;

fn c(re: f64, im: f64) -> Complex64 {
    Complex64::new(re, im)
}

fn angle_value(angle: &Angle) -> f64 {
    let base = match angle.base {
        AngleBase::Pi => PI,
        AngleBase::Literal(bits) => f64::from_bits(bits),
    };
    angle.numerator as f64 * base / 2f64.powi(angle.log2_denominator as i32)
}

fn param_value(param: &CircuitParam, table: &[f64]) -> f64 {
    match param {
        CircuitParam::Fixed(angle) => angle_value(angle),
        CircuitParam::Index(index) => table[*index as usize],
    }
}

fn diag(a: Complex64, b: Complex64) -> Matrix {
    vec![vec![a, c(0.0, 0.0)], vec![c(0.0, 0.0), b]]
}

fn rx(theta: f64) -> Matrix {
    let (s, co) = (theta / 2.0).sin_cos();
    vec![vec![c(co, 0.0), c(0.0, -s)], vec![c(0.0, -s), c(co, 0.0)]]
}

fn ry(theta: f64) -> Matrix {
    let (s, co) = (theta / 2.0).sin_cos();
    vec![vec![c(co, 0.0), c(-s, 0.0)], vec![c(s, 0.0), c(co, 0.0)]]
}

fn rz(theta: f64) -> Matrix {
    diag(Complex64::from_polar(1.0, -theta / 2.0), Complex64::from_polar(1.0, theta / 2.0))
}

fn pauli_x() -> Matrix {
    vec![vec![c(0.0, 0.0), c(1.0, 0.0)], vec![c(1.0, 0.0), c(0.0, 0.0)]]
}

fn pauli_y() -> Matrix {
    vec![vec![c(0.0, 0.0), c(0.0, -1.0)], vec![c(0.0, 1.0), c(0.0, 0.0)]]
}

fn pauli_z() -> Matrix {
    diag(c(1.0, 0.0), c(-1.0, 0.0))
}

fn kron(a: &Matrix, b: &Matrix) -> Matrix {
    let n = a.len() * b.len();
    let mut out = vec![vec![c(0.0, 0.0); n]; n];
    for (i, row_a) in a.iter().enumerate() {
        for (j, &x) in row_a.iter().enumerate() {
            for (k, row_b) in b.iter().enumerate() {
                for (l, &y) in row_b.iter().enumerate() {
                    out[i * b.len() + k][j * b.len() + l] = x * y;
                }
            }
        }
    }
    out
}

/// `exp(-i theta/2 P)` for a Pauli product `P` with `P^2 = I`.
fn pauli_exponential(theta: f64, product: Matrix) -> Matrix {
    let (s, co) = (theta / 2.0).sin_cos();
    let n = product.len();
    let mut out = vec![vec![c(0.0, 0.0); n]; n];
    for i in 0..n {
        for j in 0..n {
            let identity = if i == j { co } else { 0.0 };
            out[i][j] = c(identity, 0.0) + c(0.0, -s) * product[i][j];
        }
    }
    out
}

/// Inherent control count and the matrix applied to the remaining operands
/// (first remaining operand is the most significant local bit).
fn gate_action(gate: StandardGate, p: &[f64]) -> (usize, Matrix) {
    let one = c(1.0, 0.0);
    let zero = c(0.0, 0.0);
    let i = c(0.0, 1.0);
    let h = c(1.0 / 2f64.sqrt(), 0.0);
    match gate {
        StandardGate::I => (0, diag(one, one)),
        StandardGate::X => (0, pauli_x()),
        StandardGate::Y => (0, pauli_y()),
        StandardGate::Z => (0, pauli_z()),
        StandardGate::H => (0, vec![vec![h, h], vec![h, -h]]),
        StandardGate::S => (0, diag(one, i)),
        StandardGate::SDG => (0, diag(one, -i)),
        StandardGate::T => (0, diag(one, Complex64::from_polar(1.0, PI / 4.0))),
        StandardGate::TDG => (0, diag(one, Complex64::from_polar(1.0, -PI / 4.0))),
        StandardGate::X2P => (0, rx(PI / 2.0)),
        StandardGate::X2M => (0, rx(-PI / 2.0)),
        StandardGate::Y2P => (0, ry(PI / 2.0)),
        StandardGate::Y2M => (0, ry(-PI / 2.0)),
        StandardGate::RX => (0, rx(p[0])),
        StandardGate::RY => (0, ry(p[0])),
        StandardGate::RZ => (0, rz(p[0])),
        StandardGate::Phase => (0, diag(one, Complex64::from_polar(1.0, p[0]))),
        StandardGate::U => {
            let (s, co) = (p[0] / 2.0).sin_cos();
            (
                0,
                vec![
                    vec![c(co, 0.0), -Complex64::from_polar(s, p[2])],
                    vec![Complex64::from_polar(s, p[1]), Complex64::from_polar(co, p[1] + p[2])],
                ],
            )
        }
        StandardGate::GPhase => (0, vec![vec![Complex64::from_polar(1.0, p[0])]]),
        StandardGate::CX => (1, pauli_x()),
        StandardGate::CY => (1, pauli_y()),
        StandardGate::CZ => (1, pauli_z()),
        StandardGate::CRX => (1, rx(p[0])),
        StandardGate::CRY => (1, ry(p[0])),
        StandardGate::CRZ => (1, rz(p[0])),
        StandardGate::CCX => (2, pauli_x()),
        StandardGate::SWAP => (
            0,
            vec![
                vec![one, zero, zero, zero],
                vec![zero, zero, one, zero],
                vec![zero, one, zero, zero],
                vec![zero, zero, zero, one],
            ],
        ),
        StandardGate::RXX => (0, pauli_exponential(p[0], kron(&pauli_x(), &pauli_x()))),
        StandardGate::RYY => (0, pauli_exponential(p[0], kron(&pauli_y(), &pauli_y()))),
        StandardGate::RZZ => (0, pauli_exponential(p[0], kron(&pauli_z(), &pauli_z()))),
        StandardGate::RZX => (0, pauli_exponential(p[0], kron(&pauli_z(), &pauli_x()))),
        StandardGate::FSIM => {
            let (s, co) = p[0].sin_cos();
            (
                0,
                vec![
                    vec![one, zero, zero, zero],
                    vec![zero, c(co, 0.0), c(0.0, -s), zero],
                    vec![zero, c(0.0, -s), c(co, 0.0), zero],
                    vec![zero, zero, zero, Complex64::from_polar(1.0, -p[1])],
                ],
            )
        }
        other => panic!("gate {other:?} is not simulated here"),
    }
}

fn apply_operation(state: &State, op: &Operation, table: &[f64]) -> State {
    let qubits: Vec<u64> = op.qubits.to_vec().iter().map(|q| q.index() as u64).collect();
    let params: Vec<f64> = op.params.to_vec().iter().map(|p| param_value(p, table)).collect();
    let (controls, matrix) = match op.instruction {
        Instruction::Standard(gate) => gate_action(gate, &params),
        Instruction::McGate(gate) => {
            let (inherent, matrix) = gate_action(gate.base, &params);
            (inherent + gate.added_controls as usize, matrix)
        }
        Instruction::Directive(_) | Instruction::Delay => return state.clone(),
    };
    let (control_bits, target_bits) = qubits.split_at(controls);
    let k = target_bits.len();
    let mut out: State = HashMap::new();
    for (&basis, &amplitude) in state {
        if control_bits.iter().all(|&q| (basis >> q) & 1 == 1) {
            let mut column = 0usize;
            for (j, &t) in target_bits.iter().enumerate() {
                if (basis >> t) & 1 == 1 {
                    column |= 1 << (k - 1 - j);
                }
            }
            let cleared = target_bits.iter().fold(basis, |b, &t| b & !(1u64 << t));
            for (row, entries) in matrix.iter().enumerate() {
                let factor = entries[column];
                if factor.norm() == 0.0 {
                    continue;
                }
                let mut next = cleared;
                for (j, &t) in target_bits.iter().enumerate() {
                    if (row >> (k - 1 - j)) & 1 == 1 {
                        next |= 1u64 << t;
                    }
                }
                *out.entry(next).or_insert(c(0.0, 0.0)) += factor * amplitude;
            }
        } else {
            *out.entry(basis).or_insert(c(0.0, 0.0)) += amplitude;
        }
    }
    out.retain(|_, a| a.norm() > 1e-14);
    out
}

fn run_basis_with(ops: &[Operation], input: usize, table: &[f64]) -> State {
    let mut state: State = HashMap::new();
    state.insert(input as u64, c(1.0, 0.0));
    for op in ops {
        state = apply_operation(&state, op, table);
    }
    state
}

fn run_basis(ops: &[Operation], input: usize) -> State {
    run_basis_with(ops, input, &[])
}

fn single_output(state: &State) -> (usize, Complex64) {
    let outputs: Vec<(u64, Complex64)> =
        state.iter().filter(|(_, a)| a.norm() >= EPSILON).map(|(b, a)| (*b, *a)).collect();
    assert_eq!(outputs.len(), 1, "state has outputs {outputs:?}");
    (outputs[0].0 as usize, outputs[0].1)
}

fn q(id: u32) -> Qubit {
    Qubit::new(id)
}

fn qs(ids: &[u32]) -> Vec<Qubit> {
    ids.iter().copied().map(Qubit::new).collect()
}

fn fixed(value: f64) -> CircuitParam {
    CircuitParam::Fixed(Angle::literal(value.to_bits()))
}

fn failure(error: CompilerError) -> McGateFailure {
    match error {
        CompilerError::McGateFailed(f) => f,
        other => panic!("expected a multi-controlled gate failure, got {other:?}"),
    }
}

fn detail(error: CompilerError) -> McGateDetail {
    failure(error).detail
}

fn clean_config(ancillas: &[u32]) -> McGateDecomposeConfig {
    McGateDecomposeConfig {
        ancilla_mode: AncillaMode::CleanAncilla,
        clean_ancillas: qs(ancillas),
        ..McGateDecomposeConfig::default()
    }
}

fn dirty_config(ancillas: &[u32]) -> McGateDecomposeConfig {
    McGateDecomposeConfig {
        ancilla_mode: AncillaMode::DirtyAncilla,
        dirty_ancillas: qs(ancillas),
        ..McGateDecomposeConfig::default()
    }
}

fn assert_operation(operation: &Operation, gate: StandardGate, qubits: &[u32], params: &[f64]) {
    assert_eq!(operation.instruction, Instruction::Standard(gate));
    assert_eq!(operation.qubits.to_vec().as_slice(), &qs(qubits)[..]);
    assert_eq!(operation.params.to_vec().len(), params.len());
    for (actual, expected) in operation.params.to_vec().iter().zip(params) {
        let CircuitParam::Fixed(angle) = actual else {
            panic!("expected a fixed emitted parameter, got {actual:?}");
        };
        let value = angle_value(angle);
        assert!((value - expected).abs() < 1e-12, "parameter mismatch: actual={value}, expected={expected}");
    }
    assert!(operation.label.is_none());
}

fn assert_sequence(operations: &[Operation], expected: &[(StandardGate, &[u32], &[f64])]) {
    assert_eq!(operations.len(), expected.len());
    for (operation, (gate, qubits, params)) in operations.iter().zip(expected) {
        assert_operation(operation, *gate, qubits, params);
    }
}

fn all_standard(operations: &[Operation]) -> bool {
    operations.iter().all(|operation| matches!(operation.instruction, Instruction::Standard(_)))
}

fn mc_operation(gate: McGate, qubits: &[Qubit], params: &[CircuitParam]) -> Operation {
    make_operation(Instruction::McGate(gate), qubits, params)
}

/// Compares the simulated action of two sequences on every basis input over
/// `width` qubits whose `fixed` bits hold the given values.
fn assert_same_columns(actual: &[Operation], expected: &[Operation], width: usize, fixed_bits: &[(Qubit, bool)]) {
    for input in 0..1usize << width {
        if fixed_bits.iter().any(|(qubit, set)| ((input >> qubit.index()) & 1 == 1) != *set) {
            continue;
        }
        let a = run_basis(actual, input);
        let e = run_basis(expected, input);
        for key in a.keys().chain(e.keys()) {
            let x = a.get(key).copied().unwrap_or(c(0.0, 0.0));
            let y = e.get(key).copied().unwrap_or(c(0.0, 0.0));
            assert!((x - y).norm() < 1e-9, "column {input} row {key}: actual={x}, expected={y}");
        }
    }
}

fn assert_same_up_to_global_phase(actual: &[Operation], expected: &[Operation], width: usize) {
    let mut phase: Option<Complex64> = None;
    for input in 0..1usize << width {
        let a = run_basis(actual, input);
        let e = run_basis(expected, input);
        for (key, y) in &e {
            let x = a.get(key).copied().unwrap_or(c(0.0, 0.0));
            if phase.is_none() && y.norm() > 0.5 {
                phase = Some(x / y);
            }
        }
        let factor = phase.expect("the reference sequence has a dominant amplitude");
        assert!((factor.norm() - 1.0).abs() < 1e-9, "global factor {factor} is not a phase");
        for key in a.keys().chain(e.keys()) {
            let x = a.get(key).copied().unwrap_or(c(0.0, 0.0));
            let y = e.get(key).copied().unwrap_or(c(0.0, 0.0));
            assert!((x - factor * y).norm() < 1e-9, "column {input} row {key}: actual={x}, expected={y} up to {factor}");
        }
    }
}

fn assert_matches_original(gate: McGate, qubits: &[Qubit], params: &[CircuitParam], config: &McGateDecomposeConfig, width: usize, fixed_bits: &[(Qubit, bool)]) {
    let operations = decompose_mc_gate(&gate, qubits, params, config).unwrap();
    assert!(all_standard(&operations));
    let original = [mc_operation(gate, qubits, params)];
    assert_same_columns(&operations, &original, width, fixed_bits);
}

fn circuit_with(num_qubits: u32, operations: Vec<Operation>) -> Circuit {
    let mut circuit = Circuit::new(num_qubits);
    circuit.operations = operations;
    circuit
}

fn labeled(mut operation: Operation, label: &str) -> Operation {
    operation.label = Some(label.to_string());
    operation
}

// ---------------------------------------------------------------- operand views and dispatch

#[test]
fn operand_view_partitions_added_controls_and_target() {
    let gate = McGate::new(2, StandardGate::X);
    let qubits = qs(&[0, 1, 2]);
    let config = McGateDecomposeConfig::default();
    let view = McGateOperandView::new(&gate, &qubits, &[], &config).unwrap();
    assert_eq!(view.base_gate(), StandardGate::X);
    assert_eq!(view.added_controls(), &qs(&[0, 1])[..]);
    assert!(view.inherent_controls().is_empty());
    assert_eq!(view.targets(), &[q(2)]);
    assert_eq!(view.all_controls(), &qs(&[0, 1])[..]);
    assert_eq!(view.total_control_count(), 2);
}

#[test]
fn operand_view_keeps_base_cx_inherent_control_order() {
    let gate = McGate::new(1, StandardGate::CX);
    let qubits = qs(&[0, 1, 2]);
    let config = McGateDecomposeConfig::default();
    let view = McGateOperandView::new(&gate, &qubits, &[], &config).unwrap();
    assert_eq!(view.added_controls(), &[q(0)]);
    assert_eq!(view.inherent_controls(), &[q(1)]);
    assert_eq!(view.targets(), &[q(2)]);
    assert_eq!(view.all_controls(), &qs(&[0, 1])[..]);
}

#[test]
fn operand_view_keeps_base_crz_inherent_control_order() {
    let gate = McGate::new(1, StandardGate::CRZ);
    let qubits = qs(&[0, 1, 2]);
    let params = [fixed(0.25)];
    let config = McGateDecomposeConfig::default();
    let view = McGateOperandView::new(&gate, &qubits, &params, &config).unwrap();
    assert_eq!(view.added_controls(), &[q(0)]);
    assert_eq!(view.inherent_controls(), &[q(1)]);
    assert_eq!(view.targets(), &[q(2)]);
    assert_eq!(view.all_controls(), &qs(&[0, 1])[..]);
}

#[test]
fn operand_view_keeps_base_ccx_inherent_control_order() {
    let gate = McGate::new(1, StandardGate::CCX);
    let qubits = qs(&[0, 1, 2, 3]);
    let config = McGateDecomposeConfig::default();
    let view = McGateOperandView::new(&gate, &qubits, &[], &config).unwrap();
    assert_eq!(view.added_controls(), &[q(0)]);
    assert_eq!(view.inherent_controls(), &qs(&[1, 2])[..]);
    assert_eq!(view.targets(), &[q(3)]);
    assert_eq!(view.all_controls(), &qs(&[0, 1, 2])[..]);
}

#[test]
fn classifies_all_standard_gates() {
    let cases = [
        (StandardGate::I, McGateFamily::Identity),
        (StandardGate::H, McGateFamily::OneQubit),
        (StandardGate::RX, McGateFamily::Rotation),
        (StandardGate::RXX, McGateFamily::PauliInteraction),
        (StandardGate::RXY, McGateFamily::OneQubit),
        (StandardGate::RY, McGateFamily::Rotation),
        (StandardGate::RYY, McGateFamily::PauliInteraction),
        (StandardGate::RZ, McGateFamily::Rotation),
        (StandardGate::RZX, McGateFamily::PauliInteraction),
        (StandardGate::RZZ, McGateFamily::PauliInteraction),
        (StandardGate::S, McGateFamily::Phase),
        (StandardGate::SDG, McGateFamily::Phase),
        (StandardGate::SWAP, McGateFamily::Swap),
        (StandardGate::T, McGateFamily::Phase),
        (StandardGate::TDG, McGateFamily::Phase),
        (StandardGate::U, McGateFamily::OneQubit),
        (StandardGate::X, McGateFamily::Pauli),
        (StandardGate::XY, McGateFamily::OneQubit),
        (StandardGate::X2P, McGateFamily::OneQubit),
        (StandardGate::X2M, McGateFamily::OneQubit),
        (StandardGate::XY2P, McGateFamily::OneQubit),
        (StandardGate::XY2M, McGateFamily::OneQubit),
        (StandardGate::Y, McGateFamily::Pauli),
        (StandardGate::Y2P, McGateFamily::OneQubit),
        (StandardGate::Y2M, McGateFamily::OneQubit),
        (StandardGate::Z, McGateFamily::Pauli),
        (StandardGate::Phase, McGateFamily::Phase),
        (StandardGate::GPhase, McGateFamily::Unsupported),
        (StandardGate::CX, McGateFamily::Pauli),
        (StandardGate::CCX, McGateFamily::Pauli),
        (StandardGate::CY, McGateFamily::Pauli),
        (StandardGate::CZ, McGateFamily::Pauli),
        (StandardGate::CRX, McGateFamily::Rotation),
        (StandardGate::CRY, McGateFamily::Rotation),
        (StandardGate::CRZ, McGateFamily::Rotation),
        (StandardGate::FSIM, McGateFamily::Fsim),
    ];
    for (gate, expected) in cases {
        assert_eq!(McGateFamily::classify(gate), expected, "{gate:?}");
    }
}

#[test]
fn validation_rejects_qubit_count_mismatch() {
    let gate = McGate::new(1, StandardGate::X);
    let error = McGateOperandView::new(&gate, &[q(0)], &[], &McGateDecomposeConfig::default()).err().unwrap();
    assert_eq!(detail(error), McGateDetail::QubitCountMismatch { expected: 2, got: 1 });
}

#[test]
fn validation_rejects_parameter_count_mismatch() {
    let gate = McGate::new(1, StandardGate::RX);
    let qubits = qs(&[0, 1]);
    let error = McGateOperandView::new(&gate, &qubits, &[], &McGateDecomposeConfig::default()).err().unwrap();
    assert_eq!(detail(error), McGateDetail::ParamCountMismatch { expected: 1, got: 0 });
}

#[test]
fn validation_rejects_duplicate_operands() {
    let gate = McGate::new(2, StandardGate::X);
    let qubits = qs(&[0, 0, 1]);
    let error = McGateOperandView::new(&gate, &qubits, &[], &McGateDecomposeConfig::default()).err().unwrap();
    assert_eq!(detail(error), McGateDetail::DuplicateOperand(q(0)));
}

#[test]
fn validation_rejects_duplicate_clean_ancillas() {
    let gate = McGate::new(1, StandardGate::X);
    let qubits = qs(&[0, 1]);
    let config = clean_config(&[2, 2]);
    let error = McGateOperandView::new(&gate, &qubits, &[], &config).err().unwrap();
    assert_eq!(detail(error), McGateDetail::AncillaDuplicate { kind: AncillaKind::Clean, qubit: q(2) });
}

#[test]
fn validation_rejects_dirty_ancilla_operand_overlap() {
    let gate = McGate::new(1, StandardGate::X);
    let qubits = qs(&[0, 1]);
    let config = dirty_config(&[1]);
    let error = McGateOperandView::new(&gate, &qubits, &[], &config).err().unwrap();
    assert_eq!(detail(error), McGateDetail::AncillaOverlap { kind: AncillaKind::Dirty, qubit: q(1) });
}

#[test]
fn validation_rejects_controlled_gphase() {
    let gate = McGate::new(1, StandardGate::GPhase);
    let params = [fixed(0.25)];
    let error = McGateOperandView::new(&gate, &[q(0)], &params, &McGateDecomposeConfig::default()).err().unwrap();
    assert_eq!(detail(error), McGateDetail::ControlledGPhase);
}

#[test]
fn identity_decomposition_emits_no_operations() {
    let gate = McGate::new(3, StandardGate::I);
    let operations = decompose_mc_gate(&gate, &qs(&[0, 1, 2, 3]), &[], &McGateDecomposeConfig::default()).unwrap();
    assert!(operations.is_empty());
}

#[test]
fn rx_rotation_family_is_implemented() {
    let gate = McGate::new(1, StandardGate::RX);
    let operations =
        decompose_mc_gate(&gate, &qs(&[0, 1]), &[fixed(0.25)], &McGateDecomposeConfig::default()).unwrap();
    assert_eq!(operations.len(), 1);
}

#[test]
fn operation_interface_decomposes_mc_gate() {
    let operation = mc_operation(McGate::new(1, StandardGate::X), &qs(&[0, 1]), &[]);
    let result = decompose_mc_gate_operation(&operation, &McGateDecomposeConfig::default()).unwrap();
    assert!(result.changed);
    assert!(result.notes.is_empty());
    assert_eq!(result.operations.len(), 1);
    assert_eq!(result.operations[0].instruction, Instruction::Standard(StandardGate::CX));
    assert_eq!(result.operations[0].qubits.to_vec().as_slice(), &qs(&[0, 1])[..]);
}

#[test]
fn operation_interface_copies_non_mc_gate() {
    let operation = labeled(make_operation(Instruction::Standard(StandardGate::H), &[q(0)], &[]), "keep");
    let result = decompose_mc_gate_operation(&operation, &McGateDecomposeConfig::default()).unwrap();
    assert!(!result.changed);
    assert_eq!(result.operations.len(), 1);
    assert_eq!(result.operations[0].instruction, Instruction::Standard(StandardGate::H));
    assert_eq!(result.operations[0].label.as_deref(), Some("keep"));
}

#[test]
fn operation_interface_skips_labeled_mc_gate_by_default() {
    let operation = labeled(mc_operation(McGate::new(1, StandardGate::X), &qs(&[0, 1]), &[]), "protected");
    let result = decompose_mc_gate_operation(&operation, &McGateDecomposeConfig::default()).unwrap();
    assert!(!result.changed);
    assert_eq!(result.operations.len(), 1);
    assert!(matches!(result.operations[0].instruction, Instruction::McGate(_)));
    assert_eq!(result.operations[0].label.as_deref(), Some("protected"));
}

#[test]
fn operation_interface_decomposes_labeled_mc_gate_when_enabled() {
    let operation = labeled(mc_operation(McGate::new(1, StandardGate::X), &qs(&[0, 1]), &[]), "lower");
    let config = McGateDecomposeConfig::new().skip_labeled_ops(false);
    let result = decompose_mc_gate_operation(&operation, &config).unwrap();
    assert!(result.changed);
    assert_eq!(result.operations.len(), 1);
    assert_eq!(result.operations[0].instruction, Instruction::Standard(StandardGate::CX));
    assert_eq!(result.operations[0].label, None);
}

#[test]
fn operation_interface_matches_direct_parameterized_decomposition() {
    let gate = McGate::new(1, StandardGate::RX);
    let qubits = qs(&[0, 1]);
    let params = [fixed(0.25)];
    let config = McGateDecomposeConfig::default();
    let operation = mc_operation(gate, &qubits, &params);
    let direct = decompose_mc_gate(&gate, &qubits, &params, &config).unwrap();
    let result = decompose_mc_gate_operation(&operation, &config).unwrap();
    assert!(result.changed);
    assert_eq!(result.operations, direct);
    for operation in &result.operations {
        assert_eq!(operation.label, None);
    }
}

// ---------------------------------------------------------------- Pauli family

#[test]
fn zero_added_control_pauli_boundaries_emit_expected_standard_sequences() {
    let config = McGateDecomposeConfig::default();
    let cases: Vec<(StandardGate, Vec<u32>, Vec<(StandardGate, &[u32], &[f64])>)> = vec![
        (StandardGate::X, vec![0], vec![(StandardGate::X, &[0], &[])]),
        (
            StandardGate::Y,
            vec![0],
            vec![(StandardGate::SDG, &[0], &[]), (StandardGate::X, &[0], &[]), (StandardGate::S, &[0], &[])],
        ),
        (
            StandardGate::Z,
            vec![0],
            vec![(StandardGate::H, &[0], &[]), (StandardGate::X, &[0], &[]), (StandardGate::H, &[0], &[])],
        ),
        (StandardGate::CX, vec![0, 1], vec![(StandardGate::CX, &[0, 1], &[])]),
        (
            StandardGate::CY,
            vec![0, 1],
            vec![(StandardGate::SDG, &[1], &[]), (StandardGate::CX, &[0, 1], &[]), (StandardGate::S, &[1], &[])],
        ),
        (
            StandardGate::CZ,
            vec![0, 1],
            vec![(StandardGate::H, &[1], &[]), (StandardGate::CX, &[0, 1], &[]), (StandardGate::H, &[1], &[])],
        ),
        (StandardGate::CCX, vec![0, 1, 2], vec![(StandardGate::CCX, &[0, 1, 2], &[])]),
    ];
    for (base, qubits, expected) in cases {
        let operations = decompose_mc_gate(&McGate::new(0, base), &qs(&qubits), &[], &config).unwrap();
        assert_sequence(&operations, &expected);
    }
}

#[test]
fn no_ancilla_pauli_decompositions_match_original_matrices() {
    let cases = [
        (0, StandardGate::X, vec![0]),
        (0, StandardGate::Y, vec![0]),
        (0, StandardGate::Z, vec![0]),
        (0, StandardGate::CX, vec![0, 1]),
        (0, StandardGate::CY, vec![0, 1]),
        (0, StandardGate::CZ, vec![0, 1]),
        (0, StandardGate::CCX, vec![0, 1, 2]),
        (1, StandardGate::X, vec![0, 1]),
        (2, StandardGate::X, vec![0, 1, 2]),
        (1, StandardGate::Y, vec![0, 1]),
        (1, StandardGate::Z, vec![0, 1]),
        (1, StandardGate::CX, vec![0, 1, 2]),
        (1, StandardGate::CY, vec![0, 1, 2]),
        (1, StandardGate::CZ, vec![0, 1, 2]),
        (1, StandardGate::CCX, vec![0, 1, 2, 3]),
    ];
    for (added, base, qubits) in cases {
        let gate = McGate::new(added, base);
        let qubits = qs(&qubits);
        let operations = decompose_mc_gate(&gate, &qubits, &[], &McGateDecomposeConfig::default()).unwrap();
        assert!(all_standard(&operations));
        assert_same_up_to_global_phase(&operations, &[mc_operation(gate, &qubits, &[])], qubits.len());
    }
}

#[test]
fn x_with_one_added_control_emits_cx() {
    let operations =
        decompose_mc_gate(&McGate::new(1, StandardGate::X), &qs(&[0, 1]), &[], &McGateDecomposeConfig::default())
            .unwrap();
    assert_sequence(&operations, &[(StandardGate::CX, &[0, 1], &[])]);
}

#[test]
fn base_cx_inherent_control_is_included_in_mcx_controls() {
    let operations =
        decompose_mc_gate(&McGate::new(1, StandardGate::CX), &qs(&[0, 1, 2]), &[], &McGateDecomposeConfig::default())
            .unwrap();
    assert_sequence(&operations, &[(StandardGate::CCX, &[0, 1, 2], &[])]);
}

#[test]
fn base_cy_uses_target_basis_conjugation_with_inherent_control() {
    let operations =
        decompose_mc_gate(&McGate::new(1, StandardGate::CY), &qs(&[0, 1, 2]), &[], &McGateDecomposeConfig::default())
            .unwrap();
    assert_sequence(
        &operations,
        &[(StandardGate::SDG, &[2], &[]), (StandardGate::CCX, &[0, 1, 2], &[]), (StandardGate::S, &[2], &[])],
    );
}

#[test]
fn base_cz_uses_target_basis_conjugation_with_inherent_control() {
    let operations =
        decompose_mc_gate(&McGate::new(1, StandardGate::CZ), &qs(&[0, 1, 2]), &[], &McGateDecomposeConfig::default())
            .unwrap();
    assert_sequence(
        &operations,
        &[(StandardGate::H, &[2], &[]), (StandardGate::CCX, &[0, 1, 2], &[]), (StandardGate::H, &[2], &[])],
    );
}

#[test]
fn base_ccx_inherent_controls_use_clean_mcx_path() {
    let operations =
        decompose_mc_gate(&McGate::new(1, StandardGate::CCX), &qs(&[0, 1, 2, 3]), &[], &clean_config(&[4])).unwrap();
    assert_sequence(
        &operations,
        &[
            (StandardGate::CCX, &[0, 1, 4], &[]),
            (StandardGate::CCX, &[4, 2, 3], &[]),
            (StandardGate::CCX, &[0, 1, 4], &[]),
        ],
    );
}

#[test]
fn dirty_mode_uses_borrowed_qubit_for_large_pauli_mcx() {
    let operations =
        decompose_mc_gate(&McGate::new(3, StandardGate::X), &qs(&[0, 1, 2, 3]), &[], &dirty_config(&[4])).unwrap();
    assert_sequence(
        &operations,
        &[
            (StandardGate::CCX, &[0, 1, 4], &[]),
            (StandardGate::CCX, &[4, 2, 3], &[]),
            (StandardGate::CCX, &[0, 1, 4], &[]),
            (StandardGate::CCX, &[4, 2, 3], &[]),
        ],
    );
}

#[test]
fn pauli_budget_accounts_for_basis_conjugation() {
    let config = McGateDecomposeConfig { max_expansion_ops: 2, ..McGateDecomposeConfig::default() };
    let error = decompose_mc_gate(&McGate::new(1, StandardGate::CY), &qs(&[0, 1, 2]), &[], &config).unwrap_err();
    assert_eq!(detail(error), McGateDetail::ExceedsBudget { family: LoweringFamily::Pauli, count: 3, max: 2 });
}

#[test]
fn clean_mode_rejects_insufficient_clean_ancillas() {
    let config = McGateDecomposeConfig { ancilla_mode: AncillaMode::CleanAncilla, ..McGateDecomposeConfig::default() };
    let error = decompose_mc_gate(&McGate::new(3, StandardGate::X), &qs(&[0, 1, 2, 3]), &[], &config).unwrap_err();
    assert_eq!(
        detail(error),
        McGateDetail::CleanAncillasMissing { family: LoweringFamily::Pauli, controls: 3, required: 1, got: 0 }
    );
}

#[test]
fn dirty_mode_requires_borrowed_qubit_for_large_pauli_mcx() {
    let config = McGateDecomposeConfig { ancilla_mode: AncillaMode::DirtyAncilla, ..McGateDecomposeConfig::default() };
    let error = decompose_mc_gate(&McGate::new(3, StandardGate::X), &qs(&[0, 1, 2, 3]), &[], &config).unwrap_err();
    assert_eq!(detail(error), McGateDetail::RequiresDirtyAncilla { family: LoweringFamily::Pauli, controls: 3 });
}

#[test]
fn dirty_mode_respects_recursion_depth_limit() {
    let config = McGateDecomposeConfig { max_recursion_depth: 1, ..dirty_config(&[5]) };
    let error = decompose_mc_gate(&McGate::new(4, StandardGate::X), &qs(&[0, 1, 2, 3, 4]), &[], &config).unwrap_err();
    assert_eq!(detail(error), McGateDetail::RecursionTooDeep { family: LoweringFamily::Pauli, depth: 2, max: 1 });
}

#[test]
fn no_ancilla_rejects_exponential_pauli_mcx_above_primitive_cap() {
    let qubits: Vec<Qubit> = (0..11).map(Qubit::new).collect();
    let error =
        decompose_mc_gate(&McGate::new(10, StandardGate::X), &qubits, &[], &McGateDecomposeConfig::default()).unwrap_err();
    assert_eq!(
        detail(error),
        McGateDetail::PrimitiveFailed {
            family: LoweringFamily::Pauli,
            stage: PrimitiveStage::NoAncillaCost,
            source: McxFailure::NoAncillaTooWide { qubits: 11 },
        }
    );
}

// ---------------------------------------------------------------- RZ family

#[test]
fn zero_and_one_control_rz_boundaries_emit_standard_gates() {
    let config = McGateDecomposeConfig::default();
    let operations = decompose_mc_gate(&McGate::new(0, StandardGate::RZ), &[q(0)], &[fixed(0.5)], &config).unwrap();
    assert_sequence(&operations, &[(StandardGate::RZ, &[0], &[0.5])]);
    let operations = decompose_mc_gate(&McGate::new(1, StandardGate::RZ), &qs(&[0, 1]), &[fixed(0.5)], &config).unwrap();
    assert_sequence(&operations, &[(StandardGate::CRZ, &[0, 1], &[0.5])]);
    let operations = decompose_mc_gate(&McGate::new(0, StandardGate::CRZ), &qs(&[0, 1]), &[fixed(0.5)], &config).unwrap();
    assert_sequence(&operations, &[(StandardGate::CRZ, &[0, 1], &[0.5])]);
}

#[test]
fn direct_rz_and_crz_paths_copy_symbolic_parameter_indices() {
    let config = McGateDecomposeConfig::default();
    let operations =
        decompose_mc_gate(&McGate::new(0, StandardGate::RZ), &[q(0)], &[CircuitParam::Index(3)], &config).unwrap();
    assert_eq!(operations[0].instruction, Instruction::Standard(StandardGate::RZ));
    assert_eq!(operations[0].params.to_vec().as_slice(), &[CircuitParam::Index(3)]);
    let operations =
        decompose_mc_gate(&McGate::new(1, StandardGate::RZ), &qs(&[0, 1]), &[CircuitParam::Index(7)], &config).unwrap();
    assert_eq!(operations[0].instruction, Instruction::Standard(StandardGate::CRZ));
    assert_eq!(operations[0].params.to_vec().as_slice(), &[CircuitParam::Index(7)]);
}

#[test]
fn no_ancilla_rz_decompositions_match_original_matrices_strictly() {
    let cases = [
        (0, StandardGate::RZ, vec![0], 0.37),
        (1, StandardGate::RZ, vec![0, 1], -0.41),
        (2, StandardGate::RZ, vec![0, 1, 2], 0.73),
        (0, StandardGate::CRZ, vec![0, 1], -0.29),
        (1, StandardGate::CRZ, vec![0, 1, 2], 0.61),
        (2, StandardGate::CRZ, vec![0, 1, 2, 3], -0.83),
    ];
    for (added, base, qubits, theta) in cases {
        let qubits = qs(&qubits);
        let width = qubits.len();
        assert_matches_original(McGate::new(added, base), &qubits, &[fixed(theta)], &McGateDecomposeConfig::default(), width, &[]);
    }
}

#[test]
fn clean_mode_emits_target_phase_and_conditional_phase_compensation() {
    let operations =
        decompose_mc_gate(&McGate::new(2, StandardGate::RZ), &qs(&[0, 1, 2]), &[fixed(0.5)], &clean_config(&[3])).unwrap();
    assert_sequence(
        &operations,
        &[
            (StandardGate::CCX, &[0, 1, 3], &[]),
            (StandardGate::Phase, &[3], &[0.25]),
            (StandardGate::Phase, &[2], &[0.25]),
            (StandardGate::CX, &[3, 2], &[]),
            (StandardGate::Phase, &[2], &[-0.25]),
            (StandardGate::CX, &[3, 2], &[]),
            (StandardGate::CCX, &[0, 1, 3], &[]),
            (StandardGate::Phase, &[0], &[-0.125]),
            (StandardGate::Phase, &[1], &[-0.125]),
            (StandardGate::CX, &[0, 1], &[]),
            (StandardGate::Phase, &[1], &[0.125]),
            (StandardGate::CX, &[0, 1], &[]),
        ],
    );
}

#[test]
fn clean_mode_rz_matches_original_on_clean_ancilla_subspace() {
    assert_matches_original(McGate::new(2, StandardGate::RZ), &qs(&[0, 1, 2]), &[fixed(0.5)], &clean_config(&[3]), 4, &[(q(3), false)]);
}

#[test]
fn multi_control_rz_rejects_symbolic_parameter_arithmetic() {
    let error = decompose_mc_gate(
        &McGate::new(2, StandardGate::RZ),
        &qs(&[0, 1, 2]),
        &[CircuitParam::Index(0)],
        &McGateDecomposeConfig::default(),
    )
    .unwrap_err();
    assert_eq!(detail(error), McGateDetail::SymbolicUnsupported(SymbolicNeed::RzCompensation));
}

#[test]
fn dirty_mode_rejects_multi_control_rz() {
    let config = McGateDecomposeConfig { ancilla_mode: AncillaMode::DirtyAncilla, ..McGateDecomposeConfig::default() };
    let error = decompose_mc_gate(&McGate::new(2, StandardGate::RZ), &qs(&[0, 1, 2]), &[fixed(0.5)], &config).unwrap_err();
    assert_eq!(detail(error), McGateDetail::DirtyUnsupported(LoweringFamily::Rz));
}

#[test]
fn clean_mode_rejects_insufficient_clean_ancillas_for_rz() {
    let error =
        decompose_mc_gate(&McGate::new(3, StandardGate::RZ), &qs(&[0, 1, 2, 3]), &[fixed(0.5)], &clean_config(&[4]))
            .unwrap_err();
    assert!(
        matches!(detail(error), McGateDetail::CleanAncillasMissing { family: LoweringFamily::Rz, required: 2, got: 1, .. }),
    );
}

#[test]
fn rz_budget_accounts_for_phase_and_conditional_compensation() {
    let config = McGateDecomposeConfig { max_expansion_ops: 21, ..McGateDecomposeConfig::default() };
    let error = decompose_mc_gate(&McGate::new(2, StandardGate::RZ), &qs(&[0, 1, 2]), &[fixed(0.5)], &config).unwrap_err();
    assert_eq!(detail(error), McGateDetail::ExceedsBudget { family: LoweringFamily::Rz, count: 22, max: 21 });
}

#[test]
fn no_ancilla_rejects_exponential_rz_above_cap() {
    let qubits: Vec<Qubit> = (0..11).map(Qubit::new).collect();
    let error =
        decompose_mc_gate(&McGate::new(10, StandardGate::RZ), &qubits, &[fixed(0.5)], &McGateDecomposeConfig::default())
            .unwrap_err();
    assert!(matches!(detail(error), McGateDetail::NoAncillaPhaseTooWide { .. }));
}

// ---------------------------------------------------------------- RX/RY family

#[test]
fn zero_and_one_control_rx_ry_boundaries_emit_standard_gates() {
    let config = McGateDecomposeConfig::default();
    let cases: [(u8, StandardGate, Vec<u32>, StandardGate, &[u32]); 6] = [
        (0, StandardGate::RX, vec![0], StandardGate::RX, &[0]),
        (1, StandardGate::RX, vec![0, 1], StandardGate::CRX, &[0, 1]),
        (0, StandardGate::CRX, vec![0, 1], StandardGate::CRX, &[0, 1]),
        (0, StandardGate::RY, vec![0], StandardGate::RY, &[0]),
        (1, StandardGate::RY, vec![0, 1], StandardGate::CRY, &[0, 1]),
        (0, StandardGate::CRY, vec![0, 1], StandardGate::CRY, &[0, 1]),
    ];
    for (added, base, qubits, gate, expected_qubits) in cases {
        let operations = decompose_mc_gate(&McGate::new(added, base), &qs(&qubits), &[fixed(0.5)], &config).unwrap();
        assert_sequence(&operations, &[(gate, expected_qubits, &[0.5])]);
    }
}

#[test]
fn direct_rx_ry_paths_copy_symbolic_parameter_indices() {
    let config = McGateDecomposeConfig::default();
    let cases = [
        (0, StandardGate::RX, vec![0], StandardGate::RX, 3),
        (1, StandardGate::RX, vec![0, 1], StandardGate::CRX, 5),
        (0, StandardGate::RY, vec![0], StandardGate::RY, 7),
        (1, StandardGate::RY, vec![0, 1], StandardGate::CRY, 9),
    ];
    for (added, base, qubits, expected_gate, index) in cases {
        let operations =
            decompose_mc_gate(&McGate::new(added, base), &qs(&qubits), &[CircuitParam::Index(index)], &config).unwrap();
        assert_eq!(operations.len(), 1);
        assert_eq!(operations[0].instruction, Instruction::Standard(expected_gate));
        assert_eq!(operations[0].params.to_vec().as_slice(), &[CircuitParam::Index(index)]);
    }
}

#[test]
fn multi_control_rx_ry_decompositions_match_original_matrices_strictly() {
    let cases = [
        (0, StandardGate::RX, vec![0], 0.37),
        (1, StandardGate::RX, vec![0, 1], -0.41),
        (2, StandardGate::RX, vec![0, 1, 2], 0.73),
        (0, StandardGate::CRX, vec![0, 1], -0.29),
        (1, StandardGate::CRX, vec![0, 1, 2], 0.61),
        (2, StandardGate::CRX, vec![0, 1, 2, 3], -0.83),
        (0, StandardGate::RY, vec![0], 0.43),
        (1, StandardGate::RY, vec![0, 1], -0.47),
        (2, StandardGate::RY, vec![0, 1, 2], 0.79),
        (0, StandardGate::CRY, vec![0, 1], -0.31),
        (1, StandardGate::CRY, vec![0, 1, 2], 0.67),
        (2, StandardGate::CRY, vec![0, 1, 2, 3], -0.89),
    ];
    for (added, base, qubits, theta) in cases {
        let qubits = qs(&qubits);
        let width = qubits.len();
        assert_matches_original(McGate::new(added, base), &qubits, &[fixed(theta)], &McGateDecomposeConfig::default(), width, &[]);
    }
}

#[test]
fn multi_control_basis_change_wraps_lifted_rz_path() {
    let config = McGateDecomposeConfig::default();
    let rx = decompose_mc_gate(&McGate::new(1, StandardGate::CRX), &qs(&[0, 1, 2]), &[fixed(0.5)], &config).unwrap();
    assert_operation(rx.first().unwrap(), StandardGate::H, &[2], &[]);
    assert_operation(rx.last().unwrap(), StandardGate::H, &[2], &[]);
    let ry = decompose_mc_gate(&McGate::new(1, StandardGate::CRY), &qs(&[0, 1, 2]), &[fixed(0.5)], &config).unwrap();
    assert_operation(ry.first().unwrap(), StandardGate::RX, &[2], &[FRAC_PI_2]);
    assert_operation(ry.last().unwrap(), StandardGate::RX, &[2], &[-FRAC_PI_2]);
}

#[test]
fn clean_mode_rx_ry_matches_original_on_clean_ancilla_zero_subspace() {
    for (base, theta) in [(StandardGate::RX, 0.5), (StandardGate::RY, -0.7)] {
        assert_matches_original(McGate::new(2, base), &qs(&[0, 1, 2]), &[fixed(theta)], &clean_config(&[3]), 4, &[(q(3), false)]);
    }
}

#[test]
fn multi_control_rx_ry_rejects_symbolic_parameter_arithmetic() {
    let cases = [
        (2, StandardGate::RX, vec![0, 1, 2]),
        (2, StandardGate::RY, vec![0, 1, 2]),
        (1, StandardGate::CRX, vec![0, 1, 2]),
        (1, StandardGate::CRY, vec![0, 1, 2]),
    ];
    for (added, base, qubits) in cases {
        let error = decompose_mc_gate(
            &McGate::new(added, base),
            &qs(&qubits),
            &[CircuitParam::Index(0)],
            &McGateDecomposeConfig::default(),
        )
        .unwrap_err();
        assert_eq!(detail(error), McGateDetail::SymbolicUnsupported(SymbolicNeed::RxRyCompensation));
    }
}

#[test]
fn dirty_mode_rejects_multi_control_rx_ry() {
    let config = McGateDecomposeConfig { ancilla_mode: AncillaMode::DirtyAncilla, ..McGateDecomposeConfig::default() };
    let error = decompose_mc_gate(&McGate::new(2, StandardGate::RX), &qs(&[0, 1, 2]), &[fixed(0.5)], &config).unwrap_err();
    assert_eq!(detail(error), McGateDetail::DirtyUnsupported(LoweringFamily::RxRy));
}

#[test]
fn rx_ry_budget_accounts_for_basis_change_and_lifted_rz() {
    let config = McGateDecomposeConfig { max_expansion_ops: 23, ..McGateDecomposeConfig::default() };
    let error = decompose_mc_gate(&McGate::new(2, StandardGate::RY), &qs(&[0, 1, 2]), &[fixed(0.5)], &config).unwrap_err();
    assert_eq!(detail(error), McGateDetail::ExceedsBudget { family: LoweringFamily::RxRy, count: 24, max: 23 });
}

// ---------------------------------------------------------------- one-qubit family

#[test]
fn zero_control_one_qubit_family_emits_base_standard_gate() {
    let config = McGateDecomposeConfig::default();
    let cases: Vec<(StandardGate, Vec<f64>)> = vec![
        (StandardGate::H, vec![]),
        (StandardGate::U, vec![0.31, -0.42, 0.53]),
        (StandardGate::RXY, vec![0.61, -0.27]),
        (StandardGate::XY, vec![0.44]),
    ];
    for (base, values) in cases {
        let params: Vec<CircuitParam> = values.iter().map(|v| fixed(*v)).collect();
        let operations = decompose_mc_gate(&McGate::new(0, base), &[q(0)], &params, &config).unwrap();
        assert_eq!(operations.len(), 1);
        assert_operation(&operations[0], base, &[0], &values);
    }
}

#[test]
fn zero_control_symbolic_one_qubit_parameters_are_copied() {
    let params = [CircuitParam::Index(1), CircuitParam::Index(2), CircuitParam::Index(3)];
    let operations =
        decompose_mc_gate(&McGate::new(0, StandardGate::U), &[q(0)], &params, &McGateDecomposeConfig::default()).unwrap();
    assert_eq!(operations.len(), 1);
    assert_eq!(operations[0].instruction, Instruction::Standard(StandardGate::U));
    assert_eq!(operations[0].qubits.to_vec().as_slice(), &[q(0)]);
    assert_eq!(operations[0].params.to_vec().as_slice(), &params);
}

#[test]
fn one_control_square_root_gates_reuse_controlled_rotation_boundaries() {
    let cases = [
        (StandardGate::X2P, StandardGate::CRX, FRAC_PI_2),
        (StandardGate::X2M, StandardGate::CRX, -FRAC_PI_2),
        (StandardGate::Y2P, StandardGate::CRY, FRAC_PI_2),
        (StandardGate::Y2M, StandardGate::CRY, -FRAC_PI_2),
    ];
    for (base, gate, angle) in cases {
        let operations =
            decompose_mc_gate(&McGate::new(1, base), &qs(&[0, 1]), &[], &McGateDecomposeConfig::default()).unwrap();
        assert_sequence(&operations, &[(gate, &[0, 1], &[angle])]);
    }
}

#[test]
fn controlled_h_emits_conditional_global_phase() {
    let operations =
        decompose_mc_gate(&McGate::new(1, StandardGate::H), &qs(&[0, 1]), &[], &McGateDecomposeConfig::default()).unwrap();
    assert_sequence(
        &operations,
        &[
            (StandardGate::Phase, &[0], &[FRAC_PI_2]),
            (StandardGate::CRZ, &[0, 1], &[PI]),
            (StandardGate::CRY, &[0, 1], &[FRAC_PI_2]),
        ],
    );
}

#[test]
fn clean_mode_one_qubit_family_matches_original_on_clean_ancilla_zero_subspace() {
    assert_matches_original(McGate::new(2, StandardGate::H), &qs(&[0, 1, 2]), &[], &clean_config(&[3]), 4, &[(q(3), false)]);
}

#[test]
fn controlled_symbolic_one_qubit_parameters_are_rejected() {
    let cases = [
        (StandardGate::U, vec![CircuitParam::Index(1), CircuitParam::Index(2), CircuitParam::Index(3)]),
        (StandardGate::RXY, vec![CircuitParam::Index(4), CircuitParam::Index(5)]),
    ];
    for (base, params) in cases {
        let error =
            decompose_mc_gate(&McGate::new(1, base), &qs(&[0, 1]), &params, &McGateDecomposeConfig::default()).unwrap_err();
        assert_eq!(detail(error), McGateDetail::SymbolicUnsupported(SymbolicNeed::NumericSynthesis));
    }
}

#[test]
fn dirty_mode_rejects_controlled_one_qubit_family() {
    let config = McGateDecomposeConfig { ancilla_mode: AncillaMode::DirtyAncilla, ..McGateDecomposeConfig::default() };
    let error = decompose_mc_gate(&McGate::new(1, StandardGate::H), &qs(&[0, 1]), &[], &config).unwrap_err();
    assert_eq!(detail(error), McGateDetail::DirtyUnsupported(LoweringFamily::OneQubit));
}

#[test]
fn one_qubit_family_budget_accounts_for_conditional_phase_and_rotations() {
    let config = McGateDecomposeConfig { max_expansion_ops: 2, ..McGateDecomposeConfig::default() };
    let error = decompose_mc_gate(&McGate::new(1, StandardGate::H), &qs(&[0, 1]), &[], &config).unwrap_err();
    assert_eq!(detail(error), McGateDetail::ExceedsBudget { family: LoweringFamily::OneQubit, count: 3, max: 2 });
}

#[test]
fn exact_one_qubit_gates_match_their_controlled_matrices() {
    let cases = [
        (1, StandardGate::H, vec![0, 1]),
        (2, StandardGate::H, vec![0, 1, 2]),
        (2, StandardGate::X2P, vec![0, 1, 2]),
        (2, StandardGate::X2M, vec![0, 1, 2]),
        (2, StandardGate::Y2P, vec![0, 1, 2]),
        (2, StandardGate::Y2M, vec![0, 1, 2]),
    ];
    for (added, base, qubits) in cases {
        let qubits = qs(&qubits);
        let width = qubits.len();
        assert_matches_original(McGate::new(added, base), &qubits, &[], &McGateDecomposeConfig::default(), width, &[]);
    }
}

#[test]
fn controlled_numeric_one_qubit_gates_need_numeric_synthesis() {
    let params = [fixed(0.73), fixed(-0.42), fixed(1.15)];
    let error =
        decompose_mc_gate(&McGate::new(1, StandardGate::U), &qs(&[0, 1]), &params, &McGateDecomposeConfig::default())
            .unwrap_err();
    assert_eq!(detail(error), McGateDetail::NumericSynthesisRequired(StandardGate::U));
}

// ---------------------------------------------------------------- Pauli-interaction family

fn interaction(gate: McGate, qubits: &[Qubit], params: &[CircuitParam], config: &McGateDecomposeConfig) -> Result<Vec<Operation>, CompilerError> {
    let view = McGateOperandView::new(&gate, qubits, params, config).unwrap();
    decompose_pauli_interaction_family(&view, params, config)
}

#[test]
fn zero_control_pauli_interaction_emits_base_standard_gate() {
    for base in [StandardGate::RXX, StandardGate::RYY, StandardGate::RZZ, StandardGate::RZX] {
        let operations =
            interaction(McGate::new(0, base), &qs(&[0, 1]), &[fixed(0.37)], &McGateDecomposeConfig::default()).unwrap();
        assert_eq!(operations.len(), 1);
        assert_operation(&operations[0], base, &[0, 1], &[0.37]);
    }
}

#[test]
fn zero_control_symbolic_pauli_interaction_parameter_is_copied() {
    let operations = interaction(
        McGate::new(0, StandardGate::RZZ),
        &qs(&[0, 1]),
        &[CircuitParam::Index(7)],
        &McGateDecomposeConfig::default(),
    )
    .unwrap();
    assert_eq!(operations.len(), 1);
    assert_eq!(operations[0].instruction, Instruction::Standard(StandardGate::RZZ));
    assert_eq!(operations[0].params.to_vec().as_slice(), &[CircuitParam::Index(7)]);
}

#[test]
fn one_control_rzz_lifts_cx_rz_cx_body() {
    let operations =
        interaction(McGate::new(1, StandardGate::RZZ), &qs(&[0, 1, 2]), &[fixed(0.5)], &McGateDecomposeConfig::default())
            .unwrap();
    assert_sequence(
        &operations,
        &[
            (StandardGate::CCX, &[0, 1, 2], &[]),
            (StandardGate::CRZ, &[0, 2], &[0.5]),
            (StandardGate::CCX, &[0, 1, 2], &[]),
        ],
    );
}

#[test]
fn one_control_symbolic_rzz_uses_symbolic_crz_without_arithmetic() {
    let operations = interaction(
        McGate::new(1, StandardGate::RZZ),
        &qs(&[0, 1, 2]),
        &[CircuitParam::Index(11)],
        &McGateDecomposeConfig::default(),
    )
    .unwrap();
    assert_eq!(operations.len(), 3);
    assert_eq!(operations[1].instruction, Instruction::Standard(StandardGate::CRZ));
    assert_eq!(operations[1].params.to_vec().as_slice(), &[CircuitParam::Index(11)]);
}

#[test]
fn pauli_interaction_decompositions_match_original_matrices_strictly() {
    let cases = [
        (StandardGate::RXX, 0.37),
        (StandardGate::RYY, 0.53),
        (StandardGate::RZZ, 0.67),
        (StandardGate::RZX, 0.79),
    ];
    for (base, theta) in cases {
        let gate = McGate::new(1, base);
        let qubits = qs(&[0, 1, 2]);
        let params = [fixed(theta)];
        let operations = interaction(gate, &qubits, &params, &McGateDecomposeConfig::default()).unwrap();
        assert!(all_standard(&operations));
        assert_same_columns(&operations, &[mc_operation(gate, &qubits, &params)], 3, &[]);
    }
}

#[test]
fn clean_mode_pauli_interaction_matches_original_on_clean_ancilla_zero_subspace() {
    let cases = [
        (StandardGate::RXX, 0.41),
        (StandardGate::RYY, -0.59),
        (StandardGate::RZZ, 0.5),
        (StandardGate::RZX, -0.83),
    ];
    for (base, theta) in cases {
        let gate = McGate::new(2, base);
        let qubits = qs(&[0, 1, 2, 3]);
        let params = [fixed(theta)];
        let operations = interaction(gate, &qubits, &params, &clean_config(&[4])).unwrap();
        assert_same_columns(&operations, &[mc_operation(gate, &qubits, &params)], 5, &[(q(4), false)]);
    }
}

#[test]
fn no_ancilla_multi_control_pauli_interaction_rejects_non_exact_mcx_phase_path() {
    let error =
        interaction(McGate::new(2, StandardGate::RZZ), &qs(&[0, 1, 2, 3]), &[fixed(0.5)], &McGateDecomposeConfig::default())
            .unwrap_err();
    assert_eq!(detail(error), McGateDetail::NoAncillaMultiControlPauliInteraction { controls: 2 });
}

#[test]
fn multi_control_symbolic_pauli_interaction_rejects_rz_parameter_arithmetic() {
    let error = interaction(McGate::new(2, StandardGate::RZZ), &qs(&[0, 1, 2, 3]), &[CircuitParam::Index(13)], &clean_config(&[4]))
        .unwrap_err();
    let McGateDetail::Nested { step, inner } = detail(error) else {
        panic!("expected a nested failure");
    };
    assert_eq!(step, NestedStep::PauliInteractionLift(StandardGate::RZ));
    assert_eq!(inner.detail, McGateDetail::SymbolicUnsupported(SymbolicNeed::RzCompensation));
}

#[test]
fn pauli_interaction_budget_is_enforced_across_lifted_base_operations() {
    let config = McGateDecomposeConfig { max_expansion_ops: 2, ..McGateDecomposeConfig::default() };
    let error = interaction(McGate::new(1, StandardGate::RZZ), &qs(&[0, 1, 2]), &[fixed(0.5)], &config).unwrap_err();
    let McGateDetail::Nested { step, inner } = detail(error) else {
        panic!("expected a nested failure");
    };
    assert_eq!(step, NestedStep::PauliInteractionLift(StandardGate::CX));
    assert!(matches!(inner.detail, McGateDetail::ExceedsBudget { max: 0, .. }), "{inner:?}");
}

#[test]
fn dispatch_decomposes_pauli_interaction_family() {
    let operations =
        decompose_mc_gate(&McGate::new(1, StandardGate::RZZ), &qs(&[0, 1, 2]), &[fixed(0.5)], &McGateDecomposeConfig::default())
            .unwrap();
    assert_sequence(
        &operations,
        &[
            (StandardGate::CCX, &[0, 1, 2], &[]),
            (StandardGate::CRZ, &[0, 2], &[0.5]),
            (StandardGate::CCX, &[0, 1, 2], &[]),
        ],
    );
}

// ---------------------------------------------------------------- SWAP family

#[test]
fn controlled_swap_lowers_to_three_controlled_x_blocks() {
    let operations =
        decompose_mc_gate(&McGate::new(1, StandardGate::SWAP), &qs(&[0, 1, 2]), &[], &McGateDecomposeConfig::default())
            .unwrap();
    assert_sequence(
        &operations,
        &[
            (StandardGate::CCX, &[0, 1, 2], &[]),
            (StandardGate::CCX, &[0, 2, 1], &[]),
            (StandardGate::CCX, &[0, 1, 2], &[]),
        ],
    );
}

#[test]
fn swap_decompositions_match_original_matrices() {
    for added in 0..3u8 {
        let qubits: Vec<Qubit> = (0..added as u32 + 2).map(Qubit::new).collect();
        let gate = McGate::new(added, StandardGate::SWAP);
        let operations = decompose_mc_gate(&gate, &qubits, &[], &McGateDecomposeConfig::default()).unwrap();
        assert_same_up_to_global_phase(&operations, &[mc_operation(gate, &qubits, &[])], qubits.len());
    }
    let gate = McGate::new(3, StandardGate::SWAP);
    let qubits = qs(&[0, 1, 2, 3, 4]);
    assert_matches_original(gate, &qubits, &[], &clean_config(&[5, 6]), 7, &[(q(5), false), (q(6), false)]);
}

#[test]
fn swap_budget_counts_three_blocks() {
    let config = McGateDecomposeConfig { max_expansion_ops: 2, ..McGateDecomposeConfig::default() };
    let error = decompose_mc_gate(&McGate::new(1, StandardGate::SWAP), &qs(&[0, 1, 2]), &[], &config).unwrap_err();
    assert_eq!(detail(error), McGateDetail::ExceedsBudget { family: LoweringFamily::Swap, count: 3, max: 2 });
}

#[test]
fn unsupported_families_report_their_family() {
    let error = decompose_mc_gate(&McGate::new(0, StandardGate::GPhase), &[], &[fixed(0.5)], &McGateDecomposeConfig::default())
        .unwrap_err();
    assert_eq!(detail(error), McGateDetail::FamilyNotImplemented(McGateFamily::Unsupported));
}

// ---------------------------------------------------------------- transformer

fn mc_x(label: Option<&str>) -> Operation {
    let mut operation = mc_operation(McGate::new(1, StandardGate::X), &qs(&[0, 1]), &[]);
    operation.label = label.map(|s| s.to_string());
    operation
}

#[test]
fn public_export_exposes_mc_gate_decomposer() {
    let transformer = McGateDecomposer::default();
    assert!(transformer.recurses_control_flow());
    assert_eq!(transformer.config(), &McGateDecomposeConfig::default());
}

#[test]
fn mc_gate_decomposer_lowers_top_level_mc_gate() {
    let mut ctx = CompilerContext::new(circuit_with(2, vec![mc_x(None)]));
    let outcome = McGateDecomposer::default().run(&mut ctx).unwrap();
    assert!(outcome.changed);
    assert_eq!(ctx.revision(), 1);
    assert_eq!(outcome.notes, vec![TransformNote::McGateLowered { operations: 1, replacements: 1, sequences: 1 }]);
    let operations = ctx.circuit().operations();
    assert_eq!(operations.len(), 1);
    assert_eq!(operations[0].instruction, Instruction::Standard(StandardGate::CX));
    assert_eq!(operations[0].qubits.to_vec().as_slice(), &qs(&[0, 1])[..]);
}

#[test]
fn mc_gate_decomposer_reports_unchanged_when_no_mc_gate_is_present() {
    let h = make_operation(Instruction::Standard(StandardGate::H), &[q(0)], &[]);
    let mut ctx = CompilerContext::new(circuit_with(1, vec![h]));
    let outcome = McGateDecomposer::default().run(&mut ctx).unwrap();
    assert!(!outcome.changed);
    assert_eq!(ctx.revision(), 0);
    assert_eq!(ctx.circuit().operations().len(), 1);
    assert_eq!(ctx.circuit().operations()[0].instruction, Instruction::Standard(StandardGate::H));
}

#[test]
fn mc_gate_decomposer_skips_labeled_mc_gate_by_default() {
    let mut ctx = CompilerContext::new(circuit_with(2, vec![mc_x(Some("protected"))]));
    let outcome = McGateDecomposer::default().run(&mut ctx).unwrap();
    assert!(!outcome.changed);
    assert_eq!(ctx.revision(), 0);
    assert!(matches!(ctx.circuit().operations()[0].instruction, Instruction::McGate(_)));
    assert_eq!(ctx.circuit().operations()[0].label.as_deref(), Some("protected"));
}

#[test]
fn mc_gate_decomposer_lowers_labeled_mc_gate_when_enabled() {
    let mut ctx = CompilerContext::new(circuit_with(2, vec![mc_x(Some("lower"))]));
    let transformer = McGateDecomposer::new(McGateDecomposeConfig::new().skip_labeled_ops(false));
    let outcome = transformer.run(&mut ctx).unwrap();
    assert!(outcome.changed);
    let operations = ctx.circuit().operations();
    assert_eq!(operations.len(), 1);
    assert_eq!(operations[0].instruction, Instruction::Standard(StandardGate::CX));
    assert_eq!(operations[0].label, None);
}

#[test]
fn mc_gate_decomposer_reinterns_symbolic_parameters_through_append() {
    let rx = mc_operation(McGate::new(1, StandardGate::RX), &qs(&[0, 1]), &[CircuitParam::Index(0)]);
    let mut circuit = circuit_with(2, vec![rx]);
    circuit.parameters = vec!["theta".to_string()];
    let mut ctx = CompilerContext::new(circuit);
    let outcome = McGateDecomposer::default().run(&mut ctx).unwrap();
    assert!(outcome.changed);
    let operations = ctx.circuit().operations();
    assert_eq!(operations.len(), 1);
    assert_eq!(operations[0].instruction, Instruction::Standard(StandardGate::CRX));
    assert_eq!(operations[0].params.to_vec().as_slice(), &[CircuitParam::Index(0)]);
    assert_eq!(ctx.circuit().parameters(), &vec!["theta".to_string()]);
}

#[test]
fn mc_gate_decomposer_preserves_global_phase() {
    let mut circuit = circuit_with(2, vec![mc_x(None)]);
    circuit.global_phase = Angle::literal(0.125f64.to_bits());
    let mut ctx = CompilerContext::new(circuit);
    McGateDecomposer::default().run(&mut ctx).unwrap();
    assert_eq!(angle_value(&ctx.circuit().global_phase), 0.125);
}

#[test]
fn mc_gate_decomposer_removes_all_top_level_mc_gate_operations() {
    let ccx = mc_operation(McGate::new(2, StandardGate::X), &qs(&[0, 1, 2]), &[]);
    let mut ctx = CompilerContext::new(circuit_with(3, vec![mc_x(None), ccx]));
    McGateDecomposer::default().run(&mut ctx).unwrap();
    assert!(ctx.circuit().operations().iter().all(|op| !matches!(op.instruction, Instruction::McGate(_))));
}

#[test]
fn mc_gate_decomposer_leaves_the_context_unchanged_on_failure() {
    let bad = mc_operation(McGate::new(2, StandardGate::RZZ), &qs(&[0, 1, 2, 3]), &[fixed(0.3)]);
    let mut ctx = CompilerContext::new(circuit_with(4, vec![mc_x(None), bad]));
    let error = McGateDecomposer::default().run(&mut ctx).unwrap_err();
    assert_eq!(detail(error), McGateDetail::NoAncillaMultiControlPauliInteraction { controls: 2 });
    assert_eq!(ctx.revision(), 0);
    assert!(matches!(ctx.circuit().operations()[0].instruction, Instruction::McGate(_)));
}

#[test]
fn mc_gate_decomposer_rejects_unknown_parameter_indices() {
    let rx = mc_operation(McGate::new(1, StandardGate::RX), &qs(&[0, 1]), &[CircuitParam::Index(4)]);
    let mut ctx = CompilerContext::new(circuit_with(2, vec![rx]));
    let result = McGateDecomposer::default().run(&mut ctx);
    assert_eq!(result.unwrap_err(), CompilerError::InvariantViolation(InvariantIssue::MissingParameterIndex(4)));
    assert_eq!(ctx.revision(), 0);
}

#[test]
fn lowerings_fit_exactly_their_own_operation_count() {
    let cases: Vec<(McGate, Vec<Qubit>, Vec<CircuitParam>)> = vec![
        (McGate::new(4, StandardGate::X), qs(&[0, 1, 2, 3, 4]), vec![]),
        (McGate::new(2, StandardGate::CZ), qs(&[0, 1, 2, 3]), vec![]),
        (McGate::new(3, StandardGate::RZ), qs(&[0, 1, 2, 3]), vec![fixed(0.3)]),
        (McGate::new(2, StandardGate::RY), qs(&[0, 1, 2]), vec![fixed(0.7)]),
        (McGate::new(3, StandardGate::H), qs(&[0, 1, 2, 3]), vec![]),
        (McGate::new(2, StandardGate::X2P), qs(&[0, 1, 2]), vec![]),
        (McGate::new(2, StandardGate::SWAP), qs(&[0, 1, 2, 3]), vec![]),
    ];
    for (gate, qubits, params) in cases {
        let emitted = decompose_mc_gate(&gate, &qubits, &params, &McGateDecomposeConfig::default()).unwrap();
        let exact = McGateDecomposeConfig { max_expansion_ops: emitted.len(), ..McGateDecomposeConfig::default() };
        assert_eq!(decompose_mc_gate(&gate, &qubits, &params, &exact).unwrap(), emitted);
        let short = McGateDecomposeConfig { max_expansion_ops: emitted.len() - 1, ..McGateDecomposeConfig::default() };
        let error = decompose_mc_gate(&gate, &qubits, &params, &short).unwrap_err();
        assert!(matches!(detail(error), McGateDetail::ExceedsBudget { max, .. } if max == emitted.len() - 1));
    }
}

#[test]
fn lowerings_touch_only_operands_and_configured_work_qubits() {
    let cases: Vec<(McGate, Vec<Qubit>, Vec<CircuitParam>, McGateDecomposeConfig)> = vec![
        (McGate::new(5, StandardGate::X), qs(&[0, 1, 2, 3, 4, 5]), vec![], clean_config(&[7, 8, 9, 10])),
        (McGate::new(4, StandardGate::Z), qs(&[0, 1, 2, 3, 4]), vec![], dirty_config(&[9])),
        (McGate::new(3, StandardGate::RZ), qs(&[0, 1, 2, 3]), vec![fixed(0.4)], clean_config(&[6, 7, 8])),
        (McGate::new(3, StandardGate::H), qs(&[0, 1, 2, 3]), vec![], clean_config(&[6, 7, 8])),
        (McGate::new(2, StandardGate::SWAP), qs(&[0, 1, 2, 3]), vec![], clean_config(&[5, 6])),
        (McGate::new(1, StandardGate::RXX), qs(&[0, 1, 2]), vec![fixed(0.9)], McGateDecomposeConfig::default()),
    ];
    for (gate, qubits, params, config) in cases {
        let operations = decompose_mc_gate(&gate, &qubits, &params, &config).unwrap();
        assert!(!operations.is_empty());
        for operation in &operations {
            for qubit in &operation.qubits.to_vec() {
                assert!(
                    qubits.contains(qubit) || config.clean_ancillas.contains(qubit) || config.dirty_ancillas.contains(qubit),
                    "{:?} touches {:?}",
                    gate,
                    qubit
                );
            }
        }
    }
}

fn expected_flip(input: usize, controls: &[u32], target: u32) -> usize {
    if controls.iter().all(|c| input & (1 << c) != 0) {
        input ^ (1 << target)
    } else {
        input
    }
}

#[test]
fn clean_and_dirty_flip_lowerings_act_as_multi_controlled_x_on_basis_states() {
    let operands = qs(&[0, 1, 2, 3, 4]);
    let clean = decompose_mc_gate(&McGate::new(3, StandardGate::CX), &operands, &[], &clean_config(&[5, 6, 7])).unwrap();
    for input in 0..32usize {
        let (output, amplitude) = single_output(&run_basis(&clean, input));
        assert_eq!(output, expected_flip(input, &[0, 1, 2, 3], 4));
        assert!((amplitude - c(1.0, 0.0)).norm() < EPSILON);
    }
    let dirty = decompose_mc_gate(&McGate::new(4, StandardGate::X), &operands, &[], &dirty_config(&[5])).unwrap();
    for input in 0..64usize {
        let (output, amplitude) = single_output(&run_basis(&dirty, input));
        assert_eq!(output, expected_flip(input, &[0, 1, 2, 3], 4));
        assert!((amplitude - c(1.0, 0.0)).norm() < EPSILON);
    }
}

#[test]
fn clean_controlled_y_flips_with_factor_i_or_minus_i_on_basis_states() {
    let operands = qs(&[0, 1, 2, 3]);
    let operations = decompose_mc_gate(&McGate::new(3, StandardGate::Y), &operands, &[], &clean_config(&[4, 5])).unwrap();
    for input in 0..16usize {
        let (output, amplitude) = single_output(&run_basis(&operations, input));
        let controls_set = input & 0b111 == 0b111;
        assert_eq!(output, expected_flip(input, &[0, 1, 2], 3));
        let expected = if !controls_set {
            c(1.0, 0.0)
        } else if input & 0b1000 == 0 {
            c(0.0, 1.0)
        } else {
            c(0.0, -1.0)
        };
        assert!((amplitude - expected).norm() < EPSILON, "input {input}: {amplitude}");
    }
}

// ---------------------------------------------------------------- phase family

#[test]
fn zero_controls_emit_original_standard_phase_gates() {
    for phase in [StandardGate::S, StandardGate::SDG, StandardGate::T, StandardGate::TDG] {
        let operations =
            decompose_mc_gate(&McGate::new(0, phase), &qs(&[3]), &[], &McGateDecomposeConfig::default()).unwrap();
        assert_eq!(operations.len(), 1);
        assert_operation(&operations[0], phase, &[3], &[]);
    }
    let theta = fixed(0.731);
    let operations =
        decompose_mc_gate(&McGate::new(0, StandardGate::Phase), &qs(&[3]), &[theta], &McGateDecomposeConfig::default())
            .unwrap();
    assert_eq!(operations.len(), 1);
    assert_eq!(operations[0].instruction, Instruction::Standard(StandardGate::Phase));
    assert_eq!(operations[0].qubits.to_vec(), qs(&[3]));
    assert_eq!(operations[0].params.to_vec(), vec![theta]);
}

#[test]
fn no_ancilla_decompositions_match_mcgate_phase_matrices_exactly() {
    let cases = [
        (StandardGate::S, None),
        (StandardGate::SDG, None),
        (StandardGate::T, None),
        (StandardGate::TDG, None),
        (StandardGate::Phase, Some(0.731)),
    ];
    for num_controls in 1..=4u32 {
        let qubits = qs(&(0..=num_controls).collect::<Vec<u32>>());
        for (phase, theta) in cases {
            let params: Vec<CircuitParam> = theta.map(fixed).into_iter().collect();
            assert_matches_original(
                McGate::new(num_controls as u8, phase),
                &qubits,
                &params,
                &McGateDecomposeConfig::default(),
                num_controls as usize + 1,
                &[],
            );
        }
    }
}

#[test]
fn phase_test_clean_decomposition_matches_clean_subspace_and_restores_ancillas() {
    let gate = McGate::new(3, StandardGate::Phase);
    let qubits = qs(&[0, 1, 2, 3]);
    assert_matches_original(gate, &qubits, &[fixed(0.731)], &clean_config(&[4, 5]), 6, &[(q(4), false), (q(5), false)]);
}

#[test]
fn phase_test_duplicate_qubit_errors_are_propagated_without_rewriting() {
    let error = decompose_mc_gate(&McGate::new(1, StandardGate::Phase), &qs(&[0, 0]), &[fixed(0.731)], &McGateDecomposeConfig::default())
        .unwrap_err();
    assert_eq!(detail(error), McGateDetail::DuplicateOperand(q(0)));
}

#[test]
fn invalid_gate_and_parameter_combinations_are_rejected() {
    let error = decompose_phase_no_aux(StandardGate::Phase, None, &[], q(0)).unwrap_err();
    assert_eq!(detail(error), McGateDetail::ParamCountMismatch { expected: 1, got: 0 });
    let error = decompose_phase_no_aux(StandardGate::S, Some(fixed(0.731)), &[], q(0)).unwrap_err();
    assert_eq!(detail(error), McGateDetail::ParamCountMismatch { expected: 0, got: 1 });
    let error = decompose_phase_no_aux(StandardGate::H, None, &[], q(0)).unwrap_err();
    assert_eq!(error, CompilerError::InvalidInput(InputIssue::NotPhaseGate(StandardGate::H)));
    let gate = McGate::new(0, StandardGate::H);
    let qubits = qs(&[0]);
    let config = McGateDecomposeConfig::default();
    let view = McGateOperandView::new(&gate, &qubits, &[], &config).unwrap();
    let error = decompose_phase_family(&view, &[], &config).unwrap_err();
    assert_eq!(detail(error), McGateDetail::NotInFamily { family: LoweringFamily::Phase, base: StandardGate::H });
}

#[test]
fn phase_family_controlled_s_is_a_controlled_quarter_turn() {
    let operations =
        decompose_mc_gate(&McGate::new(2, StandardGate::S), &qs(&[0, 1, 2]), &[], &McGateDecomposeConfig::default()).unwrap();
    assert!(all_standard(&operations));
    for input in 0..8usize {
        let (output, amplitude) = single_output(&run_basis(&operations, input));
        assert_eq!(output, input);
        let expected = if input == 7 { c(0.0, 1.0) } else { c(1.0, 0.0) };
        assert!((amplitude - expected).norm() < 1e-9, "input {input}: {amplitude}");
    }
}

#[test]
fn phase_family_rejects_symbolic_controlled_angles() {
    let error = decompose_mc_gate(&McGate::new(1, StandardGate::Phase), &qs(&[0, 1]), &[CircuitParam::Index(0)], &McGateDecomposeConfig::default())
        .unwrap_err();
    assert_eq!(detail(error), McGateDetail::SymbolicUnsupported(SymbolicNeed::PhaseScaling));
}

#[test]
fn phase_family_budget_counts_the_phase_polynomial() {
    let config = McGateDecomposeConfig { max_expansion_ops: 4, ..McGateDecomposeConfig::default() };
    let error = decompose_mc_gate(&McGate::new(1, StandardGate::T), &qs(&[0, 1]), &[], &config).unwrap_err();
    assert_eq!(detail(error), McGateDetail::ExceedsBudget { family: LoweringFamily::Phase, count: 5, max: 4 });
}

#[test]
fn phase_family_dirty_mode_is_unsupported() {
    let error = decompose_mc_gate(&McGate::new(2, StandardGate::T), &qs(&[0, 1, 2]), &[], &dirty_config(&[3])).unwrap_err();
    assert_eq!(detail(error), McGateDetail::DirtyUnsupported(LoweringFamily::Phase));
}

// ---------------------------------------------------------------- FSIM family

fn innermost(mut failure: McGateFailure) -> McGateDetail {
    loop {
        match failure.detail {
            McGateDetail::Nested { inner, .. } => failure = *inner,
            other => return other,
        }
    }
}

#[test]
fn zero_control_fsim_emits_base_standard_gate() {
    let gate = McGate::new(0, StandardGate::FSIM);
    let qubits = qs(&[0, 1]);
    let params = [fixed(0.37), fixed(-0.23)];
    let config = McGateDecomposeConfig::default();
    let view = McGateOperandView::new(&gate, &qubits, &params, &config).unwrap();
    let operations = decompose_fsim_family(&view, &params, &config).unwrap();
    assert_eq!(operations.len(), 1);
    assert_operation(&operations[0], StandardGate::FSIM, &[0, 1], &[0.37, -0.23]);
}

#[test]
fn zero_control_symbolic_fsim_parameters_are_copied() {
    let gate = McGate::new(0, StandardGate::FSIM);
    let qubits = qs(&[0, 1]);
    let params = [CircuitParam::Index(3), CircuitParam::Index(5)];
    let config = McGateDecomposeConfig::default();
    let view = McGateOperandView::new(&gate, &qubits, &params, &config).unwrap();
    let operations = decompose_fsim_family(&view, &params, &config).unwrap();
    assert_eq!(operations.len(), 1);
    assert_eq!(operations[0].instruction, Instruction::Standard(StandardGate::FSIM));
    assert_eq!(operations[0].params.to_vec(), vec![CircuitParam::Index(3), CircuitParam::Index(5)]);
}

#[test]
fn one_control_fsim_uses_no_gphase_whitelist_body() {
    let gate = McGate::new(1, StandardGate::FSIM);
    let qubits = qs(&[0, 1, 2]);
    let params = [fixed(0.37), fixed(-0.5)];
    let config = McGateDecomposeConfig::default();
    let view = McGateOperandView::new(&gate, &qubits, &params, &config).unwrap();
    let operations = decompose_fsim_family(&view, &params, &config).unwrap();
    assert!(operations.iter().all(|operation| !matches!(operation.instruction, Instruction::McGate(_))));
    assert!(operations.iter().all(|operation| operation.instruction != Instruction::Standard(StandardGate::GPhase)));
    assert!(operations.iter().all(|operation| operation.instruction != Instruction::Standard(StandardGate::FSIM)));
}

#[test]
fn one_control_fsim_decomposition_matches_original_matrix_strictly() {
    let gate = McGate::new(1, StandardGate::FSIM);
    let qubits = qs(&[0, 1, 2]);
    assert_matches_original(gate, &qubits, &[fixed(0.41), fixed(-0.67)], &McGateDecomposeConfig::default(), 3, &[]);
}

#[test]
fn clean_mode_fsim_matches_original_on_clean_ancilla_zero_subspace() {
    let gate = McGate::new(2, StandardGate::FSIM);
    let qubits = qs(&[0, 1, 2, 3]);
    assert_matches_original(gate, &qubits, &[fixed(0.29), fixed(0.61)], &clean_config(&[4, 5]), 6, &[(q(4), false), (q(5), false)]);
}

#[test]
fn controlled_symbolic_fsim_rejects_phi_arithmetic() {
    let gate = McGate::new(1, StandardGate::FSIM);
    let qubits = qs(&[0, 1, 2]);
    let params = [CircuitParam::Index(7), CircuitParam::Index(9)];
    let config = McGateDecomposeConfig::default();
    let view = McGateOperandView::new(&gate, &qubits, &params, &config).unwrap();
    let error = decompose_fsim_family(&view, &params, &config).unwrap_err();
    assert_eq!(detail(error), McGateDetail::SymbolicUnsupported(SymbolicNeed::FsimHalfPhi));
}

#[test]
fn no_ancilla_multi_control_fsim_rejects_non_exact_pauli_interaction_path() {
    let gate = McGate::new(2, StandardGate::FSIM);
    let qubits = qs(&[0, 1, 2, 3]);
    let error = decompose_mc_gate(&gate, &qubits, &[fixed(0.29), fixed(0.61)], &McGateDecomposeConfig::default())
        .unwrap_err();
    let McGateDetail::Nested { step, inner } = detail(error) else {
        panic!("expected a nested failure");
    };
    assert_eq!(step, NestedStep::FsimLift(StandardGate::RXX));
    assert_eq!(inner.detail, McGateDetail::NoAncillaMultiControlPauliInteraction { controls: 2 });
}

#[test]
fn fsim_budget_is_enforced_across_lifted_base_operations() {
    let gate = McGate::new(1, StandardGate::FSIM);
    let qubits = qs(&[0, 1, 2]);
    let config = McGateDecomposeConfig { max_expansion_ops: 2, ..McGateDecomposeConfig::default() };
    let error = decompose_mc_gate(&gate, &qubits, &[fixed(0.29), fixed(0.61)], &config).unwrap_err();
    let failure = failure(error);
    let McGateDetail::Nested { step, .. } = &failure.detail else {
        panic!("expected a nested failure, got {:?}", failure.detail);
    };
    assert_eq!(*step, NestedStep::FsimLift(StandardGate::RXX));
    assert!(matches!(innermost(failure), McGateDetail::ExceedsBudget { .. }));
}

#[test]
fn dispatch_decomposes_fsim_family() {
    let gate = McGate::new(1, StandardGate::FSIM);
    let qubits = qs(&[0, 1, 2]);
    let operations = decompose_mc_gate(&gate, &qubits, &[fixed(0.37), fixed(-0.5)], &McGateDecomposeConfig::default())
        .unwrap();
    assert!(all_standard(&operations));
    assert!(operations.iter().all(|operation| operation.instruction != Instruction::Standard(StandardGate::FSIM)));
}

#[test]
fn fsim_family_keeps_operations_on_operands_and_clean_ancillas() {
    let gate = McGate::new(2, StandardGate::FSIM);
    let qubits = qs(&[0, 1, 2, 3]);
    let operations = decompose_mc_gate(&gate, &qubits, &[fixed(0.29), fixed(0.61)], &clean_config(&[4, 5, 9])).unwrap();
    for operation in &operations {
        assert!(operation.qubits.to_vec().iter().all(|qubit| qubit.index() <= 5));
    }
}

// ---------------------------------------------------------------- SWAP and RZZ through the dispatcher

#[test]
fn one_control_emits_fredkin_as_three_ccx_operations() {
    let operations =
        decompose_mc_gate(&McGate::new(1, StandardGate::SWAP), &qs(&[0, 1, 2]), &[], &clean_config(&[])).unwrap();
    assert_sequence(&operations, &[
        (StandardGate::CCX, &[0, 1, 2], &[]),
        (StandardGate::CCX, &[0, 2, 1], &[]),
        (StandardGate::CCX, &[0, 1, 2], &[]),
    ]);
}

#[test]
fn swap_test_clean_decomposition_matches_clean_subspace_and_restores_ancillas() {
    let gate = McGate::new(3, StandardGate::SWAP);
    let qubits = qs(&[0, 1, 2, 3, 4]);
    assert_matches_original(gate, &qubits, &[], &clean_config(&[5, 6]), 7, &[(q(5), false), (q(6), false)]);
}

#[test]
fn insufficient_clean_ancillas_are_rejected() {
    let error =
        decompose_mc_gate(&McGate::new(3, StandardGate::SWAP), &qs(&[0, 1, 2, 3, 4]), &[], &clean_config(&[])).unwrap_err();
    assert_eq!(
        detail(error),
        McGateDetail::CleanAncillasMissing { family: LoweringFamily::Swap, controls: 4, required: 2, got: 0 }
    );
}

#[test]
fn duplicate_qubits_are_rejected() {
    let error = decompose_mc_gate(&McGate::new(1, StandardGate::SWAP), &qs(&[0, 0, 1]), &[], &McGateDecomposeConfig::default())
        .unwrap_err();
    assert_eq!(detail(error), McGateDetail::DuplicateOperand(q(0)));
}

#[test]
fn zero_controls_emits_bare_rzz() {
    let theta = fixed(0.731);
    let operations = decompose_mc_rzz_no_aux(theta, &[], q(0), q(1)).unwrap();
    assert_eq!(operations.len(), 1);
    assert_eq!(operations[0].instruction, Instruction::Standard(StandardGate::RZZ));
    assert_eq!(operations[0].qubits.to_vec(), qs(&[0, 1]));
    assert_eq!(operations[0].params.to_vec(), vec![theta]);
}

#[test]
fn one_control_structure_is_cx_crz_cx() {
    let theta = fixed(0.8);
    let operations = decompose_mc_rzz_no_aux(theta, &qs(&[0]), q(1), q(2)).unwrap();
    assert_eq!(operations.len(), 3);
    assert_operation(&operations[0], StandardGate::CX, &[1, 2], &[]);
    assert_eq!(operations[1].instruction, Instruction::Standard(StandardGate::CRZ));
    assert_eq!(operations[1].qubits.to_vec(), qs(&[0, 2]));
    assert_eq!(operations[1].params.to_vec(), vec![theta]);
    assert_operation(&operations[2], StandardGate::CX, &[1, 2], &[]);
}

#[test]
fn duplicate_interaction_qubits_are_rejected() {
    let error = decompose_mc_rzz_no_aux(fixed(0.731), &[], q(0), q(0)).unwrap_err();
    assert_eq!(error, CompilerError::InvalidInput(InputIssue::InteractionQubitsEqual(q(0))));
}

#[test]
fn control_overlapping_with_interaction_qubits_is_rejected() {
    let error = decompose_mc_rzz_no_aux(fixed(0.731), &qs(&[0]), q(0), q(1)).unwrap_err();
    assert_eq!(error, CompilerError::InvalidInput(InputIssue::InteractionQubitInControls(q(0))));
}

#[test]
fn ancilla_overlapping_with_interaction_qubits_is_rejected() {
    let error = decompose_mc_rzz_n_clean(fixed(0.731), &[], q(0), q(1), &qs(&[1])).unwrap_err();
    assert_eq!(error, CompilerError::InvalidInput(InputIssue::InteractionQubitInAncillas(q(1))));
}

#[test]
fn extra_clean_ancillas_are_ignored() {
    let operations = decompose_mc_rzz_n_clean(fixed(0.731), &qs(&[0, 1]), q(2), q(3), &qs(&[4, 5])).unwrap();
    assert!(!operations.is_empty());
    assert!(operations.iter().all(|operation| operation.qubits.to_vec().iter().all(|qubit| qubit.index() != 5)));
}

#[test]
fn insufficient_ancillas_error_propagates_from_center_rotation() {
    let error = decompose_mc_rzz_n_clean(fixed(0.731), &qs(&[0, 1, 2]), q(3), q(4), &[]).unwrap_err();
    assert_eq!(
        detail(error),
        McGateDetail::CleanAncillasMissing { family: LoweringFamily::Rz, controls: 3, required: 2, got: 0 }
    );
}

#[test]
fn controlled_rzz_entry_matches_original_matrices() {
    let params = [fixed(0.731)];
    let operations = decompose_mc_rzz_n_clean(params[0], &qs(&[0, 1, 2]), q(3), q(4), &qs(&[5, 6])).unwrap();
    let original = [mc_operation(McGate::new(3, StandardGate::RZZ), &qs(&[0, 1, 2, 3, 4]), &params)];
    assert_same_columns(&operations, &original, 7, &[(q(5), false), (q(6), false)]);
    let operations = decompose_mc_rzz_no_aux(params[0], &qs(&[0]), q(1), q(2)).unwrap();
    let original = [mc_operation(McGate::new(1, StandardGate::RZZ), &qs(&[0, 1, 2]), &params)];
    assert_same_columns(&operations, &original, 3, &[]);
}

#[test]
fn pauli_rotation_entries_conjugate_the_rzz_body() {
    let params = [fixed(0.4)];
    for rotation in [StandardGate::RXX, StandardGate::RYY, StandardGate::RZZ, StandardGate::RZX] {
        let operations = decompose_pauli_rotation_no_aux(rotation, params[0], &qs(&[0]), q(1), q(2)).unwrap();
        let original = [mc_operation(McGate::new(1, rotation), &qs(&[0, 1, 2]), &params)];
        assert_same_columns(&operations, &original, 3, &[]);
        let operations = decompose_pauli_rotation_n_clean(rotation, params[0], &qs(&[0, 1]), q(2), q(3), &qs(&[4])).unwrap();
        let original = [mc_operation(McGate::new(2, rotation), &qs(&[0, 1, 2, 3]), &params)];
        assert_same_columns(&operations, &original, 5, &[(q(4), false)]);
    }
    let bare = decompose_pauli_rotation_no_aux(StandardGate::RXX, params[0], &[], q(0), q(1)).unwrap();
    assert_eq!(bare.len(), 1);
    assert_eq!(bare[0].instruction, Instruction::Standard(StandardGate::RXX));
    let error = decompose_pauli_rotation_no_aux(StandardGate::RX, params[0], &[], q(0), q(1)).unwrap_err();
    assert_eq!(error, CompilerError::InvalidInput(InputIssue::NotPauliRotation(StandardGate::RX)));
}

#[test]
fn phase_and_fsim_entries_lower_their_gates() {
    let operations = decompose_phase_no_aux(StandardGate::T, None, &qs(&[0, 1]), q(2)).unwrap();
    assert_same_columns(&operations, &[mc_operation(McGate::new(2, StandardGate::T), &qs(&[0, 1, 2]), &[])], 3, &[]);
    let operations = decompose_phase_n_clean(StandardGate::Phase, Some(fixed(0.731)), &qs(&[0, 1, 2]), q(3), &qs(&[4, 5])).unwrap();
    let original = [mc_operation(McGate::new(3, StandardGate::Phase), &qs(&[0, 1, 2, 3]), &[fixed(0.731)])];
    assert_same_columns(&operations, &original, 6, &[(q(4), false), (q(5), false)]);
    let params = [fixed(0.29), fixed(0.61)];
    let operations = decompose_fsim_no_aux(&params, &qs(&[0]), q(1), q(2)).unwrap();
    assert_same_columns(&operations, &[mc_operation(McGate::new(1, StandardGate::FSIM), &qs(&[0, 1, 2]), &params)], 3, &[]);
    let operations = decompose_fsim_n_clean(&params, &qs(&[0, 1]), q(2), q(3), &qs(&[4, 5])).unwrap();
    let original = [mc_operation(McGate::new(2, StandardGate::FSIM), &qs(&[0, 1, 2, 3]), &params)];
    assert_same_columns(&operations, &original, 6, &[(q(4), false), (q(5), false)]);
    let error = decompose_phase_no_aux(StandardGate::H, None, &[], q(0)).unwrap_err();
    assert_eq!(error, CompilerError::InvalidInput(InputIssue::NotPhaseGate(StandardGate::H)));
}

// ---------------------------------------------------------------- Euler data

fn lit(value: f64) -> Angle {
    Angle::literal(value.to_bits())
}

#[test]
fn euler_data_lowers_a_controlled_u_exactly() {
    let (theta, phi, lambda) = (0.6, 0.3, 0.2);
    let gate = McGate::new(1, StandardGate::U);
    let qubits = qs(&[0, 1]);
    let params = [fixed(theta), fixed(phi), fixed(lambda)];
    let config = McGateDecomposeConfig::default();
    let view = McGateOperandView::new(&gate, &qubits, &params, &config).unwrap();
    let operations =
        decompose_with_euler_angles(&view, &config, lit((phi + lambda) / 2.0), lit(lambda), lit(theta), lit(phi)).unwrap();
    assert!(all_standard(&operations));
    assert_same_columns(&operations, &[mc_operation(gate, &qubits, &params)], 2, &[]);
}

#[test]
fn euler_data_skips_zero_rotations_and_phase() {
    let gate = McGate::new(2, StandardGate::U);
    let qubits = qs(&[0, 1, 2]);
    let params = [fixed(0.6), fixed(0.0), fixed(0.0)];
    let config = clean_config(&[3]);
    let view = McGateOperandView::new(&gate, &qubits, &params, &config).unwrap();
    let operations = decompose_with_euler_angles(&view, &config, lit(0.0), lit(0.0), lit(0.6), lit(0.0)).unwrap();
    assert_same_columns(&operations, &[mc_operation(gate, &qubits, &params)], 4, &[(q(3), false)]);
    let rotation = decompose_mc_gate(&McGate::new(2, StandardGate::RY), &qubits, &[fixed(0.6)], &config).unwrap();
    assert_eq!(operations, rotation);
}

#[test]
fn numeric_synthesis_is_required_for_u_without_euler_data() {
    let error = decompose_mc_gate(&McGate::new(1, StandardGate::U), &qs(&[0, 1]), &[fixed(0.6), fixed(0.3), fixed(0.2)], &McGateDecomposeConfig::default())
        .unwrap_err();
    assert_eq!(detail(error), McGateDetail::NumericSynthesisRequired(StandardGate::U));
}

// ---------------------------------------------------------------- controlled H through the dispatcher

#[test]
fn one_control_emits_conditional_phase_and_zy_rotations() {
    let operations =
        decompose_mc_gate(&McGate::new(1, StandardGate::H), &qs(&[0, 1]), &[], &McGateDecomposeConfig::default()).unwrap();
    assert_sequence(&operations, &[
        (StandardGate::Phase, &[0], &[FRAC_PI_2]),
        (StandardGate::CRZ, &[0, 1], &[PI]),
        (StandardGate::CRY, &[0, 1], &[FRAC_PI_2]),
    ]);
}

#[test]
fn hadamard_test_no_aux_decompositions_match_mcgate_semantics_exactly() {
    for num_controls in 1..=4u32 {
        let qubits = qs(&(0..=num_controls).collect::<Vec<u32>>());
        assert_matches_original(
            McGate::new(num_controls as u8, StandardGate::H),
            &qubits,
            &[],
            &McGateDecomposeConfig::default(),
            num_controls as usize + 1,
            &[],
        );
    }
}

#[test]
fn hadamard_test_clean_decomposition_matches_clean_subspace_and_restores_ancillas() {
    let gate = McGate::new(3, StandardGate::H);
    let qubits = qs(&[0, 1, 2, 3]);
    assert_matches_original(gate, &qubits, &[], &clean_config(&[4, 5]), 6, &[(q(4), false), (q(5), false)]);
}

#[test]
fn underlying_mc_su2_errors_are_propagated_without_rewriting() {
    let error =
        decompose_mc_gate(&McGate::new(3, StandardGate::H), &qs(&[0, 1, 2, 3]), &[], &clean_config(&[])).unwrap_err();
    assert_eq!(
        detail(error),
        McGateDetail::CleanAncillasMissing { family: LoweringFamily::OneQubit, controls: 2, required: 1, got: 0 }
    );
}

#[test]
fn hadamard_test_duplicate_qubit_errors_are_propagated_without_rewriting() {
    let error = decompose_mc_gate(&McGate::new(1, StandardGate::H), &qs(&[0, 0]), &[], &McGateDecomposeConfig::default())
        .unwrap_err();
    assert_eq!(detail(error), McGateDetail::DuplicateOperand(q(0)));
}

// ---------------------------------------------------------------- rotations through the dispatcher

#[test]
fn standard_rotation_fast_paths_are_preserved() {
    let theta = fixed(0.731);
    for (rotation, expected_one) in [
        (StandardGate::RX, StandardGate::CRX),
        (StandardGate::RY, StandardGate::CRY),
        (StandardGate::RZ, StandardGate::CRZ),
    ] {
        let config = McGateDecomposeConfig::default();
        let zero = decompose_mc_gate(&McGate::new(0, rotation), &qs(&[1]), &[theta], &config).unwrap();
        assert_eq!(zero.len(), 1);
        assert_eq!(zero[0].instruction, Instruction::Standard(rotation));
        assert_eq!(zero[0].qubits.to_vec(), qs(&[1]));
        let one = decompose_mc_gate(&McGate::new(1, rotation), &qs(&[0, 1]), &[theta], &config).unwrap();
        assert_eq!(one.len(), 1);
        assert_eq!(one[0].instruction, Instruction::Standard(expected_one));
        assert_eq!(one[0].qubits.to_vec(), qs(&[0, 1]));
    }
}

#[test]
fn rotation_test_mc_su2_errors_are_propagated_without_rewriting() {
    let error =
        decompose_mc_gate(&McGate::new(3, StandardGate::RY), &qs(&[0, 1, 2, 3]), &[fixed(0.731)], &clean_config(&[])).unwrap_err();
    assert_eq!(
        detail(error),
        McGateDetail::CleanAncillasMissing { family: LoweringFamily::RxRy, controls: 3, required: 2, got: 0 }
    );
}

#[test]
fn phase_test_extra_clean_ancillas_are_ignored_without_validation_or_use() {
    let operations =
        decompose_phase_n_clean(StandardGate::Phase, Some(fixed(0.731)), &qs(&[0, 1]), q(2), &qs(&[3, 2, 2])).unwrap();
    for operation in &operations {
        assert!(operation.qubits.to_vec().iter().all(|qubit| [0, 1, 2, 3].contains(&qubit.index())));
    }
    let original = [mc_operation(McGate::new(2, StandardGate::Phase), &qs(&[0, 1, 2]), &[fixed(0.731)])];
    assert_same_columns(&operations, &original, 4, &[(q(3), false)]);
}
