use cqlib_decompose::canonicalize::canonicalizer::{
    changed_outcome, parameter_phase_changed, run_single_round, run_to_fixpoint_with, CanonicalRuleId, Canonicalizer,
    FixpointResult, SingleRoundResult,
};
use cqlib_decompose::canonicalize::config::CanonicalizeConfig;
use cqlib_decompose::canonicalize::labels::{merge_operation_labels, split_fragments};
use cqlib_decompose::canonicalize::normalized::{apply_normalization, NormalizedGate};
use cqlib_decompose::canonicalize::verify::{verify_circuit, verify_instruction_arity, verify_operations};
use cqlib_decompose::canonicalize::linear::{
    canonicalize_barrier_qubits, canonicalize_form, canonicalize_operations, compare_barrier_scope, BarrierRelation,
};
use cqlib_decompose::circuit::{
    copy_circuit, copy_operation, make_operation, Angle, Circuit, CircuitParam, Directive, Instruction, McGate, Operation, Qubit,
    StandardGate,
};
use cqlib_decompose::compiler::{
    CompilerContext, ContextChangeSet, DiagnosticCode, DiagnosticSeverity, TransformNote, TransformOutcome,
};
use cqlib_decompose::error::{CompilerError, ContextIssue, InputIssue};
use std::cell::Cell;

fn q(id: u32) -> Qubit {
    Qubit::new(id)
}

fn fixed(value: f64) -> CircuitParam {
    CircuitParam::Fixed(Angle::literal(value.to_bits()))
}

fn op(instruction: Instruction, qubits: &[u32], params: &[CircuitParam], label: Option<&str>) -> Operation {
    let qubits: Vec<Qubit> = qubits.iter().copied().map(Qubit::new).collect();
    let mut operation = make_operation(instruction, &qubits, params);
    operation.label = label.map(|s| s.to_string());
    operation
}

fn gate(gate: StandardGate, qubits: &[u32]) -> Operation {
    op(Instruction::Standard(gate), qubits, &[], None)
}

fn barrier(qubits: &[u32], label: Option<&str>) -> Operation {
    op(Instruction::Directive(Directive::Barrier), qubits, &[], label)
}

fn circuit(num_qubits: u32, operations: Vec<Operation>) -> Circuit {
    let mut circuit = Circuit::new(num_qubits);
    circuit.operations = operations;
    circuit
}

fn structural_only() -> Canonicalizer {
    Canonicalizer::new(CanonicalizeConfig::new().normalize_parameters(false))
}

fn with_h(circuit: &Circuit) -> Circuit {
    let mut changed = copy_circuit(circuit);
    changed.operations.push(gate(StandardGate::H, &[0]));
    changed
}

fn qubits_of(operation: &Operation) -> Vec<u32> {
    operation.qubits.to_vec().iter().map(|q| q.id()).collect()
}

#[test]
fn production_config_enables_all_builtin_behaviors() {
    let config = CanonicalizeConfig::production();
    assert_eq!(config.round_limit(), 8);
    assert!(config.recurses_control_flow());
    assert!(config.normalizes_parameters());
    assert!(config.canonicalizes_instruction_form());
    assert!(config.merges_adjacent_barriers());
    assert!(config.drops_trivial_noops());
}

#[test]
fn config_builder_only_changes_requested_fields() {
    let config = CanonicalizeConfig::new()
        .with_round_limit(3)
        .recurse_control_flow(false)
        .normalize_parameters(false)
        .canonicalize_instruction_form(false)
        .merge_adjacent_barriers(false)
        .drop_trivial_noops(false);
    assert_eq!(config.round_limit(), 3);
    assert!(!config.recurses_control_flow());
    assert!(!config.normalizes_parameters());
    assert!(!config.canonicalizes_instruction_form());
    assert!(!config.merges_adjacent_barriers());
    assert!(!config.drops_trivial_noops());
}

#[test]
fn parameter_phase_changed_detects_no_difference() {
    let circuit = Circuit::new(1);
    assert!(!parameter_phase_changed(&circuit, &circuit));
}

#[test]
fn canonicalizer_uses_stable_descriptor_contract() {
    let descriptor = Canonicalizer::production().descriptor();
    assert_eq!(descriptor.name, "canonicalize.standard");
    assert!(!descriptor.requires_device);
    assert!(!descriptor.requires_layout);
    assert!(descriptor.supports_control_flow);
    assert!(descriptor.supports_symbolic_parameters);
    assert!(descriptor.modifies_circuit);
}

#[test]
fn canonicalizer_noop_when_parameter_normalization_is_disabled() {
    let mut ctx = CompilerContext::new(Circuit::new(1));
    let outcome = structural_only().run(&mut ctx).unwrap();
    assert!(!outcome.changed);
    assert!(outcome.notes.is_empty());
}

#[test]
fn canonicalizer_collapses_top_level_mc_gate_into_standard_form() {
    let mc = op(Instruction::McGate(McGate::new(1, StandardGate::X)), &[0, 1], &[], None);
    let mut ctx = CompilerContext::new(circuit(2, vec![mc]));
    let outcome = structural_only().run(&mut ctx).unwrap();
    assert!(outcome.changed);
    assert_eq!(ctx.revision(), 1);
    assert_eq!(ctx.circuit().operations()[0].instruction, Instruction::Standard(StandardGate::CX));
}

#[test]
fn canonicalizer_collapses_mc_gate_without_reordering_qubits_or_params() {
    let mc = op(Instruction::McGate(McGate::new(1, StandardGate::RZ)), &[1, 0], &[fixed(0.5)], None);
    let mut ctx = CompilerContext::new(circuit(2, vec![mc]));
    let outcome = structural_only().run(&mut ctx).unwrap();
    assert!(outcome.changed);
    let operation = &ctx.circuit().operations()[0];
    assert_eq!(operation.instruction, Instruction::Standard(StandardGate::CRZ));
    assert_eq!(qubits_of(operation), vec![1, 0]);
    assert_eq!(operation.params.to_vec().as_slice(), &[fixed(0.5)]);
}

#[test]
fn canonicalizer_merges_equal_adjacent_barriers() {
    let mut ctx = CompilerContext::new(circuit(3, vec![barrier(&[1, 2], None), barrier(&[2, 1], None)]));
    let outcome = structural_only().run(&mut ctx).unwrap();
    assert!(outcome.changed);
    assert_eq!(ctx.circuit().operations().len(), 1);
    assert_eq!(qubits_of(&ctx.circuit().operations()[0]), vec![1, 2]);
}

#[test]
fn canonicalizer_merges_barrier_labels_without_dropping_metadata() {
    let mut ctx = CompilerContext::new(circuit(2, vec![barrier(&[0, 1], Some("lhs")), barrier(&[1, 0], Some("rhs"))]));
    structural_only().run(&mut ctx).unwrap();
    assert_eq!(ctx.circuit().operations().len(), 1);
    assert_eq!(ctx.circuit().operations()[0].label.as_deref(), Some("lhs | rhs"));
}

#[test]
fn canonicalizer_absorbs_adjacent_subset_barrier() {
    let mut ctx = CompilerContext::new(circuit(4, vec![barrier(&[1, 2, 3], None), barrier(&[2, 1], None)]));
    structural_only().run(&mut ctx).unwrap();
    assert_eq!(ctx.circuit().operations().len(), 1);
    assert_eq!(qubits_of(&ctx.circuit().operations()[0]), vec![1, 2, 3]);
}

#[test]
fn canonicalizer_absorbs_barrier_labels_into_superset_barrier() {
    let mut ctx =
        CompilerContext::new(circuit(4, vec![barrier(&[1, 2, 3], Some("outer")), barrier(&[2, 1], Some("inner"))]));
    structural_only().run(&mut ctx).unwrap();
    assert_eq!(ctx.circuit().operations().len(), 1);
    assert_eq!(ctx.circuit().operations()[0].label.as_deref(), Some("outer | inner"));
}

#[test]
fn canonicalizer_does_not_merge_non_adjacent_barriers() {
    let operations = vec![barrier(&[1, 2], None), gate(StandardGate::H, &[3]), barrier(&[2, 1], None)];
    let mut ctx = CompilerContext::new(circuit(4, operations));
    structural_only().run(&mut ctx).unwrap();
    assert_eq!(ctx.circuit().operations().len(), 3);
}

#[test]
fn canonicalizer_does_not_merge_partially_overlapping_adjacent_barriers() {
    let mut ctx = CompilerContext::new(circuit(3, vec![barrier(&[0, 1], None), barrier(&[1, 2], None)]));
    structural_only().run(&mut ctx).unwrap();
    assert_eq!(ctx.circuit().operations().len(), 2);
    assert_eq!(qubits_of(&ctx.circuit().operations()[0]), vec![0, 1]);
    assert_eq!(qubits_of(&ctx.circuit().operations()[1]), vec![1, 2]);
}

#[test]
fn canonicalizer_drops_trivial_noops() {
    let operations = vec![
        gate(StandardGate::I, &[0]),
        op(Instruction::Delay, &[0], &[fixed(0.0)], None),
        op(Instruction::Standard(StandardGate::RZ), &[0], &[fixed(0.0)], None),
        op(Instruction::Standard(StandardGate::RZZ), &[0, 1], &[fixed(0.0)], None),
        gate(StandardGate::H, &[1]),
    ];
    let mut ctx = CompilerContext::new(circuit(2, operations));
    structural_only().run(&mut ctx).unwrap();
    assert_eq!(ctx.circuit().operations().len(), 1);
    assert_eq!(ctx.circuit().operations()[0].instruction, Instruction::Standard(StandardGate::H));
}

#[test]
fn canonicalizer_preserves_labeled_trivial_noops() {
    let operations = vec![
        op(Instruction::Standard(StandardGate::I), &[0], &[], Some("keep-i")),
        op(Instruction::Standard(StandardGate::RZ), &[0], &[fixed(0.0)], Some("keep-rz")),
        op(Instruction::Delay, &[0], &[fixed(0.0)], Some("keep-delay")),
        barrier(&[], Some("keep-empty-barrier")),
        gate(StandardGate::H, &[0]),
    ];
    let mut ctx = CompilerContext::new(circuit(1, operations));
    let outcome = structural_only().run(&mut ctx).unwrap();
    assert!(!outcome.changed);
    let operations = ctx.circuit().operations();
    assert_eq!(operations.len(), 5);
    assert_eq!(operations[0].label.as_deref(), Some("keep-i"));
    assert_eq!(operations[1].label.as_deref(), Some("keep-rz"));
    assert_eq!(operations[2].label.as_deref(), Some("keep-delay"));
    assert_eq!(operations[3].label.as_deref(), Some("keep-empty-barrier"));
}

#[test]
fn canonicalizer_is_idempotent_after_barrier_and_noop_cleanup() {
    let operations = vec![
        barrier(&[1, 0], None),
        barrier(&[0, 1], None),
        op(Instruction::Standard(StandardGate::RX), &[0], &[fixed(0.0)], None),
    ];
    let mut ctx = CompilerContext::new(circuit(2, operations));
    let canonicalizer = structural_only();
    let first = canonicalizer.run(&mut ctx).unwrap();
    let second = canonicalizer.run(&mut ctx).unwrap();
    assert!(first.changed);
    assert!(!second.changed);
}

#[test]
fn canonicalizer_rejects_zero_round_limit() {
    let canonicalizer = Canonicalizer::new(CanonicalizeConfig::new().with_round_limit(0));
    let mut ctx = CompilerContext::new(Circuit::new(1));
    let error = canonicalizer.run(&mut ctx).unwrap_err();
    assert_eq!(error, CompilerError::InvalidContextState(ContextIssue::ZeroRoundLimit));
}

#[test]
fn fixpoint_helper_stabilizes_after_second_round() {
    let config = CanonicalizeConfig::new().with_round_limit(3);
    let initial = Circuit::new(1);
    let first_round = Cell::new(true);
    let result = run_to_fixpoint_with(&initial, &config, |circuit: &Circuit, _: &CanonicalizeConfig| {
        if first_round.get() {
            first_round.set(false);
            Ok(SingleRoundResult { circuit: with_h(circuit), parameter_phase_changed: false, structural_changed: true })
        } else {
            Ok(SingleRoundResult {
                circuit: copy_circuit(circuit),
                parameter_phase_changed: false,
                structural_changed: false,
            })
        }
    })
    .unwrap();
    assert!(result.stabilized);
    assert_eq!(result.rounds_executed, 2);
    assert!(result.any_structural_changed);
}

fn always_changing(initial: &Circuit, config: &CanonicalizeConfig) -> FixpointResult {
    run_to_fixpoint_with(initial, config, |circuit: &Circuit, _: &CanonicalizeConfig| {
        Ok(SingleRoundResult { circuit: with_h(circuit), parameter_phase_changed: false, structural_changed: true })
    })
    .unwrap()
}

#[test]
fn fixpoint_helper_reports_round_limit_when_never_stable() {
    let config = CanonicalizeConfig::new().with_round_limit(2).normalize_parameters(false);
    let result = always_changing(&Circuit::new(1), &config);
    assert!(!result.stabilized);
    assert_eq!(result.rounds_executed, 2);
    assert!(result.any_structural_changed);
}

fn outcome_from_fixpoint_result(result: &FixpointResult) -> TransformOutcome {
    changed_outcome(
        result.any_parameter_phase_changed,
        result.any_structural_changed,
        result.stabilized,
        result.rounds_executed,
    )
}

#[test]
fn canonicalizer_emits_warning_when_round_limit_is_reached() {
    let config = CanonicalizeConfig::new().with_round_limit(2).normalize_parameters(false);
    let result = always_changing(&Circuit::new(1), &config);
    let outcome = outcome_from_fixpoint_result(&result);
    assert!(outcome.changed);
    assert!(outcome.notes.iter().any(|note| *note == TransformNote::RoundLimitReached { rounds: 2 }));
    assert!(outcome.diagnostics.iter().any(|diagnostic| {
        diagnostic.severity == DiagnosticSeverity::Warning
            && diagnostic.code == DiagnosticCode::CanonicalizeRoundLimitReached
    }));
}

#[test]
fn canonical_rule_ids_are_stable_and_distinct() {
    assert_ne!(CanonicalRuleId::NormalizeParameters, CanonicalRuleId::CanonicalizeInstructionForm);
    assert_ne!(CanonicalRuleId::MergeAdjacentBarriers, CanonicalRuleId::DropTrivialNoOps);
}

// ---------------------------------------------------------------- own checks

#[test]
fn changed_outcome_reports_each_kind_of_change() {
    let outcome = changed_outcome(false, true, true, 1);
    assert!(outcome.changed);
    assert_eq!(
        outcome.changes,
        ContextChangeSet { circuit_changed: true, cfg_structure_changed: true, parameter_table_changed: false }
    );
    assert_eq!(outcome.notes, vec![TransformNote::StructureCanonicalized]);
    assert!(outcome.diagnostics.is_empty());
}

#[test]
fn canonical_forms_collapse_mc_gates_with_known_controlled_names() {
    let cases = [
        (0, StandardGate::H, Instruction::Standard(StandardGate::H)),
        (1, StandardGate::X, Instruction::Standard(StandardGate::CX)),
        (1, StandardGate::Y, Instruction::Standard(StandardGate::CY)),
        (1, StandardGate::Z, Instruction::Standard(StandardGate::CZ)),
        (1, StandardGate::CX, Instruction::Standard(StandardGate::CCX)),
        (1, StandardGate::RX, Instruction::Standard(StandardGate::CRX)),
        (1, StandardGate::RY, Instruction::Standard(StandardGate::CRY)),
        (1, StandardGate::RZ, Instruction::Standard(StandardGate::CRZ)),
        (2, StandardGate::X, Instruction::Standard(StandardGate::CCX)),
        (1, StandardGate::H, Instruction::McGate(McGate::new(1, StandardGate::H))),
        (3, StandardGate::X, Instruction::McGate(McGate::new(3, StandardGate::X))),
    ];
    for (added, base, expected) in cases {
        assert_eq!(canonicalize_form(Instruction::McGate(McGate::new(added, base))), expected);
    }
    assert_eq!(canonicalize_form(Instruction::Delay), Instruction::Delay);
}

#[test]
fn barrier_scopes_are_sorted_sets_compared_by_inclusion() {
    assert_eq!(canonicalize_barrier_qubits(&[q(3), q(1), q(3), q(2)]), vec![q(1), q(2), q(3)]);
    assert_eq!(compare_barrier_scope(&[q(1), q(2)], &[q(1), q(2)]), BarrierRelation::Equal);
    assert_eq!(compare_barrier_scope(&[q(1), q(2), q(3)], &[q(1), q(3)]), BarrierRelation::LeftSuperset);
    assert_eq!(compare_barrier_scope(&[q(1)], &[q(1), q(3)]), BarrierRelation::RightSuperset);
    assert_eq!(compare_barrier_scope(&[q(0), q(1)], &[q(1), q(2)]), BarrierRelation::DisjointOrOverlap);
}

#[test]
fn merged_labels_keep_each_fragment_once() {
    assert_eq!(merge_operation_labels(Some("a".to_string()), None), Some("a".to_string()));
    assert_eq!(merge_operation_labels(None, Some("b".to_string())), Some("b".to_string()));
    assert_eq!(merge_operation_labels(None, None), None);
    assert_eq!(merge_operation_labels(Some("a | b".to_string()), Some("b | c".to_string())), Some("a | b | c".to_string()));
    assert_eq!(split_fragments("x | y"), vec!["x".to_string(), "y".to_string()]);
}

#[test]
fn a_single_round_reports_structural_change() {
    let config = CanonicalizeConfig::new();
    let before = circuit(2, vec![barrier(&[1, 0], None), barrier(&[0, 1], None)]);
    let round = run_single_round(&before, &config).unwrap();
    assert!(round.structural_changed);
    assert!(!round.parameter_phase_changed);
    assert_eq!(round.circuit.operations.len(), 1);
    let again = run_single_round(&round.circuit, &config).unwrap();
    assert!(!again.structural_changed);
}

#[test]
fn canonicalization_rejects_unknown_parameter_references() {
    let operations = vec![op(Instruction::Standard(StandardGate::RZ), &[0], &[CircuitParam::Index(99)], None)];
    let error = canonicalize_operations(&operations, 0, &CanonicalizeConfig::new()).unwrap_err();
    assert_eq!(error, CompilerError::InvalidInput(InputIssue::MissingParameterIndex(99)));
}

#[test]
fn symbolic_parameters_are_never_treated_as_zero() {
    let operations = vec![op(Instruction::Standard(StandardGate::RZ), &[0], &[CircuitParam::Index(0)], None)];
    let kept = canonicalize_operations(&operations, 1, &CanonicalizeConfig::new()).unwrap();
    assert_eq!(kept, operations);
}

#[test]
fn module_example_drops_noops_and_merges_sorted_barriers() {
    let operations = vec![
        gate(StandardGate::I, &[0]),
        op(Instruction::Standard(StandardGate::RZ), &[0], &[fixed(0.0)], None),
        barrier(&[1, 0], None),
        barrier(&[0, 1], None),
    ];
    let mut ctx = CompilerContext::new(circuit(2, operations));
    let outcome = structural_only().run(&mut ctx).unwrap();
    assert!(outcome.changed);
    let operations = ctx.circuit().operations();
    assert_eq!(operations.len(), 1);
    assert_eq!(operations[0].instruction, Instruction::Directive(Directive::Barrier));
    assert_eq!(qubits_of(&operations[0]), vec![0, 1]);
}

#[test]
fn normalized_forms_move_the_label_past_global_phases() {
    let source = op(Instruction::Standard(StandardGate::RX), &[0], &[fixed(std::f64::consts::PI)], Some("rx-pi"));
    let gates = vec![
        NormalizedGate { gate: StandardGate::GPhase, params: vec![fixed(-std::f64::consts::FRAC_PI_2)] },
        NormalizedGate { gate: StandardGate::X, params: vec![] },
    ];
    let rebuilt = apply_normalization(&source, &gates);
    assert_eq!(rebuilt.len(), 2);
    assert_eq!(rebuilt[0].instruction, Instruction::Standard(StandardGate::GPhase));
    assert!(rebuilt[0].qubits.to_vec().is_empty());
    assert_eq!(rebuilt[0].label, None);
    assert_eq!(rebuilt[1].instruction, Instruction::Standard(StandardGate::X));
    assert_eq!(qubits_of(&rebuilt[1]), vec![0]);
    assert_eq!(rebuilt[1].label.as_deref(), Some("rx-pi"));
}

#[test]
fn empty_normal_forms_keep_labeled_operations_and_drop_unlabeled_ones() {
    let labeled = op(Instruction::Standard(StandardGate::RZ), &[0], &[fixed(0.0)], Some("keep"));
    assert_eq!(apply_normalization(&labeled, &vec![]), vec![copy_operation(&labeled)]);
    let unlabeled = op(Instruction::Standard(StandardGate::RZ), &[0], &[fixed(0.0)], None);
    assert!(apply_normalization(&unlabeled, &vec![]).is_empty());
    let only_phase = vec![NormalizedGate { gate: StandardGate::GPhase, params: vec![fixed(1.0)] }];
    let rebuilt = apply_normalization(&labeled, &only_phase);
    assert_eq!(rebuilt.len(), 1);
    assert_eq!(rebuilt[0].label.as_deref(), Some("keep"));
}

#[test]
fn the_structural_pass_never_grows_a_sequence() {
    let operations = vec![
        barrier(&[2, 0], None),
        barrier(&[0], None),
        gate(StandardGate::H, &[1]),
        gate(StandardGate::I, &[1]),
        barrier(&[1], None),
    ];
    let out = canonicalize_operations(&operations, 0, &CanonicalizeConfig::new()).unwrap();
    assert!(out.len() <= operations.len());
    assert_eq!(out.len(), 3);
}

fn basis_run(operations: &[Operation], input: u32) -> u32 {
    let mut state = input;
    for operation in operations {
        let flips = match operation.instruction {
            Instruction::Standard(g) => matches!(g, StandardGate::X | StandardGate::CX | StandardGate::CCX),
            Instruction::McGate(m) => matches!(m.base, StandardGate::X | StandardGate::CX | StandardGate::CCX),
            _ => false,
        };
        if flips {
            let ids = qubits_of(operation);
            let (target, controls) = ids.split_last().unwrap();
            if controls.iter().all(|c| state & (1 << c) != 0) {
                state ^= 1 << target;
            }
        }
    }
    state
}

#[test]
fn the_structural_pass_keeps_the_basis_action_of_flip_circuits() {
    let operations = vec![
        op(Instruction::McGate(McGate::new(1, StandardGate::X)), &[0, 1], &[], None),
        barrier(&[1, 0], None),
        barrier(&[0, 1], None),
        gate(StandardGate::I, &[2]),
        op(Instruction::McGate(McGate::new(2, StandardGate::X)), &[0, 1, 2], &[], None),
        op(Instruction::McGate(McGate::new(1, StandardGate::CX)), &[3, 2, 0], &[], None),
        op(Instruction::McGate(McGate::new(3, StandardGate::X)), &[2, 1, 0, 3], &[], None),
        op(Instruction::McGate(McGate::new(0, StandardGate::CCX)), &[1, 3, 2], &[], None),
    ];
    let out = canonicalize_operations(&operations, 0, &CanonicalizeConfig::new()).unwrap();
    assert_eq!(out.len(), 6);
    assert_eq!(out[0].instruction, Instruction::Standard(StandardGate::CX));
    assert_eq!(out[3].instruction, Instruction::Standard(StandardGate::CCX));
    for input in 0..16 {
        assert_eq!(basis_run(&out, input), basis_run(&operations, input));
    }
}

// ---------------------------------------------------------------- input validation

#[test]
fn verify_circuit_accepts_well_formed_input() {
    let mut c = circuit(3, vec![
        gate(StandardGate::H, &[0]),
        op(Instruction::McGate(McGate::new(1, StandardGate::CX)), &[0, 1, 2], &[], None),
        barrier(&[2, 0, 2], None),
        op(Instruction::Standard(StandardGate::RZ), &[1], &[CircuitParam::Index(0)], None),
        op(Instruction::Delay, &[2], &[fixed(1.0)], None),
    ]);
    c.parameters = vec!["theta".to_string()];
    assert_eq!(verify_circuit(&c), Ok(()));
}

#[test]
fn verify_circuit_rejects_unknown_qubits_first() {
    let c = circuit(2, vec![gate(StandardGate::H, &[0]), gate(StandardGate::CX, &[2, 2])]);
    assert_eq!(verify_circuit(&c), Err(CompilerError::InvalidInput(InputIssue::UnknownQubit { op: 1, qubit: q(2) })));
}

#[test]
fn verify_circuit_rejects_duplicate_qubits_except_in_barriers() {
    let c = circuit(2, vec![gate(StandardGate::CX, &[1, 1])]);
    assert_eq!(verify_circuit(&c), Err(CompilerError::InvalidInput(InputIssue::DuplicateQubit { op: 0, qubit: q(1) })));
    let c = circuit(2, vec![barrier(&[1, 1], None)]);
    assert_eq!(verify_circuit(&c), Ok(()));
}

#[test]
fn verify_instruction_arity_checks_counts() {
    let c = circuit(3, vec![gate(StandardGate::CX, &[0])]);
    assert_eq!(
        verify_circuit(&c),
        Err(CompilerError::InvalidInput(InputIssue::QubitCountMismatch { op: 0, expected: 2, got: 1 }))
    );
    let rz = op(Instruction::Standard(StandardGate::RZ), &[0], &[], None);
    assert_eq!(
        verify_instruction_arity(&rz, 4),
        Err(CompilerError::InvalidInput(InputIssue::ParamCountMismatch { op: 4, expected: 1, got: 0 }))
    );
    let mc = op(Instruction::McGate(McGate::new(2, StandardGate::RX)), &[0, 1, 2], &[fixed(0.5)], None);
    assert_eq!(verify_instruction_arity(&mc, 0), Ok(()));
    let delay = op(Instruction::Delay, &[0, 1], &[fixed(1.0)], None);
    assert_eq!(
        verify_instruction_arity(&delay, 2),
        Err(CompilerError::InvalidInput(InputIssue::QubitCountMismatch { op: 2, expected: 1, got: 2 }))
    );
    let b = op(Instruction::Directive(Directive::Barrier), &[0], &[fixed(1.0)], None);
    assert_eq!(verify_instruction_arity(&b, 1), Err(CompilerError::InvalidInput(InputIssue::BarrierParameters { op: 1, got: 1 })));
}

#[test]
fn verify_operations_rejects_missing_parameter_references() {
    let c = circuit(1, vec![op(Instruction::Standard(StandardGate::RX), &[0], &[CircuitParam::Index(3)], None)]);
    assert_eq!(
        verify_operations(&c),
        Err(CompilerError::InvalidInput(InputIssue::MissingOperationParameter { op: 0, index: 3 }))
    );
}
