use cqlib_decompose::circuit::{Circuit, Directive, Instruction, McGate, StandardGate};
use cqlib_decompose::compiler::{CompilerContext, Device};
use cqlib_decompose::decompose::basis::{DecomposeConfig, Decomposer};
use cqlib_decompose::error::{CompilerError, ContextIssue};

fn mock_device(native_gates: Vec<Instruction>) -> Device {
    Device { native_gates }
}

#[test]
fn decompose_requires_target_gate_source() {
    let ctx = CompilerContext::new(Circuit::new(1));
    let error = Decomposer::new(DecomposeConfig::new()).target_basis(&ctx).unwrap_err();
    assert_eq!(error, CompilerError::MissingDevice);
}

#[test]
fn decompose_rejects_empty_target_standard_gate_set() {
    let ctx = CompilerContext::with_device(Circuit::new(1), mock_device(vec![Instruction::Delay]));
    let error = Decomposer::new(DecomposeConfig::new()).target_basis(&ctx).unwrap_err();
    assert_eq!(error, CompilerError::InvalidContextState(ContextIssue::EmptyTargetGateSet));
}

#[test]
fn decompose_rejects_empty_explicit_target_gate_basis() {
    let ctx = CompilerContext::new(Circuit::new(1));
    let error =
        Decomposer::new(DecomposeConfig::new().with_target_gates(Vec::new())).target_basis(&ctx).unwrap_err();
    assert_eq!(error, CompilerError::InvalidContextState(ContextIssue::EmptyTargetGateSet));
}

#[test]
fn explicit_target_gates_take_precedence_over_the_device() {
    let device = mock_device(vec![Instruction::Standard(StandardGate::X)]);
    let ctx = CompilerContext::with_device(Circuit::new(2), device);
    let decomposer = Decomposer::new(DecomposeConfig::new().with_target_gates(vec![StandardGate::H, StandardGate::CZ]));
    assert_eq!(decomposer.target_basis(&ctx).unwrap(), vec![StandardGate::H, StandardGate::CZ]);
}

#[test]
fn device_basis_keeps_distinct_standard_gates_in_order() {
    let device = mock_device(vec![
        Instruction::Standard(StandardGate::H),
        Instruction::Delay,
        Instruction::Standard(StandardGate::CZ),
        Instruction::Directive(Directive::Barrier),
        Instruction::Standard(StandardGate::H),
        Instruction::McGate(McGate::new(1, StandardGate::X)),
    ]);
    let ctx = CompilerContext::with_device(Circuit::new(2), device);
    let basis = Decomposer::new(DecomposeConfig::new()).target_basis(&ctx).unwrap();
    assert_eq!(basis, vec![StandardGate::H, StandardGate::CZ]);
}

#[test]
fn configured_target_gates_are_deduplicated() {
    let config = DecomposeConfig::new().with_target_gates(vec![StandardGate::H, StandardGate::CZ, StandardGate::H]);
    assert_eq!(config.target_gates().unwrap(), &[StandardGate::H, StandardGate::CZ]);
}

#[test]
fn zero_max_rounds_is_rejected() {
    let ctx = CompilerContext::new(Circuit::new(1));
    let decomposer =
        Decomposer::new(DecomposeConfig::new().with_max_rounds(0).with_target_gates(vec![StandardGate::H]));
    assert_eq!(
        decomposer.target_basis(&ctx).unwrap_err(),
        CompilerError::InvalidContextState(ContextIssue::ZeroMaxRounds)
    );
}

#[test]
fn decompose_config_builders_change_only_their_field() {
    let base = DecomposeConfig::new();
    let changed = DecomposeConfig::new().with_max_rounds(3).recurse_control_flow(false).skip_labeled_ops(false);
    assert_eq!(changed.max_rounds(), 3);
    assert!(!changed.recurses_control_flow());
    assert!(!changed.skips_labeled_ops());
    assert_eq!(changed.target_gates(), base.target_gates());
    let descriptor = Decomposer::new(base).descriptor();
    assert_eq!(descriptor.name, "decompose.basis");
    assert!(descriptor.modifies_circuit);
}
