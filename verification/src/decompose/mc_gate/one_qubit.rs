//! One-qubit family lowering (`H`, `U`, `X2P`, `X2M`, `Y2P`, `Y2M`, `RXY`,
//! `XY`, `XY2P`, `XY2M`).
//!
//! The half rotations become lifted `RX(±pi/2)` or `RY(±pi/2)`. Other gates
//! are written as `e^{i gamma} RZ(phi) RY(theta) RZ(lambda)`: the phase
//! `gamma + (phi + lambda) / 2` becomes a conditional phase on the controls
//! and each nonzero Euler rotation is lifted under the controls. The Euler
//! angles are known exactly for `H`; the remaining gates need a numeric
//! synthesis of their matrix, which this library does not perform.
use crate::circuit::{
    angle_is_zero, append_all, gate_param_count, ops_view, push_param_gate1, with_params, Angle, AngleBase,
    CircuitParam, McGate, OpView, Operation, StandardGate,
};
use crate::decompose::mc_gate::decompose::{
    decompose_lifted, gate_rank, has_symbolic, lifted_result, lowered, lowering_config, view_error, view_failure,
    AncillaMode, LoweringConfig, McGateDecomposeConfig, McGateOperandView, OperandModel,
};
use crate::decompose::mc_gate::pauli::{count_failure, count_matches};
use crate::decompose::mc_gate::phase_ops::{
    controlled_phase_component_operation_count, emit_controlled_phase_component, phase_component,
    phase_component_cost, phase_op,
};
use crate::decompose::mc_gate::rx_ry::{half_pi, model_ok};
use crate::decompose::mc_gate::rz::over_budget;
use crate::error::{CompilerError, EulerStep, LoweringFamily, McGateDetail, McGateFailure, NestedStep, SymbolicNeed};
use crate::semantics::copy_range;
use vstd::prelude::*;

verus! {

/// Whether a base gate belongs to the one-qubit family.
pub open spec fn one_qubit_member(base: StandardGate) -> bool {
    base == StandardGate::H || base == StandardGate::U || base == StandardGate::X2P || base == StandardGate::X2M
        || base == StandardGate::Y2P || base == StandardGate::Y2M || base == StandardGate::RXY || base == StandardGate::XY
        || base == StandardGate::XY2P || base == StandardGate::XY2M
}

/// A multiple of `pi`.
pub open spec fn pi_angle(numerator: i64, log2_denominator: u32) -> Angle {
    Angle { numerator, log2_denominator, base: AngleBase::Pi }
}

/// Exact Euler data `(conditional phase, lambda, theta, phi)` of a
/// parameter-free family gate, where known: `H = U(pi/2, 0, pi)`.
pub open spec fn euler_angles(base: StandardGate) -> Option<(Angle, Angle, Angle, Angle)> {
    if base == StandardGate::H {
        Some((pi_angle(1, 1), pi_angle(1, 0), pi_angle(1, 1), pi_angle(0, 0)))
    } else {
        None
    }
}

/// Operation count of a controlled `RZ` over the view's controls.
pub open spec fn controlled_rz_count(m: OperandModel, c: LoweringConfig) -> Result<nat, McGateFailure> {
    let k = m.controls.len();
    if k <= 1 {
        Ok(1)
    } else {
        match phase_component_cost(m, c, LoweringFamily::OneQubit, k) {
            Err(f) => Err(f),
            Ok(a) => match phase_component_cost(m, c, LoweringFamily::OneQubit, (k - 1) as nat) {
                Err(f) => Err(f),
                Ok(b) => if a + b > usize::MAX {
                    count_failure(m, c, McGateDetail::ExpansionOverflow(LoweringFamily::OneQubit))
                } else {
                    Ok(a + b)
                },
            },
        }
    }
}

/// Operation count of a controlled `RX`/`RY` over the view's controls.
pub open spec fn controlled_xy_count(m: OperandModel, c: LoweringConfig) -> Result<nat, McGateFailure> {
    if m.controls.len() <= 1 {
        Ok(1)
    } else {
        match controlled_rz_count(m, c) {
            Err(f) => Err(f),
            Ok(n) => if n + 2 > usize::MAX {
                count_failure(m, c, McGateDetail::ExpansionOverflow(LoweringFamily::OneQubit))
            } else {
                Ok(n + 2)
            },
        }
    }
}

/// Operation count of the conditional phase on the controls.
pub open spec fn conditional_phase_count(m: OperandModel, c: LoweringConfig, phase: Angle) -> Result<nat, McGateFailure> {
    if angle_is_zero(phase) {
        Ok(0)
    } else if m.controls.len() == 1 {
        Ok(1)
    } else {
        phase_component_cost(m, c, LoweringFamily::OneQubit, (m.controls.len() - 1) as nat)
    }
}

/// Adds a count when `counted` holds, failing on overflow.
pub open spec fn add_count(m: OperandModel, c: LoweringConfig, total: Result<nat, McGateFailure>, counted: bool, extra: Result<nat, McGateFailure>) -> Result<nat, McGateFailure> {
    match total {
        Err(f) => Err(f),
        Ok(t) => if !counted {
            Ok(t)
        } else {
            match extra {
                Err(f) => Err(f),
                Ok(e) => if t + e > usize::MAX {
                    count_failure(m, c, McGateDetail::ExpansionOverflow(LoweringFamily::OneQubit))
                } else {
                    Ok(t + e)
                },
            }
        },
    }
}

/// Operation count of a synthesized gate.
pub open spec fn synthesized_count(m: OperandModel, c: LoweringConfig, phase: Angle, lambda: Angle, theta: Angle, phi: Angle) -> Result<nat, McGateFailure> {
    let with_lambda = add_count(m, c, conditional_phase_count(m, c, phase), !angle_is_zero(lambda), controlled_rz_count(m, c));
    let with_theta = add_count(m, c, with_lambda, !angle_is_zero(theta), controlled_xy_count(m, c));
    add_count(m, c, with_theta, !angle_is_zero(phi), controlled_rz_count(m, c))
}

/// The conditional phase on the controls.
pub open spec fn conditional_phase(m: OperandModel, c: LoweringConfig, phase: Angle) -> Result<Seq<OpView>, McGateFailure> {
    let k = m.controls.len();
    if angle_is_zero(phase) {
        Ok(seq![])
    } else if k == 1 {
        Ok(seq![phase_op(m.controls[0], phase)])
    } else {
        phase_component(m, c, LoweringFamily::OneQubit, m.controls.subrange(0, k - 1), m.controls[k - 1], phase)
    }
}

/// A rotation lifted under the view's controls onto its target.
pub open spec fn lifted_rotation(m: OperandModel, c: LoweringConfig, gate: StandardGate, theta: Angle, step: NestedStep) -> Result<Seq<OpView>, McGateFailure>
    decreases 2nat, 0nat, 1nat,
{
    lifted_result(
        2,
        McGate { added_controls: m.controls.len() as u8, base: gate },
        m.controls.push(m.targets[0]),
        seq![CircuitParam::Fixed(theta)],
        c,
        step,
    )
}

/// A lifted rotation, skipped when its angle is zero.
pub open spec fn lifted_if_needed(m: OperandModel, c: LoweringConfig, gate: StandardGate, theta: Angle, step: NestedStep) -> Result<Seq<OpView>, McGateFailure>
    decreases 2nat, 0nat, 2nat,
{
    if angle_is_zero(theta) {
        Ok(seq![])
    } else {
        lifted_rotation(m, c, gate, theta, step)
    }
}

/// Concatenation of two results, failing with the first failure.
pub open spec fn then(a: Result<Seq<OpView>, McGateFailure>, b: Result<Seq<OpView>, McGateFailure>) -> Result<Seq<OpView>, McGateFailure> {
    match a {
        Err(f) => Err(f),
        Ok(x) => match b {
            Err(f) => Err(f),
            Ok(y) => Ok(x + y),
        },
    }
}

/// A half rotation lowered as a lifted `RX` or `RY`.
pub open spec fn named_half_rotation(m: OperandModel, c: LoweringConfig, gate: StandardGate, theta: Angle) -> Result<Seq<OpView>, McGateFailure>
    decreases 2nat, 0nat, 3nat,
{
    match controlled_xy_count(m, c) {
        Err(f) => Err(f),
        Ok(n) => match over_budget(m, c, LoweringFamily::OneQubit, n) {
            Some(f) => f,
            None => lifted_rotation(m, c, gate, theta, NestedStep::NamedHalfRotation(m.base)),
        },
    }
}

/// A gate lowered through the Euler data `(conditional phase, lambda,
/// theta, phi)`: the phase on the controls, then `RZ(lambda)`, `RY(theta)`
/// and `RZ(phi)` lifted under the controls, each rotation skipped when its
/// angle is zero, within the operation budget.
pub open spec fn synthesized_with(m: OperandModel, c: LoweringConfig, phase: Angle, lambda: Angle, theta: Angle, phi: Angle) -> Result<Seq<OpView>, McGateFailure>
    decreases 2nat, 0nat, 3nat,
{
    match synthesized_count(m, c, phase, lambda, theta, phi) {
        Err(f) => Err(f),
        Ok(n) => match over_budget(m, c, LoweringFamily::OneQubit, n) {
            Some(f) => f,
            None => then(
                then(
                    then(
                        conditional_phase(m, c, phase),
                        lifted_if_needed(m, c, StandardGate::RZ, lambda, NestedStep::EulerRotation(EulerStep::Lambda)),
                    ),
                    lifted_if_needed(m, c, StandardGate::RY, theta, NestedStep::EulerRotation(EulerStep::Theta)),
                ),
                lifted_if_needed(m, c, StandardGate::RZ, phi, NestedStep::EulerRotation(EulerStep::Phi)),
            ),
        },
    }
}

/// A gate lowered through its Euler decomposition, when its Euler data is
/// known exactly.
pub open spec fn synthesized(m: OperandModel, params: Seq<CircuitParam>, c: LoweringConfig) -> Result<Seq<OpView>, McGateFailure>
    decreases 2nat, 0nat, 4nat,
{
    if has_symbolic(params) {
        view_failure(m, c, McGateDetail::SymbolicUnsupported(SymbolicNeed::NumericSynthesis))
    } else {
        match euler_angles(m.base) {
            None => view_failure(m, c, McGateDetail::NumericSynthesisRequired(m.base)),
            Some((phase, lambda, theta, phi)) => synthesized_with(m, c, phase, lambda, theta, phi),
        }
    }
}

/// Result of the one-qubit family lowering.
pub open spec fn one_qubit_family(m: OperandModel, params: Seq<CircuitParam>, c: LoweringConfig) -> Result<Seq<OpView>, McGateFailure>
    decreases gate_rank(m.base), 1nat, 0nat,
{
    if m.targets.len() != 1 {
        view_failure(m, c, McGateDetail::WrongTargetCount { family: LoweringFamily::OneQubit, base: m.base, expected: 1, got: m.targets.len() as usize })
    } else if !one_qubit_member(m.base) {
        view_failure(m, c, McGateDetail::NotInFamily { family: LoweringFamily::OneQubit, base: m.base })
    } else if m.controls.len() == 0 {
        match over_budget(m, c, LoweringFamily::OneQubit, 1) {
            Some(f) => f,
            None => Ok(seq![with_params(m.base, seq![m.targets[0]], params)]),
        }
    } else if c.mode == AncillaMode::DirtyAncilla {
        view_failure(m, c, McGateDetail::DirtyUnsupported(LoweringFamily::OneQubit))
    } else if m.base == StandardGate::X2P {
        named_half_rotation(m, c, StandardGate::RX, half_pi(1i64))
    } else if m.base == StandardGate::X2M {
        named_half_rotation(m, c, StandardGate::RX, half_pi(-1i64))
    } else if m.base == StandardGate::Y2P {
        named_half_rotation(m, c, StandardGate::RY, half_pi(1i64))
    } else if m.base == StandardGate::Y2M {
        named_half_rotation(m, c, StandardGate::RY, half_pi(-1i64))
    } else {
        synthesized(m, params, c)
    }
}

/// Operation count of a controlled `RZ` over the view's controls.
fn controlled_rz_operation_count(view: &McGateOperandView, config: &McGateDecomposeConfig) -> (r: Result<usize, CompilerError>)
    requires
        view@.controls.len() <= 257,
    ensures
        count_matches(r, controlled_rz_count(view@, lowering_config(*config))),
{
    let k = view.total_control_count();
    if k <= 1 {
        return Ok(1);
    }
    let a = match controlled_phase_component_operation_count(view, config, k, LoweringFamily::OneQubit) {
        Ok(n) => n,
        Err(e) => return Err(e),
    };
    let b = match controlled_phase_component_operation_count(view, config, k - 1, LoweringFamily::OneQubit) {
        Ok(n) => n,
        Err(e) => return Err(e),
    };
    match a.checked_add(b) {
        Some(n) => Ok(n),
        None => Err(view_error(view, config, McGateDetail::ExpansionOverflow(LoweringFamily::OneQubit))),
    }
}

/// Operation count of a controlled `RX`/`RY` over the view's controls.
fn controlled_xy_operation_count(view: &McGateOperandView, config: &McGateDecomposeConfig) -> (r: Result<usize, CompilerError>)
    requires
        view@.controls.len() <= 257,
    ensures
        count_matches(r, controlled_xy_count(view@, lowering_config(*config))),
{
    if view.total_control_count() <= 1 {
        return Ok(1);
    }
    let n = match controlled_rz_operation_count(view, config) {
        Ok(n) => n,
        Err(e) => return Err(e),
    };
    match n.checked_add(2) {
        Some(n) => Ok(n),
        None => Err(view_error(view, config, McGateDetail::ExpansionOverflow(LoweringFamily::OneQubit))),
    }
}

/// Adds `extra` to `total` when `counted` holds, failing on overflow.
fn add_operation_count(view: &McGateOperandView, config: &McGateDecomposeConfig, total: usize, counted: bool, extra: Result<usize, CompilerError>) -> (r: Result<usize, CompilerError>)
    ensures
        forall|e: Result<nat, McGateFailure>| count_matches(extra, e) ==> count_matches(
            r,
            add_count(view@, lowering_config(*config), Ok(total as nat), counted, e),
        ),
{
    if !counted {
        return Ok(total);
    }
    match extra {
        Err(e) => Err(e),
        Ok(n) => match total.checked_add(n) {
            Some(t) => Ok(t),
            None => Err(view_error(view, config, McGateDetail::ExpansionOverflow(LoweringFamily::OneQubit))),
        },
    }
}

/// Lowers a rotation lifted under the view's controls onto its target.
fn decompose_lifted_rotation(view: &McGateOperandView, config: &McGateDecomposeConfig, gate: StandardGate, theta: Angle, step: NestedStep) -> (r: Result<Vec<Operation>, CompilerError>)
    requires
        model_ok(view@),
        gate_rank(view@.base) == 2,
        gate_rank(gate) < 2,
        view@.targets.len() == 1,
    ensures
        lowered(r, lifted_rotation(view@, lowering_config(*config), gate, theta, step)),
    decreases 2nat, 0nat, 1nat,
{
    let controls = view.all_controls();
    let k = controls.len();
    let lifted = McGate { added_controls: k as u8, base: gate };
    let mut qubits = copy_range(controls, 0, k);
    qubits.push(view.targets()[0]);
    let params = [CircuitParam::Fixed(theta)];
    proof {
        assert(qubits@ =~= view@.controls.push(view@.targets[0]));
        assert(params@ =~= seq![CircuitParam::Fixed(theta)]);
    }
    decompose_lifted(2, &lifted, qubits.as_slice(), &params, config, step)
}

/// Lowers a one-qubit family MCGate.
pub fn decompose_one_qubit_family(view: &McGateOperandView, params: &[CircuitParam], config: &McGateDecomposeConfig) -> (r: Result<Vec<Operation>, CompilerError>)
    requires
        model_ok(view@),
        gate_rank(view@.base) == 2,
        params@.len() == gate_param_count(view@.base),
    ensures
        lowered(r, one_qubit_family(view@, params@, lowering_config(*config))),
    decreases gate_rank(view@.base), 1nat, 0nat,
{
    let targets = view.targets();
    let base = view.base_gate();
    if targets.len() != 1 {
        return Err(view_error(view, config, McGateDetail::WrongTargetCount {
            family: LoweringFamily::OneQubit,
            base,
            expected: 1,
            got: targets.len(),
        }));
    }
    let member = base == StandardGate::H || base == StandardGate::U || base == StandardGate::X2P || base == StandardGate::X2M
        || base == StandardGate::Y2P || base == StandardGate::Y2M || base == StandardGate::RXY || base == StandardGate::XY
        || base == StandardGate::XY2P || base == StandardGate::XY2M;
    if !member {
        return Err(view_error(view, config, McGateDetail::NotInFamily { family: LoweringFamily::OneQubit, base }));
    }
    let target = targets[0];
    let k = view.total_control_count();
    if k == 0 {
        if 1 > config.max_expansion_ops {
            return Err(view_error(view, config, McGateDetail::ExceedsBudget { family: LoweringFamily::OneQubit, count: 1, max: config.max_expansion_ops }));
        }
        let qs = [target];
        proof {
            assert(qs@ =~= seq![target]);
        }
        let op = crate::circuit::make_operation(crate::circuit::Instruction::Standard(base), &qs, params);
        let operations = vec![op];
        proof {
            assert(ops_view(operations@) =~= seq![with_params(base, seq![target], params@)]);
        }
        return Ok(operations);
    }
    if config.ancilla_mode == AncillaMode::DirtyAncilla {
        return Err(view_error(view, config, McGateDetail::DirtyUnsupported(LoweringFamily::OneQubit)));
    }
    if base == StandardGate::X2P || base == StandardGate::X2M || base == StandardGate::Y2P || base == StandardGate::Y2M {
        let gate = if base == StandardGate::X2P || base == StandardGate::X2M { StandardGate::RX } else { StandardGate::RY };
        let sign: i64 = if base == StandardGate::X2P || base == StandardGate::Y2P { 1 } else { -1 };
        let n = match controlled_xy_operation_count(view, config) {
            Ok(n) => n,
            Err(e) => return Err(e),
        };
        if n > config.max_expansion_ops {
            return Err(view_error(view, config, McGateDetail::ExceedsBudget { family: LoweringFamily::OneQubit, count: n, max: config.max_expansion_ops }));
        }
        return decompose_lifted_rotation(view, config, gate, Angle::pi_fraction(sign, 1), NestedStep::NamedHalfRotation(base));
    }
    decompose_synthesized(view, params, config)
}

/// Lowers a gate through its Euler decomposition.
fn decompose_synthesized(view: &McGateOperandView, params: &[CircuitParam], config: &McGateDecomposeConfig) -> (r: Result<Vec<Operation>, CompilerError>)
    requires
        model_ok(view@),
        gate_rank(view@.base) == 2,
        view@.targets.len() == 1,
        view@.controls.len() >= 1,
    ensures
        lowered(r, synthesized(view@, params@, lowering_config(*config))),
    decreases 2nat, 0nat, 4nat,
{
    let mut i: usize = 0;
    while i < params.len()
        invariant
            i <= params.len(),
            forall|j: int| 0 <= j < i ==> !(params@[j] is Index),
        decreases params.len() - i,
    {
        if let CircuitParam::Index(_) = params[i] {
            return Err(view_error(view, config, McGateDetail::SymbolicUnsupported(SymbolicNeed::NumericSynthesis)));
        }
        i = i + 1;
    }
    let base = view.base_gate();
    if base != StandardGate::H {
        return Err(view_error(view, config, McGateDetail::NumericSynthesisRequired(base)));
    }
    decompose_with_euler_angles(
        view,
        config,
        Angle::pi_fraction(1, 1),
        Angle::pi_fraction(1, 0),
        Angle::pi_fraction(1, 1),
        Angle::pi_fraction(0, 0),
    )
}

/// Operation count of the conditional phase on the controls.
fn conditional_phase_operation_count(view: &McGateOperandView, config: &McGateDecomposeConfig, phase: Angle) -> (r: Result<usize, CompilerError>)
    requires
        1 <= view@.controls.len() <= 257,
    ensures
        count_matches(r, conditional_phase_count(view@, lowering_config(*config), phase)),
{
    let k = view.total_control_count();
    if phase.is_zero() {
        Ok(0)
    } else if k == 1 {
        Ok(1)
    } else {
        controlled_phase_component_operation_count(view, config, k - 1, LoweringFamily::OneQubit)
    }
}

/// Lowers a one-qubit family MCGate through the given Euler data
/// `(conditional phase, lambda, theta, phi)`: the phase on the controls,
/// then `RZ(lambda)`, `RY(theta)` and `RZ(phi)` lifted under the controls,
/// each rotation skipped when its angle is zero.
pub fn decompose_with_euler_angles(
    view: &McGateOperandView,
    config: &McGateDecomposeConfig,
    phase: Angle,
    lambda: Angle,
    theta: Angle,
    phi: Angle,
) -> (r: Result<Vec<Operation>, CompilerError>)
    requires
        model_ok(view@),
        gate_rank(view@.base) == 2,
        view@.targets.len() == 1,
        view@.controls.len() >= 1,
    ensures
        lowered(r, synthesized_with(view@, lowering_config(*config), phase, lambda, theta, phi)),
    decreases 2nat, 0nat, 3nat,
{
    let ghost m = view@;
    let ghost c = lowering_config(*config);
    let k = view.total_control_count();
    let phase_count = match conditional_phase_operation_count(view, config, phase) {
        Ok(n) => n,
        Err(e) => return Err(e),
    };
    let with_lambda = match add_operation_count(view, config, phase_count, !lambda.is_zero(), controlled_rz_operation_count(view, config)) {
        Ok(n) => n,
        Err(e) => return Err(e),
    };
    let with_theta = match add_operation_count(view, config, with_lambda, !theta.is_zero(), controlled_xy_operation_count(view, config)) {
        Ok(n) => n,
        Err(e) => return Err(e),
    };
    let count = match add_operation_count(view, config, with_theta, !phi.is_zero(), controlled_rz_operation_count(view, config)) {
        Ok(n) => n,
        Err(e) => return Err(e),
    };
    if count > config.max_expansion_ops {
        return Err(view_error(view, config, McGateDetail::ExceedsBudget { family: LoweringFamily::OneQubit, count, max: config.max_expansion_ops }));
    }
    let mut operations: Vec<Operation> = Vec::new();
    let controls = view.all_controls();
    if phase.is_zero() {
        proof {
            assert(ops_view(operations@) =~= Seq::<OpView>::empty());
        }
    } else if k == 1 {
        push_param_gate1(&mut operations, StandardGate::Phase, controls[0], CircuitParam::Fixed(phase));
        proof {
            assert(ops_view(operations@) =~= seq![phase_op(controls@[0], phase)]);
        }
    } else {
        let rest = vstd::slice::slice_subrange(controls, 0, k - 1);
        match emit_controlled_phase_component(&mut operations, view, rest, controls[k - 1], phase, config, LoweringFamily::OneQubit) {
            Ok(()) => {},
            Err(e) => return Err(e),
        }
        proof {
            assert(Seq::<OpView>::empty() + ops_view(operations@) =~= ops_view(operations@));
        }
    }
    let ghost head = ops_view(operations@);
    if !lambda.is_zero() {
        let rz = match decompose_lifted_rotation(view, config, StandardGate::RZ, lambda, NestedStep::EulerRotation(EulerStep::Lambda)) {
            Ok(ops) => ops,
            Err(e) => return Err(e),
        };
        append_all(&mut operations, rz);
    }
    let ghost after_lambda = ops_view(operations@);
    proof {
        assert(then(Ok(head), lifted_if_needed(m, c, StandardGate::RZ, lambda, NestedStep::EulerRotation(EulerStep::Lambda))) == Ok::<Seq<OpView>, McGateFailure>(after_lambda)) by {
            if angle_is_zero(lambda) {
                assert(head + Seq::<OpView>::empty() =~= head);
            }
        }
    }
    if !theta.is_zero() {
        let ry = match decompose_lifted_rotation(view, config, StandardGate::RY, theta, NestedStep::EulerRotation(EulerStep::Theta)) {
            Ok(ops) => ops,
            Err(e) => return Err(e),
        };
        append_all(&mut operations, ry);
    }
    let ghost after_theta = ops_view(operations@);
    proof {
        assert(then(Ok(after_lambda), lifted_if_needed(m, c, StandardGate::RY, theta, NestedStep::EulerRotation(EulerStep::Theta))) == Ok::<Seq<OpView>, McGateFailure>(after_theta)) by {
            if angle_is_zero(theta) {
                assert(after_lambda + Seq::<OpView>::empty() =~= after_lambda);
            }
        }
    }
    if !phi.is_zero() {
        let rz = match decompose_lifted_rotation(view, config, StandardGate::RZ, phi, NestedStep::EulerRotation(EulerStep::Phi)) {
            Ok(ops) => ops,
            Err(e) => return Err(e),
        };
        append_all(&mut operations, rz);
    }
    proof {
        let after_phi = ops_view(operations@);
        assert(then(Ok(after_theta), lifted_if_needed(m, c, StandardGate::RZ, phi, NestedStep::EulerRotation(EulerStep::Phi))) == Ok::<Seq<OpView>, McGateFailure>(after_phi)) by {
            if angle_is_zero(phi) {
                assert(after_theta + Seq::<OpView>::empty() =~= after_theta);
            }
        }
    }
    Ok(operations)
}

} // verus!
