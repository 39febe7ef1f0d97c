//! `RX`, `RY`, `CRX`, and `CRY` lowering.
//!
//! With at most one control the standard gate (or its one-control form) is
//! emitted directly. With more controls the rotation axis is changed to `Z`
//! on the target, a multi-controlled `CRZ` is lowered recursively, and the
//! basis change is undone: `H` around it for `RX`, `RX(pi/2)` and
//! `RX(-pi/2)` around it for `RY`.
use crate::circuit::{
    append_all, gate_control_count, gate_param_count, ops_view, plain, push_gate1, push_param_gate1, with_params, Angle,
    AngleBase, CircuitParam, McGate, OpView, Operation, Qubit, StandardGate,
};
use crate::decompose::mc_gate::decompose::{
    decompose_mc_gate, gate_rank, lowered, lowering_config, mc_gate_result, nested_failure, view_error, view_failure, LoweringConfig,
    McGateDecomposeConfig, McGateOperandView, OperandModel,
};
use crate::decompose::mc_gate::phase_ops::{controlled_phase_component_operation_count, phase_component_cost};
use crate::decompose::mc_gate::rz::{over_budget, single_param_operation};
use crate::error::{CompilerError, LoweringFamily, McGateDetail, McGateFailure, NestedStep, SymbolicNeed};
use crate::semantics::copy_range;
use vstd::prelude::*;

verus! {

/// `pi / 2` with the given sign.
pub open spec fn half_pi(sign: i64) -> Angle {
    Angle { numerator: sign, log2_denominator: 1, base: AngleBase::Pi }
}

/// A fixed-angle one-qubit rotation.
pub open spec fn rotation_op(gate: StandardGate, q: Qubit, angle: Angle) -> OpView {
    with_params(gate, seq![q], seq![CircuitParam::Fixed(angle)])
}

/// The standard gate emitted directly for `k` controls, if any.
pub open spec fn rx_ry_direct(base: StandardGate, k: nat) -> Option<StandardGate> {
    match base {
        StandardGate::RX => if k == 0 { Some(StandardGate::RX) } else if k == 1 { Some(StandardGate::CRX) } else { None },
        StandardGate::RY => if k == 0 { Some(StandardGate::RY) } else if k == 1 { Some(StandardGate::CRY) } else { None },
        StandardGate::CRX => if k == 1 { Some(StandardGate::CRX) } else { None },
        StandardGate::CRY => if k == 1 { Some(StandardGate::CRY) } else { None },
        _ => None,
    }
}

/// Whether an operand view satisfies the arity bound of a validated MCGate.
pub open spec fn model_ok(m: OperandModel) -> bool {
    gate_control_count(m.base) <= m.controls.len() <= 255 + gate_control_count(m.base)
}

/// The lifted `CRZ` of the basis-change path, with failures wrapped.
pub open spec fn lifted_rz(m: OperandModel, params: Seq<CircuitParam>, c: LoweringConfig) -> Result<Seq<OpView>, McGateFailure>
    decreases gate_rank(m.base), 0nat, 0nat,
{
    if gate_rank(m.base) == 1 && m.controls.len() >= 1 && m.targets.len() == 1 {
        let lifted = McGate { added_controls: (m.controls.len() - 1) as u8, base: StandardGate::CRZ };
        match mc_gate_result(lifted, m.controls.push(m.targets[0]), params, c) {
            Err(f) => Err(nested_failure(NestedStep::RxRyBasisChange, f)),
            Ok(rz) => Ok(rz),
        }
    } else {
        Ok(seq![])
    }
}

/// Result of the `RX`/`RY`/`CRX`/`CRY` lowering.
pub open spec fn rx_ry_family(m: OperandModel, params: Seq<CircuitParam>, c: LoweringConfig) -> Result<Seq<OpView>, McGateFailure>
    decreases gate_rank(m.base), 1nat, 0nat,
{
    let k = m.controls.len();
    if m.targets.len() != 1 {
        view_failure(m, c, McGateDetail::WrongTargetCount { family: LoweringFamily::RxRy, base: m.base, expected: 1, got: m.targets.len() as usize })
    } else if !(m.base == StandardGate::RX || m.base == StandardGate::RY || m.base == StandardGate::CRX || m.base == StandardGate::CRY) {
        view_failure(m, c, McGateDetail::NotInFamily { family: LoweringFamily::RxRy, base: m.base })
    } else {
        let target = m.targets[0];
        match rx_ry_direct(m.base, k) {
            Some(gate) => match over_budget(m, c, LoweringFamily::RxRy, 1) {
                Some(f) => f,
                None => Ok(seq![with_params(
                    gate,
                    if gate == StandardGate::RX || gate == StandardGate::RY { seq![target] } else { seq![m.controls[0], target] },
                    seq![params[0]],
                )]),
            },
            None => match params[0] {
                CircuitParam::Index(_) => view_failure(m, c, McGateDetail::SymbolicUnsupported(SymbolicNeed::RxRyCompensation)),
                CircuitParam::Fixed(_) => match phase_component_cost(m, c, LoweringFamily::RxRy, k) {
                    Err(f) => Err(f),
                    Ok(a) => match phase_component_cost(m, c, LoweringFamily::RxRy, (k - 1) as nat) {
                        Err(f) => Err(f),
                        Ok(b) => if a + b + 2 > usize::MAX {
                            view_failure(m, c, McGateDetail::ExpansionOverflow(LoweringFamily::RxRy))
                        } else if a + b + 2 > c.max_ops {
                            view_failure(m, c, McGateDetail::ExceedsBudget {
                                family: LoweringFamily::RxRy,
                                count: (a + b + 2) as usize,
                                max: c.max_ops,
                            })
                        } else {
                            match lifted_rz(m, params, c) {
                                Err(f) => Err(f),
                                Ok(rz) => if m.base == StandardGate::RX || m.base == StandardGate::CRX {
                                    Ok(seq![plain(StandardGate::H, seq![target])] + rz + seq![plain(StandardGate::H, seq![target])])
                                } else {
                                    Ok(seq![rotation_op(StandardGate::RX, target, half_pi(1i64))] + rz + seq![
                                        rotation_op(StandardGate::RX, target, half_pi(-1i64)),
                                    ])
                                },
                            }
                        },
                    },
                },
            },
        }
    }
}

/// Lowers the lifted `CRZ` of the basis-change path.
fn decompose_lifted_rz(view: &McGateOperandView, params: &[CircuitParam], config: &McGateDecomposeConfig) -> (r: Result<Vec<Operation>, CompilerError>)
    requires
        model_ok(view@),
        gate_rank(view@.base) == 1,
        view@.controls.len() >= 2,
        view@.targets.len() == 1,
    ensures
        lowered(r, lifted_rz(view@, params@, lowering_config(*config))),
    decreases gate_rank(view@.base), 0nat, 0nat,
{
    let controls = view.all_controls();
    let k = controls.len();
    let target = view.targets()[0];
    let lifted = McGate { added_controls: (k - 1) as u8, base: StandardGate::CRZ };
    let mut qubits = copy_range(controls, 0, k);
    qubits.push(target);
    proof {
        assert(qubits@ =~= view@.controls.push(target));
    }
    match decompose_mc_gate(&lifted, qubits.as_slice(), params, config) {
        Ok(ops) => Ok(ops),
        Err(e) => {
            let inner = match e {
                CompilerError::McGateFailed(f) => f,
                _ => return Err(e),
            };
            let context = inner.context;
            Err(CompilerError::McGateFailed(McGateFailure {
                detail: McGateDetail::Nested { step: NestedStep::RxRyBasisChange, inner: Box::new(inner) },
                context,
            }))
        },
    }
}

/// Lowers an `RX`/`RY`/`CRX`/`CRY` MCGate.
pub fn decompose_rx_ry_family(view: &McGateOperandView, params: &[CircuitParam], config: &McGateDecomposeConfig) -> (r: Result<Vec<Operation>, CompilerError>)
    requires
        model_ok(view@),
        params@.len() == gate_param_count(view@.base),
    ensures
        lowered(r, rx_ry_family(view@, params@, lowering_config(*config))),
    decreases gate_rank(view@.base), 1nat, 0nat,
{
    let targets = view.targets();
    let base = view.base_gate();
    if targets.len() != 1 {
        return Err(view_error(view, config, McGateDetail::WrongTargetCount {
            family: LoweringFamily::RxRy,
            base,
            expected: 1,
            got: targets.len(),
        }));
    }
    if !(base == StandardGate::RX || base == StandardGate::RY || base == StandardGate::CRX || base == StandardGate::CRY) {
        return Err(view_error(view, config, McGateDetail::NotInFamily { family: LoweringFamily::RxRy, base }));
    }
    let target = targets[0];
    let controls = view.all_controls();
    let k = controls.len();
    let direct = match base {
        StandardGate::RX => if k == 0 { Some(StandardGate::RX) } else if k == 1 { Some(StandardGate::CRX) } else { None },
        StandardGate::RY => if k == 0 { Some(StandardGate::RY) } else if k == 1 { Some(StandardGate::CRY) } else { None },
        StandardGate::CRX => if k == 1 { Some(StandardGate::CRX) } else { None },
        StandardGate::CRY => if k == 1 { Some(StandardGate::CRY) } else { None },
        _ => None,
    };
    if let Some(gate) = direct {
        if 1 > config.max_expansion_ops {
            return Err(view_error(view, config, McGateDetail::ExceedsBudget { family: LoweringFamily::RxRy, count: 1, max: config.max_expansion_ops }));
        }
        if gate == StandardGate::RX || gate == StandardGate::RY {
            let qs = [target];
            proof {
                assert(qs@ =~= seq![target]);
            }
            return Ok(single_param_operation(gate, &qs, params[0]));
        } else {
            let qs = [controls[0], target];
            proof {
                assert(qs@ =~= seq![controls@[0], target]);
            }
            return Ok(single_param_operation(gate, &qs, params[0]));
        }
    }
    match params[0] {
        CircuitParam::Index(_) => return Err(view_error(view, config, McGateDetail::SymbolicUnsupported(SymbolicNeed::RxRyCompensation))),
        CircuitParam::Fixed(_) => {},
    }
    let a = match controlled_phase_component_operation_count(view, config, k, LoweringFamily::RxRy) {
        Ok(count) => count,
        Err(e) => return Err(e),
    };
    let b = match controlled_phase_component_operation_count(view, config, k - 1, LoweringFamily::RxRy) {
        Ok(count) => count,
        Err(e) => return Err(e),
    };
    let lifted_count = match a.checked_add(b) {
        Some(count) => count,
        None => return Err(view_error(view, config, McGateDetail::ExpansionOverflow(LoweringFamily::RxRy))),
    };
    let count = match lifted_count.checked_add(2) {
        Some(count) => count,
        None => return Err(view_error(view, config, McGateDetail::ExpansionOverflow(LoweringFamily::RxRy))),
    };
    if count > config.max_expansion_ops {
        return Err(view_error(view, config, McGateDetail::ExceedsBudget { family: LoweringFamily::RxRy, count, max: config.max_expansion_ops }));
    }
    let rz = match decompose_lifted_rz(view, params, config) {
        Ok(ops) => ops,
        Err(e) => return Err(e),
    };
    let ghost body = ops_view(rz@);
    let mut operations: Vec<Operation> = Vec::new();
    if base == StandardGate::RX || base == StandardGate::CRX {
        push_gate1(&mut operations, StandardGate::H, target);
        append_all(&mut operations, rz);
        push_gate1(&mut operations, StandardGate::H, target);
        proof {
            assert(ops_view(operations@) =~= seq![plain(StandardGate::H, seq![target])] + body + seq![plain(StandardGate::H, seq![target])]);
        }
    } else {
        push_param_gate1(&mut operations, StandardGate::RX, target, CircuitParam::Fixed(Angle::pi_fraction(1, 1)));
        append_all(&mut operations, rz);
        push_param_gate1(&mut operations, StandardGate::RX, target, CircuitParam::Fixed(Angle::pi_fraction(-1, 1)));
        proof {
            assert(ops_view(operations@) =~= seq![rotation_op(StandardGate::RX, target, half_pi(1i64))] + body + seq![
                rotation_op(StandardGate::RX, target, half_pi(-1i64)),
            ]);
        }
    }
    Ok(operations)
}

} // verus!
