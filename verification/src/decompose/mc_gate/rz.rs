//! `RZ` and `CRZ` lowering.
//!
//! `RZ(theta) = exp(-i theta / 2) Phase(theta)`. Once controls are added
//! that global phase becomes conditional on all controls, so a
//! multi-controlled `RZ` is a controlled `Phase(theta)` on the target plus a
//! controlled `Phase(-theta / 2)` on the last control, controlled by the
//! other controls.
use crate::circuit::{
    gate_param_count, make_operation, ops_view, scaled_angle, with_params, Angle, CircuitParam, Instruction, OpView,
    Operation, StandardGate,
};
use crate::decompose::mc_gate::decompose::{
    lowered, lowering_config, view_error, view_failure, LoweringConfig, McGateDecomposeConfig, McGateOperandView,
    OperandModel,
};
use crate::decompose::mc_gate::phase_ops::{
    controlled_phase_component_operation_count, emit_controlled_phase_component, phase_component,
    phase_component_cost,
};
use crate::error::{CompilerError, LoweringFamily, McGateDetail, McGateFailure, SymbolicNeed};
use vstd::prelude::*;

verus! {

/// A budget failure when `count` exceeds the configured maximum.
pub open spec fn over_budget(m: OperandModel, c: LoweringConfig, family: LoweringFamily, count: nat) -> Option<Result<Seq<OpView>, McGateFailure>> {
    if count > c.max_ops {
        Some(view_failure(m, c, McGateDetail::ExceedsBudget { family, count: count as usize, max: c.max_ops }))
    } else {
        None
    }
}

/// A multi-controlled `RZ(theta)` for at least two controls.
pub open spec fn rz_lifted(m: OperandModel, c: LoweringConfig, theta: Angle) -> Result<Seq<OpView>, McGateFailure> {
    let k = m.controls.len();
    let target = m.targets[0];
    match phase_component_cost(m, c, LoweringFamily::Rz, k) {
        Err(f) => Err(f),
        Ok(a) => match phase_component_cost(m, c, LoweringFamily::Rz, (k - 1) as nat) {
            Err(f) => Err(f),
            Ok(b) => if a + b > usize::MAX {
                view_failure(m, c, McGateDetail::ExpansionOverflow(LoweringFamily::Rz))
            } else if a + b > c.max_ops {
                view_failure(m, c, McGateDetail::ExceedsBudget { family: LoweringFamily::Rz, count: (a + b) as usize, max: c.max_ops })
            } else {
                match phase_component(m, c, LoweringFamily::Rz, m.controls, target, theta) {
                    Err(f) => Err(f),
                    Ok(x) => match scaled_angle(theta, -1, 1) {
                        None => view_failure(m, c, McGateDetail::AngleOutOfRange),
                        Some(h) => match phase_component(m, c, LoweringFamily::Rz, m.controls.subrange(0, k - 1), m.controls[k - 1], h) {
                            Err(f) => Err(f),
                            Ok(y) => Ok(x + y),
                        },
                    },
                }
            },
        },
    }
}

/// Result of the `RZ`/`CRZ` lowering.
pub open spec fn rz_family(m: OperandModel, params: Seq<CircuitParam>, c: LoweringConfig) -> Result<Seq<OpView>, McGateFailure> {
    if m.targets.len() != 1 {
        view_failure(m, c, McGateDetail::WrongTargetCount { family: LoweringFamily::Rz, base: m.base, expected: 1, got: m.targets.len() as usize })
    } else if !(m.base == StandardGate::RZ || m.base == StandardGate::CRZ) {
        view_failure(m, c, McGateDetail::NotInFamily { family: LoweringFamily::Rz, base: m.base })
    } else {
        let target = m.targets[0];
        let k = m.controls.len();
        if k == 0 {
            match over_budget(m, c, LoweringFamily::Rz, 1) {
                Some(f) => f,
                None => Ok(seq![with_params(StandardGate::RZ, seq![target], seq![params[0]])]),
            }
        } else if k == 1 {
            match over_budget(m, c, LoweringFamily::Rz, 1) {
                Some(f) => f,
                None => Ok(seq![with_params(StandardGate::CRZ, seq![m.controls[0], target], seq![params[0]])]),
            }
        } else {
            match params[0] {
                CircuitParam::Index(_) => view_failure(m, c, McGateDetail::SymbolicUnsupported(SymbolicNeed::RzCompensation)),
                CircuitParam::Fixed(theta) => rz_lifted(m, c, theta),
            }
        }
    }
}

/// Emits the single direct operation `gate(qubits; param)`.
pub fn single_param_operation(gate: StandardGate, qubits: &[crate::circuit::Qubit], param: CircuitParam) -> (r: Vec<Operation>)
    ensures
        ops_view(r@) == seq![with_params(gate, qubits@, seq![param])],
{
    let ps = [param];
    proof {
        assert(ps@ =~= seq![param]);
    }
    let op = make_operation(Instruction::Standard(gate), qubits, &ps);
    let operations = vec![op];
    proof {
        assert(ops_view(operations@) =~= seq![with_params(gate, qubits@, seq![param])]);
    }
    operations
}

/// Lowers an `RZ`/`CRZ` MCGate, keeping the conditional global phase.
pub fn decompose_rz_family(view: &McGateOperandView, params: &[CircuitParam], config: &McGateDecomposeConfig) -> (r: Result<Vec<Operation>, CompilerError>)
    requires
        view@.controls.len() <= 257,
        params@.len() == gate_param_count(view@.base),
    ensures
        lowered(r, rz_family(view@, params@, lowering_config(*config))),
{
    let targets = view.targets();
    if targets.len() != 1 {
        return Err(view_error(view, config, McGateDetail::WrongTargetCount {
            family: LoweringFamily::Rz,
            base: view.base_gate(),
            expected: 1,
            got: targets.len(),
        }));
    }
    let base = view.base_gate();
    if !(base == StandardGate::RZ || base == StandardGate::CRZ) {
        return Err(view_error(view, config, McGateDetail::NotInFamily { family: LoweringFamily::Rz, base }));
    }
    let target = targets[0];
    let controls = view.all_controls();
    let k = controls.len();
    if k == 0 {
        if 1 > config.max_expansion_ops {
            return Err(view_error(view, config, McGateDetail::ExceedsBudget { family: LoweringFamily::Rz, count: 1, max: config.max_expansion_ops }));
        }
        let qs = [target];
        proof {
            assert(qs@ =~= seq![target]);
        }
        return Ok(single_param_operation(StandardGate::RZ, &qs, params[0]));
    }
    if k == 1 {
        if 1 > config.max_expansion_ops {
            return Err(view_error(view, config, McGateDetail::ExceedsBudget { family: LoweringFamily::Rz, count: 1, max: config.max_expansion_ops }));
        }
        let qs = [controls[0], target];
        proof {
            assert(qs@ =~= seq![controls@[0], target]);
        }
        return Ok(single_param_operation(StandardGate::CRZ, &qs, params[0]));
    }
    let theta = match params[0] {
        CircuitParam::Index(_) => return Err(view_error(view, config, McGateDetail::SymbolicUnsupported(SymbolicNeed::RzCompensation))),
        CircuitParam::Fixed(theta) => theta,
    };
    let a = match controlled_phase_component_operation_count(view, config, k, LoweringFamily::Rz) {
        Ok(count) => count,
        Err(e) => return Err(e),
    };
    let b = match controlled_phase_component_operation_count(view, config, k - 1, LoweringFamily::Rz) {
        Ok(count) => count,
        Err(e) => return Err(e),
    };
    let count = match a.checked_add(b) {
        Some(count) => count,
        None => return Err(view_error(view, config, McGateDetail::ExpansionOverflow(LoweringFamily::Rz))),
    };
    if count > config.max_expansion_ops {
        return Err(view_error(view, config, McGateDetail::ExceedsBudget { family: LoweringFamily::Rz, count, max: config.max_expansion_ops }));
    }
    let mut operations: Vec<Operation> = Vec::new();
    match emit_controlled_phase_component(&mut operations, view, controls, target, theta, config, LoweringFamily::Rz) {
        Ok(()) => {},
        Err(e) => return Err(e),
    }
    let ghost first = ops_view(operations@);
    let half = match theta.scaled(-1, 1) {
        Some(h) => h,
        None => return Err(view_error(view, config, McGateDetail::AngleOutOfRange)),
    };
    let rest = vstd::slice::slice_subrange(controls, 0, k - 1);
    match emit_controlled_phase_component(&mut operations, view, rest, controls[k - 1], half, config, LoweringFamily::Rz) {
        Ok(()) => {},
        Err(e) => return Err(e),
    }
    proof {
        assert(Seq::<OpView>::empty() + first =~= first);
    }
    Ok(operations)
}

} // verus!
