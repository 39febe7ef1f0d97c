//! Phase-family lowering (`S`, `SDG`, `T`, `TDG`, `Phase`).
//!
//! Every member is a `Phase(theta)` with a fixed or given angle: `S` is
//! `Phase(pi / 2)`, `T` is `Phase(pi / 4)`, and the daggers negate them. A
//! controlled member is therefore exactly `C^k Phase(theta)`, which the
//! shared phase primitive emits under the configured strategy.
use crate::circuit::{
    gate_param_count, make_operation, ops_view, with_params, Angle, CircuitParam, Instruction, OpView, Operation,
    StandardGate,
};
use crate::decompose::mc_gate::decompose::{
    lowered, lowering_config, view_error, view_failure, LoweringConfig, McGateDecomposeConfig, McGateOperandView,
    OperandModel,
};
use crate::decompose::mc_gate::phase_ops::{
    controlled_phase_component_operation_count, emit_controlled_phase_component, phase_component,
    phase_component_cost,
};
use crate::decompose::mc_gate::rz::over_budget;
use crate::error::{CompilerError, LoweringFamily, McGateDetail, McGateFailure, SymbolicNeed};
use vstd::prelude::*;

verus! {

/// Whether a base gate belongs to the Phase family.
pub open spec fn phase_member(base: StandardGate) -> bool {
    base == StandardGate::S || base == StandardGate::SDG || base == StandardGate::T || base == StandardGate::TDG
        || base == StandardGate::Phase
}

/// The fixed angle of a Phase-family gate; `None` for a `Phase` whose angle
/// is a parameter-table index.
pub open spec fn phase_angle(base: StandardGate, params: Seq<CircuitParam>) -> Option<Angle> {
    if base == StandardGate::S {
        Some(Angle::pi_fraction_spec(1, 1))
    } else if base == StandardGate::SDG {
        Some(Angle::pi_fraction_spec(-1i64, 1))
    } else if base == StandardGate::T {
        Some(Angle::pi_fraction_spec(1, 2))
    } else if base == StandardGate::TDG {
        Some(Angle::pi_fraction_spec(-1i64, 2))
    } else {
        match params[0] {
            CircuitParam::Fixed(theta) => Some(theta),
            CircuitParam::Index(_) => None,
        }
    }
}

/// Result of the Phase-family lowering.
pub open spec fn phase_family(m: OperandModel, params: Seq<CircuitParam>, c: LoweringConfig) -> Result<Seq<OpView>, McGateFailure> {
    if m.targets.len() != 1 {
        view_failure(m, c, McGateDetail::WrongTargetCount { family: LoweringFamily::Phase, base: m.base, expected: 1, got: m.targets.len() as usize })
    } else if !phase_member(m.base) {
        view_failure(m, c, McGateDetail::NotInFamily { family: LoweringFamily::Phase, base: m.base })
    } else {
        let target = m.targets[0];
        let k = m.controls.len();
        if k == 0 {
            match over_budget(m, c, LoweringFamily::Phase, 1) {
                Some(f) => f,
                None => Ok(seq![with_params(m.base, seq![target], params)]),
            }
        } else {
            match phase_angle(m.base, params) {
                None => view_failure(m, c, McGateDetail::SymbolicUnsupported(SymbolicNeed::PhaseScaling)),
                Some(theta) => match phase_component_cost(m, c, LoweringFamily::Phase, k) {
                    Err(f) => Err(f),
                    Ok(n) => match over_budget(m, c, LoweringFamily::Phase, n) {
                        Some(f) => f,
                        None => phase_component(m, c, LoweringFamily::Phase, m.controls, target, theta),
                    },
                },
            }
        }
    }
}

/// The fixed angle of a Phase-family gate, or `None` for a symbolic `Phase`.
fn fixed_phase_angle(base: StandardGate, params: &[CircuitParam]) -> (r: Option<Angle>)
    requires
        phase_member(base),
        params@.len() == gate_param_count(base),
    ensures
        r == phase_angle(base, params@),
{
    match base {
        StandardGate::S => Some(Angle::pi_fraction(1, 1)),
        StandardGate::SDG => Some(Angle::pi_fraction(-1, 1)),
        StandardGate::T => Some(Angle::pi_fraction(1, 2)),
        StandardGate::TDG => Some(Angle::pi_fraction(-1, 2)),
        _ => match params[0] {
            CircuitParam::Fixed(theta) => Some(theta),
            CircuitParam::Index(_) => None,
        },
    }
}

/// Lowers a Phase-family MCGate to an exact `C^k Phase(theta)`.
pub fn decompose_phase_family(view: &McGateOperandView, params: &[CircuitParam], config: &McGateDecomposeConfig) -> (r: Result<Vec<Operation>, CompilerError>)
    requires
        view@.controls.len() <= 257,
        params@.len() == gate_param_count(view@.base),
    ensures
        lowered(r, phase_family(view@, params@, lowering_config(*config))),
{
    let targets = view.targets();
    if targets.len() != 1 {
        return Err(view_error(view, config, McGateDetail::WrongTargetCount {
            family: LoweringFamily::Phase,
            base: view.base_gate(),
            expected: 1,
            got: targets.len(),
        }));
    }
    let base = view.base_gate();
    if !(base == StandardGate::S || base == StandardGate::SDG || base == StandardGate::T || base == StandardGate::TDG
        || base == StandardGate::Phase) {
        return Err(view_error(view, config, McGateDetail::NotInFamily { family: LoweringFamily::Phase, base }));
    }
    let target = targets[0];
    let controls = view.all_controls();
    let k = controls.len();
    if k == 0 {
        if 1 > config.max_expansion_ops {
            return Err(view_error(view, config, McGateDetail::ExceedsBudget { family: LoweringFamily::Phase, count: 1, max: config.max_expansion_ops }));
        }
        let qs = [target];
        proof {
            assert(qs@ =~= seq![target]);
        }
        let op = make_operation(Instruction::Standard(base), &qs, params);
        let operations = vec![op];
        proof {
            assert(ops_view(operations@) =~= seq![with_params(base, seq![target], params@)]);
        }
        return Ok(operations);
    }
    let theta = match fixed_phase_angle(base, params) {
        Some(theta) => theta,
        None => return Err(view_error(view, config, McGateDetail::SymbolicUnsupported(SymbolicNeed::PhaseScaling))),
    };
    let count = match controlled_phase_component_operation_count(view, config, k, LoweringFamily::Phase) {
        Ok(count) => count,
        Err(e) => return Err(e),
    };
    if count > config.max_expansion_ops {
        return Err(view_error(view, config, McGateDetail::ExceedsBudget { family: LoweringFamily::Phase, count, max: config.max_expansion_ops }));
    }
    let mut operations: Vec<Operation> = Vec::new();
    match emit_controlled_phase_component(&mut operations, view, controls, target, theta, config, LoweringFamily::Phase) {
        Ok(()) => {},
        Err(e) => return Err(e),
    }
    proof {
        assert(Seq::<OpView>::empty() + ops_view(operations@) =~= ops_view(operations@));
    }
    Ok(operations)
}

} // verus!
