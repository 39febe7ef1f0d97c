//! FSIM lowering.
//!
//! `FSIM(theta, phi)` on `a`, `b` is `RXX(theta) RYY(theta)` followed by a
//! controlled `Phase(-phi)` from `a` to `b`, written as the controlled-phase
//! pair `Phase(-phi / 2)` on both, `CX`, `Phase(phi / 2)` on `b`, `CX`. The
//! body holds no global phase, so each of its operations is lifted under
//! the controls and lowered recursively, the remaining operation budget
//! shrinking with each lifted block.
use crate::circuit::{
    gate_param_count, make_operation, ops_view, push_gate2, push_param_gate1, scaled_angle, with_params,
    Angle, CircuitParam, Instruction, OpView, Operation, Qubit, StandardGate,
};
use crate::decompose::mc_gate::decompose::{
    gate_rank, lowered, lowering_config, view_error, view_failure, LoweringConfig, McGateDecomposeConfig,
    McGateOperandView, OperandModel,
};
use crate::decompose::mc_gate::pauli_interaction::{lift_all, lift_all_operations, lift_bound, standard_gate_of};
use crate::decompose::mc_gate::phase_ops::controlled_phase_pair;
use crate::decompose::mc_gate::rx_ry::model_ok;
use crate::decompose::mc_gate::rz::over_budget;
use crate::error::{CompilerError, LoweringFamily, McGateDetail, McGateFailure, SymbolicNeed};
use vstd::prelude::*;

verus! {

/// The uncontrolled FSIM written over standard gates; `half` is `-phi / 2`
/// and `negative_half` is `phi / 2`.
pub open spec fn fsim_body(a: Qubit, b: Qubit, theta: CircuitParam, half: Angle, negative_half: Angle) -> Seq<OpView> {
    seq![
        with_params(StandardGate::RXX, seq![a, b], seq![theta]),
        with_params(StandardGate::RYY, seq![a, b], seq![theta]),
    ] + controlled_phase_pair(a, b, half, negative_half)
}

/// Result of the FSIM lowering.
pub open spec fn fsim_family(m: OperandModel, params: Seq<CircuitParam>, c: LoweringConfig) -> Result<Seq<OpView>, McGateFailure>
    decreases gate_rank(m.base), 1nat, 0nat,
{
    if m.targets.len() != 2 {
        view_failure(m, c, McGateDetail::WrongTargetCount { family: LoweringFamily::Fsim, base: m.base, expected: 2, got: m.targets.len() as usize })
    } else if m.base != StandardGate::FSIM {
        view_failure(m, c, McGateDetail::NotInFamily { family: LoweringFamily::Fsim, base: m.base })
    } else if m.controls.len() == 0 {
        match over_budget(m, c, LoweringFamily::Fsim, 1) {
            Some(f) => f,
            None => Ok(seq![with_params(StandardGate::FSIM, seq![m.targets[0], m.targets[1]], params)]),
        }
    } else {
        match params[1] {
            CircuitParam::Index(_) => view_failure(m, c, McGateDetail::SymbolicUnsupported(SymbolicNeed::FsimHalfPhi)),
            CircuitParam::Fixed(phi) => match (scaled_angle(phi, -1, 1), scaled_angle(phi, 1, 1)) {
                (Some(half), Some(negative_half)) => lift_all(
                    m,
                    c,
                    LoweringFamily::Fsim,
                    fsim_body(m.targets[0], m.targets[1], params[0], half, negative_half),
                    c.max_ops,
                ),
                _ => view_failure(m, c, McGateDetail::AngleOutOfRange),
            },
        }
    }
}

/// Builds the uncontrolled FSIM body over standard gates.
fn fsim_body_operations(a: Qubit, b: Qubit, theta: CircuitParam, half: Angle, negative_half: Angle) -> (r: Vec<Operation>)
    ensures
        ops_view(r@) == fsim_body(a, b, theta, half, negative_half),
        forall|j: int| 0 <= j < r@.len() ==> (#[trigger] ops_view(r@)[j]).instruction is Standard
            && gate_rank(standard_gate_of(ops_view(r@)[j])) < lift_bound(LoweringFamily::Fsim),
{
    let pair = [a, b];
    let thetas = [theta];
    proof {
        assert(pair@ =~= seq![a, b]);
        assert(thetas@ =~= seq![theta]);
    }
    let mut operations: Vec<Operation> = Vec::new();
    operations.push(make_operation(Instruction::Standard(StandardGate::RXX), &pair, &thetas));
    operations.push(make_operation(Instruction::Standard(StandardGate::RYY), &pair, &thetas));
    let ghost head = ops_view(operations@);
    proof {
        assert(head =~= seq![
            with_params(StandardGate::RXX, seq![a, b], seq![theta]),
            with_params(StandardGate::RYY, seq![a, b], seq![theta]),
        ]);
    }
    push_param_gate1(&mut operations, StandardGate::Phase, a, CircuitParam::Fixed(half));
    push_param_gate1(&mut operations, StandardGate::Phase, b, CircuitParam::Fixed(half));
    push_gate2(&mut operations, StandardGate::CX, a, b);
    push_param_gate1(&mut operations, StandardGate::Phase, b, CircuitParam::Fixed(negative_half));
    push_gate2(&mut operations, StandardGate::CX, a, b);
    proof {
        let all = ops_view(operations@);
        assert(all =~= fsim_body(a, b, theta, half, negative_half));
        assert forall|j: int| 0 <= j < operations@.len() implies (#[trigger] all[j]).instruction is Standard
            && gate_rank(standard_gate_of(all[j])) < lift_bound(LoweringFamily::Fsim) by {
            assert(all == fsim_body(a, b, theta, half, negative_half));
        }
    }
    operations
}

/// Lowers an FSIM MCGate.
pub fn decompose_fsim_family(view: &McGateOperandView, params: &[CircuitParam], config: &McGateDecomposeConfig) -> (r: Result<Vec<Operation>, CompilerError>)
    requires
        model_ok(view@),
        gate_rank(view@.base) == 4,
        params@.len() == gate_param_count(view@.base),
    ensures
        lowered(r, fsim_family(view@, params@, lowering_config(*config))),
    decreases gate_rank(view@.base), 1nat, 0nat,
{
    let targets = view.targets();
    let base = view.base_gate();
    if targets.len() != 2 {
        return Err(view_error(view, config, McGateDetail::WrongTargetCount {
            family: LoweringFamily::Fsim,
            base,
            expected: 2,
            got: targets.len(),
        }));
    }
    if base != StandardGate::FSIM {
        return Err(view_error(view, config, McGateDetail::NotInFamily { family: LoweringFamily::Fsim, base }));
    }
    let first = targets[0];
    let second = targets[1];
    let controls = view.all_controls();
    if controls.len() == 0 {
        if 1 > config.max_expansion_ops {
            return Err(view_error(view, config, McGateDetail::ExceedsBudget { family: LoweringFamily::Fsim, count: 1, max: config.max_expansion_ops }));
        }
        let qs = [first, second];
        proof {
            assert(qs@ =~= seq![first, second]);
        }
        let op = make_operation(Instruction::Standard(StandardGate::FSIM), &qs, params);
        let operations = vec![op];
        proof {
            assert(ops_view(operations@) =~= seq![with_params(StandardGate::FSIM, seq![first, second], params@)]);
        }
        return Ok(operations);
    }
    let phi = match params[1] {
        CircuitParam::Fixed(phi) => phi,
        CircuitParam::Index(_) => return Err(view_error(view, config, McGateDetail::SymbolicUnsupported(SymbolicNeed::FsimHalfPhi))),
    };
    let half = match phi.scaled(-1, 1) {
        Some(a) => a,
        None => return Err(view_error(view, config, McGateDetail::AngleOutOfRange)),
    };
    let negative_half = match phi.scaled(1, 1) {
        Some(a) => a,
        None => return Err(view_error(view, config, McGateDetail::AngleOutOfRange)),
    };
    let body = fsim_body_operations(first, second, params[0], half, negative_half);
    lift_all_operations(view, config, LoweringFamily::Fsim, &body)
}

} // verus!
