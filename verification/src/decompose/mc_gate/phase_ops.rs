//! Shared exact `C^k Phase(theta)` primitive of the MCGate lowerings.
//!
//! Without ancillas the conditional phase is an inclusion-exclusion sum of
//! parity phases over every nonempty subset of the controls and the target.
//! With clean ancillas the conjunction of the controls is computed into the
//! first clean qubit, a controlled phase is applied from it, and the
//! computation is undone.
use crate::circuit::{
    append_all, extend_with_copies, ops_view, plain, push_gate2, push_param_gate1, scaled_angle, with_params, Angle,
    CircuitParam, OpView, Operation, Qubit, StandardGate,
};
use crate::decompose::mc_gate::decompose::{
    lowering_config, view_error, view_failure, AncillaMode, LoweringConfig, McGateDecomposeConfig, McGateOperandView,
    OperandModel,
};
use crate::decompose::mc_gate::pauli::{count_failure, count_matches};
use crate::decompose::mcx::{
    clean_ancilla_mcx_operation_count, clean_ancilla_mcx_result, clean_count, decompose_clean_ancilla_mcx,
    emit_parity_rotation, lemma_subset_nonempty, lemma_two_pow_monotone, parity_rotation,
    small_two_pow, subset_for_mask, subset_of, two_pow, MAX_NO_ANCILLA_PHASE_POLY_QUBITS,
};
use crate::error::{CompilerError, LoweringFamily, McGateDetail, McGateFailure, PrimitiveStage};
use crate::semantics::copy_range;
use vstd::prelude::*;

verus! {

/// Operations of one controlled-phase pair.
pub const CONTROLLED_PHASE_OPERATION_COUNT: usize = 5;

/// Operation count of `C^k Phase` under the configured strategy.
pub open spec fn phase_component_cost(m: OperandModel, c: LoweringConfig, family: LoweringFamily, k: nat) -> Result<nat, McGateFailure> {
    match c.mode {
        AncillaMode::NoAncilla => if k + 1 > MAX_NO_ANCILLA_PHASE_POLY_QUBITS {
            count_failure(m, c, McGateDetail::NoAncillaPhaseTooWide { qubits: (k + 1) as usize })
        } else {
            Ok(k * two_pow(k + 1) + 1nat)
        },
        AncillaMode::CleanAncilla => if k == 0 {
            Ok(1)
        } else if k == 1 {
            Ok(CONTROLLED_PHASE_OPERATION_COUNT as nat)
        } else if c.clean.len() < k - 1 {
            count_failure(m, c, McGateDetail::CleanAncillasMissing {
                family,
                controls: k as usize,
                required: (k - 1) as usize,
                got: c.clean.len() as usize,
            })
        } else {
            Ok(2 * clean_count(k) + CONTROLLED_PHASE_OPERATION_COUNT as nat)
        },
        AncillaMode::DirtyAncilla => count_failure(m, c, McGateDetail::DirtyUnsupported(family)),
    }
}

/// A one-qubit phase with a fixed angle.
pub open spec fn phase_op(q: Qubit, angle: Angle) -> OpView {
    with_params(StandardGate::Phase, seq![q], seq![CircuitParam::Fixed(angle)])
}

/// Controlled `Phase(theta)` from `control` to `target`: half phases on
/// both, a `CX` parity correction, and the `CX` undone.
pub open spec fn controlled_phase_pair(control: Qubit, target: Qubit, half: Angle, negative_half: Angle) -> Seq<OpView> {
    seq![
        phase_op(control, half),
        phase_op(target, half),
        plain(StandardGate::CX, seq![control, target]),
        phase_op(target, negative_half),
        plain(StandardGate::CX, seq![control, target]),
    ]
}

/// The controlled-phase pair for `theta`, when `theta / 2` is representable.
pub open spec fn phase_pair(control: Qubit, target: Qubit, theta: Angle) -> Option<Seq<OpView>> {
    match (scaled_angle(theta, 1, 1), scaled_angle(theta, -1, 1)) {
        (Some(half), Some(negative_half)) => Some(controlled_phase_pair(control, target, half, negative_half)),
        _ => None,
    }
}

/// Parity phases for the subset masks `1..masks`: `pos` on odd subsets and
/// `neg` on even ones.
pub open spec fn phase_terms(qubits: Seq<Qubit>, masks: nat, pos: Angle, neg: Angle) -> Seq<OpView>
    decreases masks,
{
    if masks <= 1 {
        seq![]
    } else {
        let mask = (masks - 1) as nat;
        let subset = subset_of(qubits, mask);
        phase_terms(qubits, mask, pos, neg) + parity_rotation(
            StandardGate::Phase,
            subset,
            if subset.len() % 2 == 0 { neg } else { pos },
        )
    }
}

/// `C^k Phase(theta)` without ancillas over `controls` and `target`.
pub open spec fn no_ancilla_phase(m: OperandModel, c: LoweringConfig, controls: Seq<Qubit>, target: Qubit, theta: Angle) -> Result<Seq<OpView>, McGateFailure> {
    let qubits = controls.push(target);
    let q = qubits.len();
    if q > MAX_NO_ANCILLA_PHASE_POLY_QUBITS {
        view_failure(m, c, McGateDetail::NoAncillaPhaseTooWide { qubits: q as usize })
    } else {
        match (scaled_angle(theta, 1, (q - 1) as nat), scaled_angle(theta, -1, (q - 1) as nat)) {
            (Some(pos), Some(neg)) => Ok(phase_terms(qubits, two_pow(q), pos, neg)),
            _ => view_failure(m, c, McGateDetail::AngleOutOfRange),
        }
    }
}

/// `C^k Phase(theta)` under the configured strategy.
pub open spec fn phase_component(m: OperandModel, c: LoweringConfig, family: LoweringFamily, controls: Seq<Qubit>, target: Qubit, theta: Angle) -> Result<Seq<OpView>, McGateFailure> {
    match c.mode {
        AncillaMode::NoAncilla => no_ancilla_phase(m, c, controls, target, theta),
        AncillaMode::CleanAncilla => if controls.len() == 0 {
            Ok(seq![phase_op(target, theta)])
        } else if controls.len() == 1 {
            match phase_pair(controls[0], target, theta) {
                Some(ops) => Ok(ops),
                None => view_failure(m, c, McGateDetail::AngleOutOfRange),
            }
        } else {
            match phase_component_cost(m, c, family, controls.len()) {
                Err(f) => Err(f),
                Ok(_) => {
                    let flag = c.clean[0];
                    let work = c.clean.subrange(1, controls.len() - 1);
                    match clean_ancilla_mcx_result(controls, flag, work) {
                        Err(source) => view_failure(m, c, McGateDetail::PrimitiveFailed { family, stage: PrimitiveStage::CleanFlag, source }),
                        Ok(compute) => match phase_pair(flag, target, theta) {
                            Some(pair) => Ok(compute + pair + compute.reverse()),
                            None => view_failure(m, c, McGateDetail::AngleOutOfRange),
                        },
                    }
                },
            }
        },
        AncillaMode::DirtyAncilla => view_failure(m, c, McGateDetail::DirtyUnsupported(family)),
    }
}

/// Whether an emission appended what its specification gives.
pub open spec fn appended(r: Result<(), CompilerError>, before: Seq<OpView>, after: Seq<OpView>, expected: Result<Seq<OpView>, McGateFailure>) -> bool {
    match expected {
        Ok(ops) => r is Ok && after == before + ops,
        Err(f) => r matches Err(CompilerError::McGateFailed(g)) && g == f,
    }
}

/// Operation count of `C^k Phase` under the configured strategy.
pub fn controlled_phase_component_operation_count(view: &McGateOperandView, config: &McGateDecomposeConfig, k: usize, family: LoweringFamily) -> (r: Result<usize, CompilerError>)
    requires
        k <= 300,
    ensures
        count_matches(r, phase_component_cost(view@, lowering_config(*config), family, k as nat)),
{
    match config.ancilla_mode {
        AncillaMode::NoAncilla => {
            let q = k + 1;
            if q > MAX_NO_ANCILLA_PHASE_POLY_QUBITS {
                return Err(view_error(view, config, McGateDetail::NoAncillaPhaseTooWide { qubits: q }));
            }
            let subsets = small_two_pow(q);
            proof {
                assert(k * subsets <= 9 * 65536) by (nonlinear_arith)
                    requires
                        k <= 9,
                        subsets <= 65536;
            }
            Ok(k * subsets + 1)
        },
        AncillaMode::CleanAncilla => {
            if k == 0 {
                return Ok(1);
            }
            if k == 1 {
                return Ok(CONTROLLED_PHASE_OPERATION_COUNT);
            }
            let required = k - 1;
            if config.clean_ancillas.len() < required {
                return Err(view_error(view, config, McGateDetail::CleanAncillasMissing {
                    family,
                    controls: k,
                    required,
                    got: config.clean_ancillas.len(),
                }));
            }
            let compute = clean_ancilla_mcx_operation_count(k);
            Ok(2 * compute + CONTROLLED_PHASE_OPERATION_COUNT)
        },
        AncillaMode::DirtyAncilla => Err(view_error(view, config, McGateDetail::DirtyUnsupported(family))),
    }
}

/// Appends the controlled-phase pair for `theta`, failing when `theta / 2`
/// is not representable.
fn emit_controlled_phase_pair(operations: &mut Vec<Operation>, control: Qubit, target: Qubit, theta: Angle) -> (r: bool)
    ensures
        match phase_pair(control, target, theta) {
            Some(ops) => r && ops_view(final(operations)@) == ops_view(old(operations)@) + ops,
            None => !r && final(operations)@ == old(operations)@,
        },
{
    let half = match theta.scaled(1, 1) {
        Some(a) => a,
        None => return false,
    };
    let negative_half = match theta.scaled(-1, 1) {
        Some(a) => a,
        None => return false,
    };
    let ghost start = ops_view(operations@);
    push_param_gate1(operations, StandardGate::Phase, control, CircuitParam::Fixed(half));
    push_param_gate1(operations, StandardGate::Phase, target, CircuitParam::Fixed(half));
    push_gate2(operations, StandardGate::CX, control, target);
    push_param_gate1(operations, StandardGate::Phase, target, CircuitParam::Fixed(negative_half));
    push_gate2(operations, StandardGate::CX, control, target);
    proof {
        assert(ops_view(operations@) =~= start + controlled_phase_pair(control, target, half, negative_half));
    }
    true
}

/// Appends `C^k Phase(theta)` without ancillas.
fn emit_no_ancilla_phase(operations: &mut Vec<Operation>, view: &McGateOperandView, config: &McGateDecomposeConfig, controls: &[Qubit], target: Qubit, theta: Angle) -> (r: Result<(), CompilerError>)
    requires
        controls.len() <= 300,
    ensures
        appended(r, ops_view(old(operations)@), ops_view(final(operations)@), no_ancilla_phase(view@, lowering_config(*config), controls@, target, theta)),
{
    let mut qubits = copy_range(controls, 0, controls.len());
    qubits.push(target);
    proof {
        assert(qubits@ =~= controls@.push(target));
    }
    let q = qubits.len();
    if q > MAX_NO_ANCILLA_PHASE_POLY_QUBITS {
        return Err(view_error(view, config, McGateDetail::NoAncillaPhaseTooWide { qubits: q }));
    }
    let pos = match theta.scaled(1, (q - 1) as u32) {
        Some(a) => a,
        None => return Err(view_error(view, config, McGateDetail::AngleOutOfRange)),
    };
    let neg = match theta.scaled(-1, (q - 1) as u32) {
        Some(a) => a,
        None => return Err(view_error(view, config, McGateDetail::AngleOutOfRange)),
    };
    let subset_count = small_two_pow(q);
    let ghost start = ops_view(operations@);
    proof {
        lemma_two_pow_monotone(0, q as nat);
        assert(phase_terms(qubits@, 1, pos, neg) =~= Seq::<OpView>::empty());
        assert(ops_view(operations@) =~= start + phase_terms(qubits@, 1, pos, neg));
    }
    let mut mask: usize = 1;
    while mask < subset_count
        invariant
            1 <= mask <= subset_count,
            subset_count == two_pow(q as nat),
            q == qubits@.len(),
            1 <= q <= MAX_NO_ANCILLA_PHASE_POLY_QUBITS,
            ops_view(operations@) == start + phase_terms(qubits@, mask as nat, pos, neg),
        decreases subset_count - mask,
    {
        let subset = subset_for_mask(&qubits, mask);
        proof {
            lemma_subset_nonempty(qubits@, mask as nat);
        }
        let angle = if subset.len() % 2 == 0 { neg } else { pos };
        emit_parity_rotation(operations, StandardGate::Phase, &subset, angle);
        proof {
            assert(phase_terms(qubits@, (mask + 1) as nat, pos, neg) == phase_terms(qubits@, mask as nat, pos, neg)
                + parity_rotation(StandardGate::Phase, subset@, angle));
            assert(ops_view(operations@) =~= start + phase_terms(qubits@, (mask + 1) as nat, pos, neg));
        }
        mask = mask + 1;
    }
    Ok(())
}

/// Appends `C^k Phase(theta)` on `target` controlled by `controls`, under the
/// configured strategy.
pub fn emit_controlled_phase_component(
    operations: &mut Vec<Operation>,
    view: &McGateOperandView,
    controls: &[Qubit],
    target: Qubit,
    theta: Angle,
    config: &McGateDecomposeConfig,
    family: LoweringFamily,
) -> (r: Result<(), CompilerError>)
    requires
        controls.len() <= 300,
    ensures
        appended(r, ops_view(old(operations)@), ops_view(final(operations)@), phase_component(view@, lowering_config(*config), family, controls@, target, theta)),
{
    match config.ancilla_mode {
        AncillaMode::NoAncilla => emit_no_ancilla_phase(operations, view, config, controls, target, theta),
        AncillaMode::CleanAncilla => {
            if controls.len() == 0 {
                let ghost start = ops_view(operations@);
                push_param_gate1(operations, StandardGate::Phase, target, CircuitParam::Fixed(theta));
                proof {
                    assert(ops_view(operations@) =~= start + seq![phase_op(target, theta)]);
                }
                return Ok(());
            }
            if controls.len() == 1 {
                if emit_controlled_phase_pair(operations, controls[0], target, theta) {
                    return Ok(());
                }
                return Err(view_error(view, config, McGateDetail::AngleOutOfRange));
            }
            match controlled_phase_component_operation_count(view, config, controls.len(), family) {
                Ok(_) => {},
                Err(e) => return Err(e),
            }
            let required = controls.len() - 1;
            let flag = config.clean_ancillas[0];
            let work = copy_range(config.clean_ancillas.as_slice(), 1, required);
            let compute = match decompose_clean_ancilla_mcx(controls, flag, work.as_slice()) {
                Ok(ops) => ops,
                Err(source) => return Err(view_error(view, config, McGateDetail::PrimitiveFailed {
                    family,
                    stage: PrimitiveStage::CleanFlag,
                    source,
                })),
            };
            let ghost start = ops_view(operations@);
            let ghost body = ops_view(compute@);
            let mut staged: Vec<Operation> = Vec::new();
            let compute_len = compute.len();
            extend_with_copies(&mut staged, &compute, 0, compute_len);
            proof {
                assert(compute@.subrange(0, compute_len as int) =~= compute@);
            }
            if !emit_controlled_phase_pair(&mut staged, flag, target, theta) {
                return Err(view_error(view, config, McGateDetail::AngleOutOfRange));
            }
            let ghost staged_view = ops_view(staged@);
            let mut j: usize = compute_len;
            while j > 0
                invariant
                    j <= compute_len,
                    compute_len == compute@.len(),
                    body == ops_view(compute@),
                    ops_view(staged@) == staged_view + body.subrange(j as int, compute_len as int).reverse(),
                decreases j,
            {
                let op = crate::circuit::copy_operation(&compute[j - 1]);
                let ghost before = ops_view(staged@);
                staged.push(op);
                proof {
                    assert(ops_view(staged@) =~= before.push(body[j - 1]));
                    assert(body.subrange(j - 1, compute_len as int).reverse() =~= body.subrange(j as int, compute_len as int).reverse().push(body[j - 1]));
                }
                j = j - 1;
            }
            append_all(operations, staged);
            proof {
                assert(body.subrange(0, compute_len as int) =~= body);
                assert(ops_view(operations@) =~= start + (staged_view + body.reverse()));
            }
            Ok(())
        },
        AncillaMode::DirtyAncilla => Err(view_error(view, config, McGateDetail::DirtyUnsupported(family))),
    }
}

} // verus!
