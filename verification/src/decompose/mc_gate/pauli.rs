//! Pauli-family lowering (`X`, `Y`, `Z`, `CX`, `CY`, `CZ`, `CCX`), and the
//! MCX helpers it shares with the SWAP family.
//!
//! `X`, `CX`, and `CCX` are MCX instances once added and inherent controls
//! are merged. `Y`/`CY` become `SDG; MCX; S` on the target and `Z`/`CZ`
//! become `H; MCX; H`. The MCX body comes from the primitive that the
//! configured ancilla strategy selects.
use crate::circuit::{ops_view, plain, push_gate1, append_all, OpView, Operation, Qubit, StandardGate};
use crate::decompose::mc_gate::decompose::{
    lowering_config, view_context, view_error, view_failure, AncillaMode, LoweringConfig, McGateDecomposeConfig,
    McGateOperandView, OperandModel,
};
use crate::decompose::mcx::{
    clean_ancilla_mcx_operation_count, clean_ancilla_mcx_required_ancillas, clean_ancilla_mcx_result,
    clean_count, clean_required, decompose_clean_ancilla_mcx, decompose_dirty_ancilla_mcx,
    decompose_no_ancilla_mcx, dirty_ancilla_mcx_operation_count, dirty_ancilla_mcx_result, dirty_count,
    lemma_mcx_counts_small, no_ancilla_count, no_ancilla_mcx_operation_count, no_ancilla_mcx_result, MAX_DIRTY_RECURSIVE_CONTROLS,
    MAX_NO_ANCILLA_PHASE_POLY_QUBITS,
};
use crate::error::{CompilerError, LoweringFamily, McGateDetail, McGateFailure, McxFailure, PrimitiveStage};
use vstd::prelude::*;

verus! {

/// A failing count with the view's context.
pub open spec fn count_failure(m: OperandModel, c: LoweringConfig, detail: McGateDetail) -> Result<nat, McGateFailure> {
    Err(McGateFailure { detail, context: view_context(m, c) })
}

/// Whether an operation count matches its specification.
pub open spec fn count_matches(r: Result<usize, CompilerError>, expected: Result<nat, McGateFailure>) -> bool {
    match expected {
        Ok(k) => r matches Ok(v) && v == k,
        Err(f) => r matches Err(CompilerError::McGateFailed(g)) && g == f,
    }
}

/// Operation count of an MCX with `n` controls under the configured strategy.
pub open spec fn mcx_cost(m: OperandModel, c: LoweringConfig, family: LoweringFamily, n: nat) -> Result<nat, McGateFailure> {
    match c.mode {
        AncillaMode::NoAncilla => if n > 2 && n + 1 > MAX_NO_ANCILLA_PHASE_POLY_QUBITS {
            count_failure(m, c, McGateDetail::PrimitiveFailed {
                family,
                stage: PrimitiveStage::NoAncillaCost,
                source: McxFailure::NoAncillaTooWide { qubits: (n + 1) as usize },
            })
        } else if n <= 2 {
            Ok(1)
        } else {
            Ok(no_ancilla_count(n))
        },
        AncillaMode::CleanAncilla => if c.clean.len() < clean_required(n) {
            count_failure(m, c, McGateDetail::CleanAncillasMissing {
                family,
                controls: n as usize,
                required: clean_required(n) as usize,
                got: c.clean.len() as usize,
            })
        } else {
            Ok(clean_count(n))
        },
        AncillaMode::DirtyAncilla => if n <= 2 {
            Ok(1)
        } else if c.dirty.len() == 0 {
            count_failure(m, c, McGateDetail::RequiresDirtyAncilla { family, controls: n as usize })
        } else if n - 2 > c.max_depth {
            count_failure(m, c, McGateDetail::RecursionTooDeep { family, depth: (n - 2) as usize, max: c.max_depth })
        } else if n > MAX_DIRTY_RECURSIVE_CONTROLS {
            count_failure(m, c, McGateDetail::PrimitiveFailed {
                family,
                stage: PrimitiveStage::DirtyCost,
                source: McxFailure::DirtyRecursionTooWide { controls: n as usize },
            })
        } else {
            Ok(dirty_count(n))
        },
    }
}

/// The MCX primitive the configured strategy selects.
pub open spec fn mcx_primitive(c: LoweringConfig, controls: Seq<Qubit>, target: Qubit) -> Result<Seq<OpView>, McxFailure> {
    match c.mode {
        AncillaMode::NoAncilla => no_ancilla_mcx_result(controls, target),
        AncillaMode::CleanAncilla => clean_ancilla_mcx_result(controls, target, c.clean),
        AncillaMode::DirtyAncilla => if controls.len() <= 2 {
            no_ancilla_mcx_result(controls, target)
        } else {
            dirty_ancilla_mcx_result(controls, target, c.dirty[0])
        },
    }
}

/// MCX lowering under the configured strategy, with primitive failures wrapped.
pub open spec fn mcx_lowering(m: OperandModel, c: LoweringConfig, family: LoweringFamily, controls: Seq<Qubit>, target: Qubit) -> Result<Seq<OpView>, McGateFailure> {
    if c.mode == AncillaMode::DirtyAncilla && controls.len() > 2 && c.dirty.len() == 0 {
        view_failure(m, c, McGateDetail::RequiresDirtyAncilla { family, controls: controls.len() as usize })
    } else {
        match mcx_primitive(c, controls, target) {
            Ok(ops) => Ok(ops),
            Err(source) => view_failure(m, c, McGateDetail::PrimitiveFailed { family, stage: PrimitiveStage::Lowering, source }),
        }
    }
}

/// Whether a base gate is lowered with a target basis change.
pub open spec fn pauli_basis_count(base: StandardGate) -> nat {
    match base {
        StandardGate::Y | StandardGate::CY | StandardGate::Z | StandardGate::CZ => 2,
        _ => 0,
    }
}

/// Result of the Pauli-family lowering.
pub open spec fn pauli_family(m: OperandModel, c: LoweringConfig) -> Result<Seq<OpView>, McGateFailure> {
    if m.targets.len() != 1 {
        view_failure(m, c, McGateDetail::WrongTargetCount {
            family: LoweringFamily::Pauli,
            base: m.base,
            expected: 1,
            got: m.targets.len() as usize,
        })
    } else {
        let target = m.targets[0];
        match mcx_cost(m, c, LoweringFamily::Pauli, m.controls.len()) {
            Err(f) => Err(f),
            Ok(cost) => {
                let count = cost + pauli_basis_count(m.base);
                if count > usize::MAX {
                    view_failure(m, c, McGateDetail::ExpansionOverflow(LoweringFamily::Pauli))
                } else if count > c.max_ops {
                    view_failure(m, c, McGateDetail::ExceedsBudget { family: LoweringFamily::Pauli, count: count as usize, max: c.max_ops })
                } else {
                    match mcx_lowering(m, c, LoweringFamily::Pauli, m.controls, target) {
                        Err(f) => Err(f),
                        Ok(body) => match m.base {
                            StandardGate::X | StandardGate::CX | StandardGate::CCX => Ok(body),
                            StandardGate::Y | StandardGate::CY => Ok(
                                seq![plain(StandardGate::SDG, seq![target])] + body + seq![plain(StandardGate::S, seq![target])],
                            ),
                            StandardGate::Z | StandardGate::CZ => Ok(
                                seq![plain(StandardGate::H, seq![target])] + body + seq![plain(StandardGate::H, seq![target])],
                            ),
                            _ => view_failure(m, c, McGateDetail::NotInFamily { family: LoweringFamily::Pauli, base: m.base }),
                        },
                    }
                }
            },
        }
    }
}

/// Operation count of an MCX with `n` controls under the configured strategy.
pub fn estimate_mcx_cost(view: &McGateOperandView, config: &McGateDecomposeConfig, family: LoweringFamily, n: usize) -> (r: Result<usize, CompilerError>)
    requires
        n <= 300,
    ensures
        count_matches(r, mcx_cost(view@, lowering_config(*config), family, n as nat)),
{
    proof {
        lemma_mcx_counts_small(n as nat);
    }
    match config.ancilla_mode {
        AncillaMode::NoAncilla => match no_ancilla_mcx_operation_count(n) {
            Ok(count) => Ok(count),
            Err(source) => Err(view_error(view, config, McGateDetail::PrimitiveFailed {
                family,
                stage: PrimitiveStage::NoAncillaCost,
                source,
            })),
        },
        AncillaMode::CleanAncilla => {
            let required = clean_ancilla_mcx_required_ancillas(n);
            if config.clean_ancillas.len() < required {
                return Err(view_error(view, config, McGateDetail::CleanAncillasMissing {
                    family,
                    controls: n,
                    required,
                    got: config.clean_ancillas.len(),
                }));
            }
            Ok(clean_ancilla_mcx_operation_count(n))
        },
        AncillaMode::DirtyAncilla => {
            if n <= 2 {
                return match no_ancilla_mcx_operation_count(n) {
                    Ok(count) => Ok(count),
                    Err(source) => Err(view_error(view, config, McGateDetail::PrimitiveFailed {
                        family,
                        stage: PrimitiveStage::SmallDirtyCost,
                        source,
                    })),
                };
            }
            if config.dirty_ancillas.len() == 0 {
                return Err(view_error(view, config, McGateDetail::RequiresDirtyAncilla { family, controls: n }));
            }
            let depth = n - 2;
            if depth > config.max_recursion_depth {
                return Err(view_error(view, config, McGateDetail::RecursionTooDeep {
                    family,
                    depth,
                    max: config.max_recursion_depth,
                }));
            }
            match dirty_ancilla_mcx_operation_count(n) {
                Ok(count) => Ok(count),
                Err(source) => Err(view_error(view, config, McGateDetail::PrimitiveFailed {
                    family,
                    stage: PrimitiveStage::DirtyCost,
                    source,
                })),
            }
        },
    }
}

/// Lowers an MCX with the primitive of the configured strategy.
pub fn lower_mcx(view: &McGateOperandView, config: &McGateDecomposeConfig, family: LoweringFamily, controls: &[Qubit], target: Qubit) -> (r: Result<Vec<Operation>, CompilerError>)
    requires
        controls.len() <= 300,
    ensures
        crate::decompose::mc_gate::decompose::lowered(r, mcx_lowering(view@, lowering_config(*config), family, controls@, target)),
{
    let result = match config.ancilla_mode {
        AncillaMode::NoAncilla => decompose_no_ancilla_mcx(controls, target),
        AncillaMode::CleanAncilla => decompose_clean_ancilla_mcx(controls, target, config.clean_ancillas.as_slice()),
        AncillaMode::DirtyAncilla => {
            if controls.len() <= 2 {
                decompose_no_ancilla_mcx(controls, target)
            } else {
                if config.dirty_ancillas.len() == 0 {
                    return Err(view_error(view, config, McGateDetail::RequiresDirtyAncilla {
                        family,
                        controls: controls.len(),
                    }));
                }
                decompose_dirty_ancilla_mcx(controls, target, config.dirty_ancillas[0])
            }
        },
    };
    match result {
        Ok(ops) => Ok(ops),
        Err(source) => Err(view_error(view, config, McGateDetail::PrimitiveFailed {
            family,
            stage: PrimitiveStage::Lowering,
            source,
        })),
    }
}

/// Lowers a Pauli-family MCGate through the shared MCX primitives.
pub fn decompose_pauli_family(view: &McGateOperandView, config: &McGateDecomposeConfig) -> (r: Result<Vec<Operation>, CompilerError>)
    requires
        view@.controls.len() <= 257,
    ensures
        crate::decompose::mc_gate::decompose::lowered(r, pauli_family(view@, lowering_config(*config))),
{
    let targets = view.targets();
    if targets.len() != 1 {
        return Err(view_error(view, config, McGateDetail::WrongTargetCount {
            family: LoweringFamily::Pauli,
            base: view.base_gate(),
            expected: 1,
            got: targets.len(),
        }));
    }
    let target = targets[0];
    let base = view.base_gate();
    let basis: usize = match base {
        StandardGate::Y | StandardGate::CY | StandardGate::Z | StandardGate::CZ => 2,
        _ => 0,
    };
    let cost = match estimate_mcx_cost(view, config, LoweringFamily::Pauli, view.total_control_count()) {
        Ok(cost) => cost,
        Err(e) => return Err(e),
    };
    let count = match cost.checked_add(basis) {
        Some(count) => count,
        None => return Err(view_error(view, config, McGateDetail::ExpansionOverflow(LoweringFamily::Pauli))),
    };
    if count > config.max_expansion_ops {
        return Err(view_error(view, config, McGateDetail::ExceedsBudget {
            family: LoweringFamily::Pauli,
            count,
            max: config.max_expansion_ops,
        }));
    }
    let body = match lower_mcx(view, config, LoweringFamily::Pauli, view.all_controls(), target) {
        Ok(ops) => ops,
        Err(e) => return Err(e),
    };
    let ghost body_view = ops_view(body@);
    match base {
        StandardGate::X | StandardGate::CX | StandardGate::CCX => Ok(body),
        StandardGate::Y | StandardGate::CY => {
            let mut operations: Vec<Operation> = Vec::new();
            push_gate1(&mut operations, StandardGate::SDG, target);
            append_all(&mut operations, body);
            push_gate1(&mut operations, StandardGate::S, target);
            proof {
                assert(ops_view(operations@) =~= seq![plain(StandardGate::SDG, seq![target])] + body_view + seq![
                    plain(StandardGate::S, seq![target]),
                ]);
            }
            Ok(operations)
        },
        StandardGate::Z | StandardGate::CZ => {
            let mut operations: Vec<Operation> = Vec::new();
            push_gate1(&mut operations, StandardGate::H, target);
            append_all(&mut operations, body);
            push_gate1(&mut operations, StandardGate::H, target);
            proof {
                assert(ops_view(operations@) =~= seq![plain(StandardGate::H, seq![target])] + body_view + seq![
                    plain(StandardGate::H, seq![target]),
                ]);
            }
            Ok(operations)
        },
        _ => Err(view_error(view, config, McGateDetail::NotInFamily { family: LoweringFamily::Pauli, base })),
    }
}

} // verus!
