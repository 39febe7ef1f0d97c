//! The canonicalizer transform and its fixpoint loop.
//!
//! Each round runs the parameter phase and then the structural pass; rounds
//! repeat until a round changes nothing or the round limit is reached.
//! Symbolic parameter expressions are carried as opaque table entries, so
//! the parameter phase leaves a circuit as it is.
use crate::canonicalize::config::{CanonicalizeConfig, CanonicalizeSettings};
use crate::canonicalize::linear::{canonicalize_operations, same_operations, structural_pass};
use crate::circuit::{circuit_view, copy_circuit, ops_view, Circuit, CircuitView};
use crate::compiler::{
    CompileDiagnostic, CompilerContext, ContextChangeSet, DiagnosticCode, DiagnosticSeverity, TransformDescriptor,
    TransformNote, TransformOutcome,
};
use crate::error::{CompilerError, ContextIssue, InputIssue};
use vstd::prelude::*;

verus! {

/// Stable identifiers of the built-in canonicalization rules.
#[derive(Clone, Copy, Debug, PartialEq, Eq, Hash, Structural)]
pub enum CanonicalRuleId {
    NormalizeParameters,
    CanonicalizeInstructionForm,
    MergeAdjacentBarriers,
    DropTrivialNoOps,
}

/// Result of one canonicalization round.
#[derive(Debug)]
pub struct SingleRoundResult {
    pub circuit: Circuit,
    pub parameter_phase_changed: bool,
    pub structural_changed: bool,
}

/// Result of the fixpoint loop.
#[derive(Debug)]
pub struct FixpointResult {
    pub circuit: Circuit,
    pub any_parameter_phase_changed: bool,
    pub any_structural_changed: bool,
    pub rounds_executed: u8,
    pub stabilized: bool,
}

/// Whether two circuits differ in qubits, parameters, global phase, or operations.
pub fn parameter_phase_changed(before: &Circuit, after: &Circuit) -> (r: bool)
    ensures
        r == (circuit_view(*before) != circuit_view(*after)),
{
    if before.num_qubits != after.num_qubits {
        return true;
    }
    if before.parameters.len() != after.parameters.len() {
        proof {
            assert(circuit_view(*before).parameters.len() != circuit_view(*after).parameters.len());
        }
        return true;
    }
    let mut i: usize = 0;
    while i < before.parameters.len()
        invariant
            i <= before.parameters@.len(),
            before.parameters@.len() == after.parameters@.len(),
            forall|k: int| 0 <= k < i ==> before.parameters@[k]@ == after.parameters@[k]@,
        decreases before.parameters@.len() - i,
    {
        if before.parameters[i] != after.parameters[i] {
            proof {
                assert(circuit_view(*before).parameters[i as int] != circuit_view(*after).parameters[i as int]);
            }
            return true;
        }
        i = i + 1;
    }
    proof {
        assert(circuit_view(*before).parameters =~= circuit_view(*after).parameters);
    }
    if before.global_phase != after.global_phase {
        return true;
    }
    !same_operations(&before.operations, &after.operations)
}

/// One round: the parameter phase (which leaves the circuit as it is) and
/// the structural pass, when any structural rule is enabled.
pub open spec fn round_result(c: CircuitView, cfg: CanonicalizeSettings) -> Result<(CircuitView, bool, bool), CompilerError> {
    if cfg.canonicalize_instruction_form || cfg.merge_adjacent_barriers || cfg.drop_trivial_noops {
        match structural_pass(c.ops, c.parameters.len(), cfg) {
            Err(i) => Err(CompilerError::InvalidInput(InputIssue::MissingParameterIndex(i))),
            Ok(out) => if out == c.ops {
                Ok((c, false, false))
            } else {
                Ok((CircuitView { ops: out, ..c }, false, true))
            },
        }
    } else {
        Ok((c, false, false))
    }
}

/// Whether a round result matches its specification.
pub open spec fn round_matches(r: Result<SingleRoundResult, CompilerError>, c: CircuitView, cfg: CanonicalizeSettings) -> bool {
    match round_result(c, cfg) {
        Err(e) => r == Err::<SingleRoundResult, CompilerError>(e),
        Ok((v, p, s)) => r matches Ok(res) && circuit_view(res.circuit) == v && res.parameter_phase_changed == p
            && res.structural_changed == s,
    }
}

/// Runs one canonicalization round.
pub fn run_single_round(circuit: &Circuit, config: &CanonicalizeConfig) -> (r: Result<SingleRoundResult, CompilerError>)
    ensures
        round_matches(r, circuit_view(*circuit), config@),
{
    let canonical = copy_circuit(circuit);
    let parameter_changed = parameter_phase_changed(circuit, &canonical);
    if config.canonicalizes_instruction_form() || config.merges_adjacent_barriers() || config.drops_trivial_noops() {
        let out = match canonicalize_operations(&canonical.operations, canonical.parameters.len(), config) {
            Ok(out) => out,
            Err(e) => {
                proof {
                    assert(circuit_view(canonical).parameters.len() == canonical.parameters@.len());
                }
                return Err(e);
            },
        };
        proof {
            assert(circuit_view(canonical).parameters.len() == canonical.parameters@.len());
        }
        if same_operations(&out, &canonical.operations) {
            return Ok(SingleRoundResult { circuit: canonical, parameter_phase_changed: parameter_changed, structural_changed: false });
        }
        let rebuilt = Circuit {
            num_qubits: canonical.num_qubits,
            parameters: canonical.parameters,
            operations: out,
            global_phase: canonical.global_phase,
        };
        proof {
            assert(circuit_view(rebuilt) =~= (CircuitView { ops: ops_view(rebuilt.operations@), ..circuit_view(*circuit) }));
        }
        Ok(SingleRoundResult { circuit: rebuilt, parameter_phase_changed: parameter_changed, structural_changed: true })
    } else {
        Ok(SingleRoundResult { circuit: canonical, parameter_phase_changed: parameter_changed, structural_changed: false })
    }
}

/// Whether round `i` of a trace reported a change.
pub open spec fn round_changed(outputs: Seq<SingleRoundResult>, i: int) -> bool {
    outputs[i].parameter_phase_changed || outputs[i].structural_changed
}

/// Whether some of the first `k` rounds changed parameters.
pub open spec fn any_parameter_change(outputs: Seq<SingleRoundResult>, k: int) -> bool {
    exists|i: int| 0 <= i < k && outputs[i].parameter_phase_changed
}

/// Whether some of the first `k` rounds changed structure.
pub open spec fn any_structural_change(outputs: Seq<SingleRoundResult>, k: int) -> bool {
    exists|i: int| 0 <= i < k && outputs[i].structural_changed
}

/// A chain of successful rounds: the first starts from a circuit with the
/// initial content, each later one from the previous round's circuit, each
/// step call ensured its result, and every round but the last reported a change.
pub open spec fn round_chain<F: Fn(&Circuit, &CanonicalizeConfig) -> Result<SingleRoundResult, CompilerError>>(
    step: F,
    config: CanonicalizeConfig,
    initial: CircuitView,
    inputs: Seq<Circuit>,
    outputs: Seq<SingleRoundResult>,
) -> bool {
    &&& inputs.len() == outputs.len()
    &&& inputs.len() > 0 ==> circuit_view(inputs[0]) == initial
    &&& forall|i: int| 0 <= i < inputs.len() ==> call_ensures(step, (&inputs[i], &config), Ok::<SingleRoundResult, CompilerError>(#[trigger] outputs[i]))
    &&& forall|i: int| 0 <= i < inputs.len() - 1 ==> inputs[i + 1] == (#[trigger] outputs[i]).circuit
    &&& forall|i: int| 0 <= i < inputs.len() - 1 ==> round_changed(outputs, i)
}

/// Runs rounds of `step` until a round reports no change or the round limit
/// is reached.
pub fn run_to_fixpoint_with<F: Fn(&Circuit, &CanonicalizeConfig) -> Result<SingleRoundResult, CompilerError>>(
    initial: &Circuit,
    config: &CanonicalizeConfig,
    step: F,
) -> (r: Result<FixpointResult, CompilerError>)
    requires
        forall|c: &Circuit| call_requires(step, (c, config)),
    ensures
        config@.round_limit == 0 ==> r == Err::<FixpointResult, CompilerError>(CompilerError::InvalidContextState(ContextIssue::ZeroRoundLimit)),
        config@.round_limit > 0 ==> match r {
            Err(e) => exists|inputs: Seq<Circuit>, outputs: Seq<SingleRoundResult>, last: Circuit| {
                &&& round_chain(step, *config, circuit_view(*initial), inputs, outputs)
                &&& outputs.len() < config@.round_limit
                &&& (outputs.len() == 0 ==> circuit_view(last) == circuit_view(*initial))
                &&& (outputs.len() > 0 ==> last == outputs.last().circuit && round_changed(outputs, outputs.len() - 1))
                &&& call_ensures(step, (&last, config), Err::<SingleRoundResult, CompilerError>(e))
            },
            Ok(res) => exists|inputs: Seq<Circuit>, outputs: Seq<SingleRoundResult>| {
                &&& round_chain(step, *config, circuit_view(*initial), inputs, outputs)
                &&& outputs.len() == res.rounds_executed
                &&& 1 <= res.rounds_executed <= config@.round_limit
                &&& res.stabilized == !round_changed(outputs, outputs.len() - 1)
                &&& (!res.stabilized ==> res.rounds_executed == config@.round_limit)
                &&& (res.stabilized ==> res.circuit == inputs.last())
                &&& (!res.stabilized ==> res.circuit == outputs.last().circuit)
                &&& res.any_parameter_phase_changed == any_parameter_change(outputs, outputs.len() as int)
                &&& res.any_structural_changed == any_structural_change(outputs, outputs.len() as int)
            },
        },
{
    let limit = config.round_limit();
    if limit == 0 {
        return Err(CompilerError::InvalidContextState(ContextIssue::ZeroRoundLimit));
    }
    let mut current = copy_circuit(initial);
    let ghost mut inputs: Seq<Circuit> = seq![];
    let ghost mut outputs: Seq<SingleRoundResult> = seq![];
    let mut any_parameter = false;
    let mut any_structural = false;
    let mut round: u8 = 0;
    while round < limit
        invariant
            round <= limit,
            limit == config@.round_limit,
            limit > 0,
            inputs.len() == round,
            round_chain(step, *config, circuit_view(*initial), inputs, outputs),
            round > 0 ==> round_changed(outputs, round - 1),
            round == 0 ==> circuit_view(current) == circuit_view(*initial),
            round > 0 ==> current == outputs.last().circuit,
            any_parameter == any_parameter_change(outputs, round as int),
            any_structural == any_structural_change(outputs, round as int),
            forall|c: &Circuit| call_requires(step, (c, config)),
        decreases limit - round,
    {
        let ghost input = current;
        let result = step(&current, config);
        let res = match result {
            Err(e) => {
                proof {
                    assert(round_chain(step, *config, circuit_view(*initial), inputs, outputs));
                }
                return Err(e);
            },
            Ok(res) => res,
        };
        proof {
            let old_outputs = outputs;
            inputs = inputs.push(input);
            outputs = outputs.push(res);
            assert forall|i: int| 0 <= i < inputs.len() implies call_ensures(step, (&inputs[i], config), Ok::<SingleRoundResult, CompilerError>(#[trigger] outputs[i])) by {
                if i < inputs.len() - 1 {
                    assert(outputs[i] == old_outputs[i]);
                }
            }
            assert forall|i: int| 0 <= i < inputs.len() - 1 implies inputs[i + 1] == (#[trigger] outputs[i]).circuit by {
                assert(outputs[i] == old_outputs[i]);
            }
            assert forall|i: int| 0 <= i < inputs.len() - 1 implies round_changed(outputs, i) by {
                assert(outputs[i] == old_outputs[i]);
                assert(round_changed(old_outputs, i));
            }
            assert(any_parameter_change(outputs, round as int + 1) == (any_parameter || res.parameter_phase_changed)) by {
                if any_parameter {
                    let w = choose|i: int| 0 <= i < round && old_outputs[i].parameter_phase_changed;
                    assert(outputs[w] == old_outputs[w]);
                }
                if any_parameter_change(outputs, round as int + 1) {
                    let w = choose|i: int| 0 <= i < round + 1 && outputs[i].parameter_phase_changed;
                    if w < round {
                        assert(outputs[w] == old_outputs[w]);
                    }
                }
            }
            assert(any_structural_change(outputs, round as int + 1) == (any_structural || res.structural_changed)) by {
                if any_structural {
                    let w = choose|i: int| 0 <= i < round && old_outputs[i].structural_changed;
                    assert(outputs[w] == old_outputs[w]);
                }
                if any_structural_change(outputs, round as int + 1) {
                    let w = choose|i: int| 0 <= i < round + 1 && outputs[i].structural_changed;
                    if w < round {
                        assert(outputs[w] == old_outputs[w]);
                    }
                }
            }
        }
        round = round + 1;
        any_parameter = any_parameter || res.parameter_phase_changed;
        any_structural = any_structural || res.structural_changed;
        if !res.parameter_phase_changed && !res.structural_changed {
            proof {
                assert(inputs.last() == current);
                assert(outputs.last() == res);
                assert(!round_changed(outputs, outputs.len() - 1));
                assert(round_chain(step, *config, circuit_view(*initial), inputs, outputs));
            }
            return Ok(FixpointResult {
                circuit: current,
                any_parameter_phase_changed: any_parameter,
                any_structural_changed: any_structural,
                rounds_executed: round,
                stabilized: true,
            });
        }
        current = res.circuit;
    }
    Ok(FixpointResult {
        circuit: current,
        any_parameter_phase_changed: any_parameter,
        any_structural_changed: any_structural,
        rounds_executed: round,
        stabilized: false,
    })
}

/// Abstract content of a fixpoint result.
pub struct FixpointView {
    pub circuit: CircuitView,
    pub any_parameter: bool,
    pub any_structural: bool,
    pub rounds: nat,
    pub stabilized: bool,
}

/// The fixpoint loop from round `round` on, with the changes seen so far.
pub open spec fn fixpoint_from(c: CircuitView, cfg: CanonicalizeSettings, round: nat, seen_parameter: bool, seen_structural: bool) -> Result<FixpointView, CompilerError>
    decreases cfg.round_limit - round,
{
    if round >= cfg.round_limit {
        Ok(FixpointView { circuit: c, any_parameter: seen_parameter, any_structural: seen_structural, rounds: round, stabilized: false })
    } else {
        match round_result(c, cfg) {
            Err(e) => Err(e),
            Ok((next, p, s)) => if !p && !s {
                Ok(FixpointView { circuit: c, any_parameter: seen_parameter, any_structural: seen_structural, rounds: round + 1, stabilized: true })
            } else {
                fixpoint_from(next, cfg, round + 1, seen_parameter || p, seen_structural || s)
            },
        }
    }
}


/// The outcome a canonicalization reports for a fixpoint, and the circuit
/// it leaves: unchanged and silent when no round changed anything, else the
/// fixpoint circuit with its notes and diagnostics.
pub open spec fn fixpoint_outcome(f: FixpointView, outcome: TransformOutcome, before: Circuit, after: Circuit) -> bool {
    if !f.any_parameter && !f.any_structural {
        &&& !outcome.changed
        &&& outcome.notes@.len() == 0
        &&& outcome.diagnostics@.len() == 0
        &&& after == before
    } else {
        &&& outcome.changed
        &&& outcome.changes == (ContextChangeSet {
            circuit_changed: true,
            cfg_structure_changed: f.any_structural,
            parameter_table_changed: f.any_parameter,
        })
        &&& outcome.notes@ == outcome_notes(f.any_parameter, f.any_structural, f.stabilized, f.rounds as u8)
        &&& outcome.diagnostics@ == outcome_diagnostics(f.stabilized, f.rounds as u8)
        &&& circuit_view(after) == f.circuit
    }
}

/// The whole canonicalization loop.
pub open spec fn canonicalize_fixpoint(c: CircuitView, cfg: CanonicalizeSettings) -> Result<FixpointView, CompilerError> {
    if cfg.round_limit == 0 {
        Err(CompilerError::InvalidContextState(ContextIssue::ZeroRoundLimit))
    } else {
        fixpoint_from(c, cfg, 0, false, false)
    }
}

/// A loop that stabilized returns a circuit on which one more round
/// changes nothing.
proof fn lemma_stabilized_round(c: CircuitView, cfg: CanonicalizeSettings, round: nat, seen_parameter: bool, seen_structural: bool)
    requires
        fixpoint_from(c, cfg, round, seen_parameter, seen_structural) matches Ok(f) && f.stabilized,
    ensures
        round_result(fixpoint_from(c, cfg, round, seen_parameter, seen_structural)->Ok_0.circuit, cfg) matches Ok((next, p, s))
            && !p && !s,
    decreases cfg.round_limit - round,
{
    if round < cfg.round_limit {
        match round_result(c, cfg) {
            Err(_) => {},
            Ok((next, p, s)) => {
                if p || s {
                    lemma_stabilized_round(next, cfg, round + 1, seen_parameter || p, seen_structural || s);
                }
            },
        }
    }
}

/// Canonicalization is idempotent: when the loop stabilized, canonicalizing
/// its result again stops after one round, reports no change, and returns
/// the same circuit.
pub proof fn lemma_canonicalize_idempotent(c: CircuitView, cfg: CanonicalizeSettings)
    requires
        canonicalize_fixpoint(c, cfg) matches Ok(f) && f.stabilized,
    ensures
        canonicalize_fixpoint(canonicalize_fixpoint(c, cfg)->Ok_0.circuit, cfg) == Ok::<FixpointView, CompilerError>(
            FixpointView {
                circuit: canonicalize_fixpoint(c, cfg)->Ok_0.circuit,
                any_parameter: false,
                any_structural: false,
                rounds: 1,
                stabilized: true,
            },
        ),
{
    lemma_stabilized_round(c, cfg, 0, false, false);
}

/// A round trace of the deterministic round function determines the result
/// of the fixpoint loop.
proof fn lemma_trace_fixpoint<F: Fn(&Circuit, &CanonicalizeConfig) -> Result<SingleRoundResult, CompilerError>>(
    step: F,
    config: CanonicalizeConfig,
    initial: CircuitView,
    inputs: Seq<Circuit>,
    outputs: Seq<SingleRoundResult>,
    res: FixpointResult,
    j: int,
)
    requires
        forall|c: &Circuit, r: Result<SingleRoundResult, CompilerError>| call_ensures(step, (c, &config), r) ==> round_matches(r, circuit_view(*c), config@),
        round_chain(step, config, initial, inputs, outputs),
        outputs.len() == res.rounds_executed,
        1 <= res.rounds_executed <= config@.round_limit,
        res.stabilized == !round_changed(outputs, outputs.len() - 1),
        !res.stabilized ==> res.rounds_executed == config@.round_limit,
        res.stabilized ==> res.circuit == inputs.last(),
        !res.stabilized ==> res.circuit == outputs.last().circuit,
        res.any_parameter_phase_changed == any_parameter_change(outputs, outputs.len() as int),
        res.any_structural_changed == any_structural_change(outputs, outputs.len() as int),
        0 <= j < outputs.len(),
    ensures
        fixpoint_from(circuit_view(inputs[j]), config@, j as nat, any_parameter_change(outputs, j), any_structural_change(outputs, j))
            == Ok::<FixpointView, CompilerError>(FixpointView {
                circuit: circuit_view(res.circuit),
                any_parameter: res.any_parameter_phase_changed,
                any_structural: res.any_structural_changed,
                rounds: res.rounds_executed as nat,
                stabilized: res.stabilized,
            }),
    decreases outputs.len() - j,
{
    let k = outputs.len() as int;
    assert(call_ensures(step, (&inputs[j], &config), Ok::<SingleRoundResult, CompilerError>(outputs[j])));
    let out = outputs[j];
    assert(round_matches(Ok::<SingleRoundResult, CompilerError>(out), circuit_view(inputs[j]), config@));
    lemma_any_extend(outputs, j);
    let seen_p = any_parameter_change(outputs, j);
    let seen_s = any_structural_change(outputs, j);
    assert(round_result(circuit_view(inputs[j]), config@) == Ok::<(CircuitView, bool, bool), CompilerError>(
        (circuit_view(out.circuit), out.parameter_phase_changed, out.structural_changed),
    ));
    if j == k - 1 {
        if !res.stabilized {
            assert(fixpoint_from(
                circuit_view(out.circuit),
                config@,
                (j + 1) as nat,
                seen_p || out.parameter_phase_changed,
                seen_s || out.structural_changed,
            ) == Ok::<FixpointView, CompilerError>(FixpointView {
                circuit: circuit_view(out.circuit),
                any_parameter: seen_p || out.parameter_phase_changed,
                any_structural: seen_s || out.structural_changed,
                rounds: (j + 1) as nat,
                stabilized: false,
            }));
        }
    } else {
        assert(round_changed(outputs, j));
        assert(inputs[j + 1] == outputs[j].circuit);
        lemma_trace_fixpoint(step, config, initial, inputs, outputs, res, j + 1);
    }
}

/// Extending the round prefix by one round adds that round's changes.
proof fn lemma_any_extend(outputs: Seq<SingleRoundResult>, j: int)
    requires
        0 <= j < outputs.len(),
    ensures
        any_parameter_change(outputs, j + 1) == (any_parameter_change(outputs, j) || outputs[j].parameter_phase_changed),
        any_structural_change(outputs, j + 1) == (any_structural_change(outputs, j) || outputs[j].structural_changed),
{
    if any_parameter_change(outputs, j + 1) && !outputs[j].parameter_phase_changed {
        let w = choose|i: int| 0 <= i < j + 1 && outputs[i].parameter_phase_changed;
        assert(w < j);
    }
    if any_structural_change(outputs, j + 1) && !outputs[j].structural_changed {
        let w = choose|i: int| 0 <= i < j + 1 && outputs[i].structural_changed;
        assert(w < j);
    }
}

/// A failing round after a chain of rounds determines the failure of the fixpoint loop.
proof fn lemma_trace_failure<F: Fn(&Circuit, &CanonicalizeConfig) -> Result<SingleRoundResult, CompilerError>>(
    step: F,
    config: CanonicalizeConfig,
    initial: CircuitView,
    inputs: Seq<Circuit>,
    outputs: Seq<SingleRoundResult>,
    last: Circuit,
    e: CompilerError,
    j: int,
)
    requires
        forall|c: &Circuit, r: Result<SingleRoundResult, CompilerError>| call_ensures(step, (c, &config), r) ==> round_matches(r, circuit_view(*c), config@),
        round_chain(step, config, initial, inputs, outputs),
        outputs.len() < config@.round_limit,
        outputs.len() > 0 ==> last == outputs.last().circuit && round_changed(outputs, outputs.len() - 1),
        call_ensures(step, (&last, &config), Err::<SingleRoundResult, CompilerError>(e)),
        0 <= j <= outputs.len(),
        j == outputs.len() ==> circuit_view(last) == if j == 0 { initial } else { circuit_view(last) },
    ensures
        fixpoint_from(
            if j == outputs.len() { circuit_view(last) } else { circuit_view(inputs[j]) },
            config@,
            j as nat,
            any_parameter_change(outputs, j),
            any_structural_change(outputs, j),
        ) == Err::<FixpointView, CompilerError>(e),
    decreases outputs.len() - j,
{
    let k = outputs.len() as int;
    if j == k {
        assert(round_matches(Err::<SingleRoundResult, CompilerError>(e), circuit_view(last), config@));
    } else {
        assert(call_ensures(step, (&inputs[j], &config), Ok::<SingleRoundResult, CompilerError>(outputs[j])));
        assert(round_matches(Ok::<SingleRoundResult, CompilerError>(outputs[j]), circuit_view(inputs[j]), config@));
        lemma_any_extend(outputs, j);
        if j < k - 1 {
            assert(round_changed(outputs, j));
            assert(inputs[j + 1] == outputs[j].circuit);
        } else {
            assert(round_changed(outputs, j));
        }
        lemma_trace_failure(step, config, initial, inputs, outputs, last, e, j + 1);
    }
}

/// The notes of a canonicalization outcome that changed the circuit.
pub open spec fn outcome_notes(any_parameter: bool, any_structural: bool, stabilized: bool, rounds: u8) -> Seq<TransformNote> {
    (if any_parameter { seq![TransformNote::ParametersNormalized] } else { seq![] })
        + (if any_structural { seq![TransformNote::StructureCanonicalized] } else { seq![] })
        + (if !stabilized { seq![TransformNote::RoundLimitReached { rounds }] } else { seq![] })
}

/// The diagnostics of a canonicalization outcome: one warning when the
/// round limit stopped the loop.
pub open spec fn outcome_diagnostics(stabilized: bool, rounds: u8) -> Seq<CompileDiagnostic> {
    if stabilized {
        seq![]
    } else {
        seq![CompileDiagnostic {
            severity: DiagnosticSeverity::Warning,
            code: DiagnosticCode::CanonicalizeRoundLimitReached,
            rounds,
        }]
    }
}

/// The outcome reported when a fixpoint run changed the circuit: the change
/// set, one note per kind of change, and a round-limit note and warning when
/// the loop stopped before stabilizing.
pub fn changed_outcome(any_parameter: bool, any_structural: bool, stabilized: bool, rounds: u8) -> (r: TransformOutcome)
    ensures
        r.changed,
        r.changes == (ContextChangeSet {
            circuit_changed: true,
            cfg_structure_changed: any_structural,
            parameter_table_changed: any_parameter,
        }),
        r.notes@ == outcome_notes(any_parameter, any_structural, stabilized, rounds),
        r.diagnostics@ == outcome_diagnostics(stabilized, rounds),
{
    let mut notes: Vec<TransformNote> = Vec::new();
    let mut diagnostics: Vec<CompileDiagnostic> = Vec::new();
    if any_parameter {
        notes.push(TransformNote::ParametersNormalized);
    }
    if any_structural {
        notes.push(TransformNote::StructureCanonicalized);
    }
    if !stabilized {
        notes.push(TransformNote::RoundLimitReached { rounds });
        diagnostics.push(CompileDiagnostic {
            severity: DiagnosticSeverity::Warning,
            code: DiagnosticCode::CanonicalizeRoundLimitReached,
            rounds,
        });
    }
    proof {
        assert(notes@ =~= outcome_notes(any_parameter, any_structural, stabilized, rounds));
        assert(diagnostics@ =~= outcome_diagnostics(stabilized, rounds));
    }
    TransformOutcome {
        changed: true,
        changes: ContextChangeSet {
            circuit_changed: true,
            cfg_structure_changed: any_structural,
            parameter_table_changed: any_parameter,
        },
        notes,
        diagnostics,
    }
}

/// The canonicalization transform.
#[derive(Debug)]
pub struct Canonicalizer {
    config: CanonicalizeConfig,
}

/// The descriptor of the canonicalization transform.
pub fn canonicalizer_descriptor() -> (r: TransformDescriptor)
    ensures
        !r.requires_device && !r.requires_layout && r.supports_control_flow && r.supports_symbolic_parameters
            && r.modifies_circuit,
{
    TransformDescriptor {
        name: "canonicalize.standard",
        description: "Canonicalizes circuit structure into a stable internal form",
        requires_device: false,
        requires_layout: false,
        supports_control_flow: true,
        supports_symbolic_parameters: true,
        modifies_circuit: true,
    }
}

impl Canonicalizer {
    /// A canonicalizer with the given configuration.
    pub fn new(config: CanonicalizeConfig) -> (r: Canonicalizer)
        ensures
            r.settings() == config@,
    {
        Canonicalizer { config }
    }

    /// A canonicalizer with the production configuration.
    pub fn production() -> (r: Canonicalizer)
        ensures
            r.settings() == crate::canonicalize::config::production_settings(),
    {
        Canonicalizer::new(CanonicalizeConfig::production())
    }

    /// The configuration's settings, for specifications.
    pub closed spec fn settings(&self) -> CanonicalizeSettings {
        self.config@
    }

    /// Returns the active configuration.
    pub fn config(&self) -> (r: &CanonicalizeConfig)
        ensures
            r@ == self.settings(),
    {
        &self.config
    }

    /// The transform's descriptor.
    pub fn descriptor(&self) -> (r: TransformDescriptor)
        ensures
            r.modifies_circuit,
    {
        canonicalizer_descriptor()
    }

    /// Canonicalizes the context's circuit to a fixpoint; the circuit is
    /// replaced only when some round changed it.
    pub fn transform(&self, ctx: &mut CompilerContext) -> (r: Result<TransformOutcome, CompilerError>)
        ensures
            final(ctx).revision == old(ctx).revision,
            final(ctx).device == old(ctx).device,
            match canonicalize_fixpoint(circuit_view(old(ctx).circuit), self.settings()) {
                Err(e) => r == Err::<TransformOutcome, CompilerError>(e) && final(ctx).circuit == old(ctx).circuit,
                Ok(f) => r matches Ok(outcome) && fixpoint_outcome(f, outcome, old(ctx).circuit, final(ctx).circuit),
            },
    {
        let config = self.config;
        let step = |c: &Circuit, cfg: &CanonicalizeConfig| -> (r: Result<SingleRoundResult, CompilerError>)
            ensures
                round_matches(r, circuit_view(*c), cfg@),
            {
                run_single_round(c, cfg)
            };
        let result = run_to_fixpoint_with(&ctx.circuit, &config, step);
        let ghost initial = circuit_view(ctx.circuit);
        let fixpoint = match result {
            Err(e) => {
                proof {
                    if config@.round_limit > 0 {
                        let (inputs, outputs, last) = choose|inputs: Seq<Circuit>, outputs: Seq<SingleRoundResult>, last: Circuit| {
                            &&& round_chain(step, config, initial, inputs, outputs)
                            &&& outputs.len() < config@.round_limit
                            &&& (outputs.len() == 0 ==> circuit_view(last) == initial)
                            &&& (outputs.len() > 0 ==> last == outputs.last().circuit && round_changed(outputs, outputs.len() - 1))
                            &&& call_ensures(step, (&last, &config), Err::<SingleRoundResult, CompilerError>(e))
                        };
                        lemma_trace_failure(step, config, initial, inputs, outputs, last, e, 0);
                        if outputs.len() > 0 {
                            assert(circuit_view(inputs[0]) == initial);
                        }
                    }
                }
                return Err(e);
            },
            Ok(f) => f,
        };
        proof {
            let (inputs, outputs) = choose|inputs: Seq<Circuit>, outputs: Seq<SingleRoundResult>| {
                &&& round_chain(step, config, initial, inputs, outputs)
                &&& outputs.len() == fixpoint.rounds_executed
                &&& 1 <= fixpoint.rounds_executed <= config@.round_limit
                &&& fixpoint.stabilized == !round_changed(outputs, outputs.len() - 1)
                &&& (!fixpoint.stabilized ==> fixpoint.rounds_executed == config@.round_limit)
                &&& (fixpoint.stabilized ==> fixpoint.circuit == inputs.last())
                &&& (!fixpoint.stabilized ==> fixpoint.circuit == outputs.last().circuit)
                &&& fixpoint.any_parameter_phase_changed == any_parameter_change(outputs, outputs.len() as int)
                &&& fixpoint.any_structural_changed == any_structural_change(outputs, outputs.len() as int)
            };
            lemma_trace_fixpoint(step, config, initial, inputs, outputs, fixpoint, 0);
        }
        if !fixpoint.any_parameter_phase_changed && !fixpoint.any_structural_changed {
            return Ok(TransformOutcome::unchanged());
        }
        let rounds = fixpoint.rounds_executed;
        let any_parameter = fixpoint.any_parameter_phase_changed;
        let any_structural = fixpoint.any_structural_changed;
        let stabilized = fixpoint.stabilized;
        ctx.circuit = fixpoint.circuit;
        Ok(changed_outcome(any_parameter, any_structural, stabilized, rounds))
    }

    /// Runs the transform and advances the context revision when it changed the circuit.
    pub fn run(&self, ctx: &mut CompilerContext) -> (r: Result<TransformOutcome, CompilerError>)
        ensures
            match r {
                Ok(outcome) => final(ctx).revision == if outcome.changed && old(ctx).revision < u64::MAX {
                    old(ctx).revision + 1
                } else {
                    old(ctx).revision as int
                },
                Err(_) => final(ctx).revision == old(ctx).revision && final(ctx).circuit == old(ctx).circuit,
            },
            match canonicalize_fixpoint(circuit_view(old(ctx).circuit), self.settings()) {
                Err(e) => r == Err::<TransformOutcome, CompilerError>(e),
                Ok(f) => r matches Ok(outcome) && fixpoint_outcome(f, outcome, old(ctx).circuit, final(ctx).circuit),
            },
    {
        let outcome = match self.transform(ctx) {
            Ok(outcome) => outcome,
            Err(e) => return Err(e),
        };
        if outcome.changed {
            ctx.bump_revision();
        }
        Ok(outcome)
    }
}

impl Default for Canonicalizer {
    fn default() -> (r: Canonicalizer)
        ensures
            r.settings() == crate::canonicalize::config::production_settings(),
    {
        Canonicalizer::production()
    }
}

} // verus!
