//! Transform that lowers every MCGate operation of a circuit.
//!
//! The circuit is rebuilt operation by operation: an MCGate operation is
//! replaced by its lowering, any other operation (and a labeled one while
//! labeled operations are skipped) is kept, and every emitted parameter
//! reference is checked against the circuit's parameter table.
use crate::circuit::{
    append_all, copy_strings, op_view, ops_view, Circuit, CircuitParam, OpView, Operation,
};
use crate::compiler::{CompilerContext, ContextChangeSet, TransformDescriptor, TransformNote, TransformOutcome};
use crate::decompose::mc_gate::decompose::{
    decompose_mc_gate_operation, lowering_config, operation_result, LoweringConfig, McGateDecomposeConfig,
};
use crate::error::{CompilerError, InvariantIssue};
use vstd::prelude::*;

verus! {

/// The first parameter reference at or beyond the table length `n`.
pub open spec fn param_missing(params: Seq<CircuitParam>, n: nat) -> Option<u32>
    decreases params.len(),
{
    if params.len() == 0 {
        None
    } else {
        match param_missing(params.drop_last(), n) {
            Some(i) => Some(i),
            None => match params.last() {
                CircuitParam::Index(i) => if i >= n { Some(i) } else { None },
                _ => None,
            },
        }
    }
}

/// The first parameter reference, over a sequence of operations, at or
/// beyond the table length `n`.
pub open spec fn ops_missing(ops: Seq<OpView>, n: nat) -> Option<u32>
    decreases ops.len(),
{
    if ops.len() == 0 {
        None
    } else {
        match ops_missing(ops.drop_last(), n) {
            Some(i) => Some(i),
            None => param_missing(ops.last().params, n),
        }
    }
}

/// Rebuilt operations and counters of a lowering run.
pub struct LoweringTotals {
    pub ops: Seq<OpView>,
    pub decomposed: nat,
    pub emitted: nat,
}

/// The outcome a lowering run reports, and the circuit it leaves: unchanged
/// and silent when nothing was lowered, else the rebuilt operations with
/// everything else of the circuit kept, and one note counting the work.
pub open spec fn lowering_outcome(t: LoweringTotals, outcome: TransformOutcome, before: Circuit, after: Circuit) -> bool {
    &&& outcome.diagnostics@.len() == 0
    &&& if t.decomposed == 0 {
        &&& !outcome.changed
        &&& outcome.notes@.len() == 0
        &&& after == before
    } else {
        &&& outcome.changed
        &&& outcome.changes == (ContextChangeSet { circuit_changed: true, cfg_structure_changed: true, parameter_table_changed: true })
        &&& outcome.notes@ == seq![TransformNote::McGateLowered { operations: t.decomposed as usize, replacements: t.emitted as usize, sequences: 1 }]
        &&& ops_view(after.operations@) == t.ops
        &&& after.num_qubits == before.num_qubits
        &&& after.global_phase == before.global_phase
        &&& after.parameters@.len() == before.parameters@.len()
        &&& forall|i: int| 0 <= i < before.parameters@.len() ==> after.parameters@[i]@ == before.parameters@[i]@
    }
}


/// Lowers one operation: whether it was replaced and what to emit, or the
/// failure of its lowering or of a parameter reference it emits.
#[verifier::opaque]
pub open spec fn lower_step(op: OpView, c: LoweringConfig, skip_labeled: bool, n: nat) -> Result<(bool, Seq<OpView>), CompilerError> {
    match operation_result(op, c, skip_labeled) {
        Err(f) => Err(CompilerError::McGateFailed(f)),
        Ok((changed, replacement)) => match ops_missing(replacement, n) {
            Some(i) => Err(CompilerError::InvariantViolation(InvariantIssue::MissingParameterIndex(i))),
            None => Ok((changed, replacement)),
        },
    }
}

/// Lowers a sequence of operations in order.
pub open spec fn lower_sequence(ops: Seq<OpView>, c: LoweringConfig, skip_labeled: bool, n: nat) -> Result<LoweringTotals, CompilerError>
    decreases ops.len(),
{
    if ops.len() == 0 {
        Ok(LoweringTotals { ops: seq![], decomposed: 0, emitted: 0 })
    } else {
        match lower_sequence(ops.drop_last(), c, skip_labeled, n) {
            Err(e) => Err(e),
            Ok(t) => match lower_step(ops.last(), c, skip_labeled, n) {
                Err(e) => Err(e),
                Ok((changed, replacement)) => Ok(LoweringTotals {
                    ops: t.ops + replacement,
                    decomposed: t.decomposed + if changed { 1nat } else { 0nat },
                    emitted: t.emitted + if changed { replacement.len() } else { 0nat },
                }),
            },
        }
    }
}

/// Transform that lowers MCGate operations.
#[derive(Debug)]
pub struct McGateDecomposer {
    config: McGateDecomposeConfig,
    recurse_control_flow: bool,
}

/// The descriptor of the MCGate lowering transform.
pub fn mc_gate_decomposer_descriptor() -> (r: TransformDescriptor)
    ensures
        !r.requires_device && !r.requires_layout && r.supports_control_flow && r.supports_symbolic_parameters
            && r.modifies_circuit,
{
    TransformDescriptor {
        name: "decompose.mc_gate",
        description: "Decomposes multi-controlled standard-gate wrappers",
        requires_device: false,
        requires_layout: false,
        supports_control_flow: true,
        supports_symbolic_parameters: true,
        modifies_circuit: true,
    }
}

/// Whether a parameter list refers only to existing table entries; returns the first missing reference.
pub fn find_missing_param(params: &[CircuitParam], n: usize) -> (r: Option<u32>)
    ensures
        r == param_missing(params@, n as nat),
{
    let mut i: usize = 0;
    while i < params.len()
        invariant
            i <= params.len(),
            param_missing(params@.subrange(0, i as int), n as nat) is None,
        decreases params.len() - i,
    {
        let ghost next = params@.subrange(0, i + 1);
        proof {
            assert(next.drop_last() =~= params@.subrange(0, i as int));
        }
        if let CircuitParam::Index(index) = params[i] {
            if index as usize >= n {
                proof {
                    lemma_param_missing_extends(params@, i + 1, n as nat);
                }
                return Some(index);
            }
        }
        i = i + 1;
    }
    proof {
        assert(params@.subrange(0, params@.len() as int) =~= params@);
    }
    None
}

/// Once a prefix shows a missing reference, the whole list reports the same one.
proof fn lemma_param_missing_extends(params: Seq<CircuitParam>, k: int, n: nat)
    requires
        0 <= k <= params.len(),
        param_missing(params.subrange(0, k), n) is Some,
    ensures
        param_missing(params, n) == param_missing(params.subrange(0, k), n),
    decreases params.len() - k,
{
    if k < params.len() {
        assert(params.subrange(0, k + 1).drop_last() =~= params.subrange(0, k));
        lemma_param_missing_extends(params, k + 1, n);
    } else {
        assert(params.subrange(0, k) =~= params);
    }
}

/// Once a prefix of the operations shows a missing reference, the whole sequence reports the same one.
proof fn lemma_ops_missing_extends(ops: Seq<OpView>, k: int, n: nat)
    requires
        0 <= k <= ops.len(),
        ops_missing(ops.subrange(0, k), n) is Some,
    ensures
        ops_missing(ops, n) == ops_missing(ops.subrange(0, k), n),
    decreases ops.len() - k,
{
    if k < ops.len() {
        assert(ops.subrange(0, k + 1).drop_last() =~= ops.subrange(0, k));
        lemma_ops_missing_extends(ops, k + 1, n);
    } else {
        assert(ops.subrange(0, k) =~= ops);
    }
}

/// The first missing parameter reference over a list of operations.
fn find_missing_in(ops: &Vec<Operation>, n: usize) -> (r: Option<u32>)
    ensures
        r == ops_missing(ops_view(ops@), n as nat),
{
    let ghost all = ops_view(ops@);
    let mut i: usize = 0;
    while i < ops.len()
        invariant
            i <= ops.len(),
            all == ops_view(ops@),
            all.len() == ops@.len(),
            ops_missing(all.subrange(0, i as int), n as nat) is None,
        decreases ops.len() - i,
    {
        let found = find_missing_param(ops[i].params.as_slice(), n);
        proof {
            let next = all.subrange(0, i + 1);
            assert(next.drop_last() =~= all.subrange(0, i as int));
            assert(next.last() == op_view(ops@[i as int]));
        }
        if let Some(index) = found {
            proof {
                lemma_ops_missing_extends(all, i + 1, n as nat);
            }
            return Some(index);
        }
        i = i + 1;
    }
    proof {
        assert(all.subrange(0, all.len() as int) =~= all);
    }
    None
}

/// Lowers one operation and checks the parameter references it emits.
fn lower_one(op: &Operation, config: &McGateDecomposeConfig, n: usize) -> (r: Result<(bool, Vec<Operation>), CompilerError>)
    ensures
        match lower_step(op_view(*op), lowering_config(*config), config.skip_labeled_ops, n as nat) {
            Err(e) => r == Err::<(bool, Vec<Operation>), CompilerError>(e),
            Ok((changed, replacement)) => r matches Ok((ch, v)) && ch == changed && ops_view(v@) == replacement,
        },
{
    proof {
        reveal(lower_step);
    }
    let result = match decompose_mc_gate_operation(op, config) {
        Ok(result) => result,
        Err(e) => return Err(e),
    };
    if let Some(index) = find_missing_in(&result.operations, n) {
        return Err(CompilerError::InvariantViolation(InvariantIssue::MissingParameterIndex(index)));
    }
    Ok((result.changed, result.operations))
}

/// Lowers a sequence of operations: the rebuilt sequence with the number
/// of lowered operations and of their replacements.
fn lower_operations(source: &Vec<Operation>, config: &McGateDecomposeConfig, n: usize) -> (r: Result<(Vec<Operation>, usize, usize), CompilerError>)
    ensures
        match lower_sequence(ops_view(source@), lowering_config(*config), config.skip_labeled_ops, n as nat) {
            Err(e) => r == Err::<(Vec<Operation>, usize, usize), CompilerError>(e),
            Ok(t) => r matches Ok((v, d, em)) && ops_view(v@) == t.ops && d == t.decomposed && em == t.emitted,
        },
{
    let ghost all = ops_view(source@);
    let ghost c = lowering_config(*config);
    let skip = config.skip_labeled_ops;
    let mut rebuilt: Vec<Operation> = Vec::new();
    let mut decomposed: usize = 0;
    let mut emitted: usize = 0;
    let mut i: usize = 0;
    proof {
        assert(all.subrange(0, 0) =~= Seq::<OpView>::empty());
        assert(ops_view(rebuilt@) =~= Seq::<OpView>::empty());
    }
    while i < source.len()
        invariant
            i <= source@.len(),
            all == ops_view(source@),
            all.len() == source@.len(),
            c == lowering_config(*config),
            skip == config.skip_labeled_ops,
            lower_sequence(all.subrange(0, i as int), c, skip, n as nat) == Ok::<LoweringTotals, CompilerError>(
                LoweringTotals { ops: ops_view(rebuilt@), decomposed: decomposed as nat, emitted: emitted as nat },
            ),
            decomposed <= i,
            emitted <= rebuilt@.len(),
        decreases source@.len() - i,
    {
        let op = &source[i];
        let ghost prefix = all.subrange(0, i as int);
        let ghost next = all.subrange(0, i + 1);
        proof {
            assert(next.drop_last() =~= prefix);
            assert(next.last() == op_view(*op));
        }
        let (changed, replacement) = match lower_one(op, config, n) {
            Ok(pair) => pair,
            Err(e) => {
                proof {
                    lemma_lower_sequence_error_extends(all, i + 1, c, skip, n as nat);
                }
                return Err(e);
            },
        };
        let count = replacement.len();
        let ghost before = ops_view(rebuilt@);
        let ghost block = ops_view(replacement@);
        proof {
            assert(block.len() == count);
            assert(before.len() == rebuilt@.len());
        }
        append_all(&mut rebuilt, replacement);
        proof {
            assert(ops_view(rebuilt@) == before + block);
            assert(ops_view(rebuilt@).len() == rebuilt@.len());
            assert(before.len() + block.len() == rebuilt@.len());
        }
        let total = rebuilt.len();
        proof {
            assert(emitted + count <= total);
        }
        if changed {
            decomposed = decomposed + 1;
            emitted = emitted + count;
        }
        i = i + 1;
    }
    proof {
        assert(all.subrange(0, all.len() as int) =~= all);
    }
    Ok((rebuilt, decomposed, emitted))
}

impl McGateDecomposer {
    /// A decomposer with the given lowering configuration.
    pub fn new(config: McGateDecomposeConfig) -> (r: McGateDecomposer)
        ensures
            r.config_spec() == config,
            r.recurses_spec(),
    {
        McGateDecomposer { config, recurse_control_flow: true }
    }

    /// The configuration, for specifications.
    pub closed spec fn config_spec(&self) -> McGateDecomposeConfig {
        self.config
    }

    /// The recorded control-flow setting, for specifications.
    pub closed spec fn recurses_spec(&self) -> bool {
        self.recurse_control_flow
    }

    /// Returns the active lowering configuration.
    pub fn config(&self) -> (r: &McGateDecomposeConfig)
        ensures
            *r == self.config_spec(),
    {
        &self.config
    }

    /// Records whether nested control-flow bodies are to be lowered. The
    /// circuit model of this library holds no control-flow instruction, so
    /// the setting is kept and reported but changes no result.
    pub fn recurse_control_flow(self, enabled: bool) -> (r: McGateDecomposer)
        ensures
            r.config_spec() == self.config_spec(),
            r.recurses_spec() == enabled,
    {
        McGateDecomposer { config: self.config, recurse_control_flow: enabled }
    }

    /// The recorded control-flow setting; it changes no result, as the
    /// circuit model holds no control-flow bodies.
    pub fn recurses_control_flow(&self) -> (r: bool)
        ensures
            r == self.recurses_spec(),
    {
        self.recurse_control_flow
    }

    /// The transform's descriptor.
    pub fn descriptor(&self) -> (r: TransformDescriptor)
        ensures
            r.modifies_circuit,
    {
        mc_gate_decomposer_descriptor()
    }

    /// Lowers every MCGate operation of the context's circuit. The circuit
    /// is replaced only when some operation was lowered; on failure the
    /// context is left as it was.
    pub fn transform(&self, ctx: &mut CompilerContext) -> (r: Result<TransformOutcome, CompilerError>)
        ensures
            final(ctx).revision == old(ctx).revision,
            final(ctx).device == old(ctx).device,
            match lower_sequence(
                ops_view(old(ctx).circuit.operations@),
                lowering_config(self.config_spec()),
                self.config_spec().skip_labeled_ops,
                old(ctx).circuit.parameters@.len(),
            ) {
                Err(e) => r == Err::<TransformOutcome, CompilerError>(e) && final(ctx).circuit == old(ctx).circuit,
                Ok(t) => r matches Ok(outcome) && lowering_outcome(t, outcome, old(ctx).circuit, final(ctx).circuit),
            },
    {
        let n = ctx.circuit.parameters.len();
        let (rebuilt, decomposed, emitted) = match lower_operations(&ctx.circuit.operations, &self.config, n) {
            Ok(triple) => triple,
            Err(e) => return Err(e),
        };
        if decomposed == 0 {
            return Ok(TransformOutcome::unchanged());
        }
        let parameters = copy_strings(&ctx.circuit.parameters);
        let num_qubits = ctx.circuit.num_qubits;
        let global_phase = ctx.circuit.global_phase;
        ctx.circuit = Circuit { num_qubits, parameters, operations: rebuilt, global_phase };
        let mut notes: Vec<TransformNote> = Vec::new();
        notes.push(TransformNote::McGateLowered { operations: decomposed, replacements: emitted, sequences: 1 });
        proof {
            assert(notes@ =~= seq![TransformNote::McGateLowered { operations: decomposed, replacements: emitted, sequences: 1 }]);
        }
        Ok(TransformOutcome {
            changed: true,
            changes: ContextChangeSet { circuit_changed: true, cfg_structure_changed: true, parameter_table_changed: true },
            notes,
            diagnostics: Vec::new(),
        })
    }

    /// Runs the transform and advances the context revision when it changed the circuit.
    pub fn run(&self, ctx: &mut CompilerContext) -> (r: Result<TransformOutcome, CompilerError>)
        ensures
            match r {
                Ok(outcome) => final(ctx).revision == if outcome.changed && old(ctx).revision < u64::MAX {
                    old(ctx).revision + 1
                } else {
                    old(ctx).revision as int
                },
                Err(_) => final(ctx).revision == old(ctx).revision && final(ctx).circuit == old(ctx).circuit,
            },
            match lower_sequence(
                ops_view(old(ctx).circuit.operations@),
                lowering_config(self.config_spec()),
                self.config_spec().skip_labeled_ops,
                old(ctx).circuit.parameters@.len(),
            ) {
                Err(e) => r == Err::<TransformOutcome, CompilerError>(e),
                Ok(t) => r matches Ok(outcome) && lowering_outcome(t, outcome, old(ctx).circuit, final(ctx).circuit),
            },
    {
        let outcome = match self.transform(ctx) {
            Ok(outcome) => outcome,
            Err(e) => return Err(e),
        };
        if outcome.changed {
            ctx.bump_revision();
        }
        Ok(outcome)
    }
}

impl Default for McGateDecomposer {
    fn default() -> (r: McGateDecomposer)
        ensures
            crate::decompose::mc_gate::decompose::is_default_config(r.config_spec()),
            r.recurses_spec(),
    {
        McGateDecomposer::new(McGateDecomposeConfig::default())
    }
}

/// Once a prefix fails to lower, the whole sequence fails the same way.
proof fn lemma_lower_sequence_error_extends(ops: Seq<OpView>, k: int, c: LoweringConfig, skip: bool, n: nat)
    requires
        0 <= k <= ops.len(),
        lower_sequence(ops.subrange(0, k), c, skip, n) is Err,
    ensures
        lower_sequence(ops, c, skip, n) == lower_sequence(ops.subrange(0, k), c, skip, n),
    decreases ops.len() - k,
{
    if k < ops.len() {
        assert(ops.subrange(0, k + 1).drop_last() =~= ops.subrange(0, k));
        lemma_lower_sequence_error_extends(ops, k + 1, c, skip, n);
    } else {
        assert(ops.subrange(0, k) =~= ops);
    }
}

/// Law: an operation that is not an MCGate is kept as it is. The
/// operation-level adapter returns it alone, unchanged and not counted;
/// and when its parameters refer to the table, lowering a sequence extended
/// by it extends the lowered sequence by exactly that operation, with the
/// counters unchanged.
pub proof fn lemma_non_mc_gate_operations_are_kept(ops: Seq<OpView>, op: OpView, c: LoweringConfig, skip: bool, n: nat)
    requires
        !(op.instruction is McGate),
    ensures
        operation_result(op, c, skip) == Ok::<(bool, Seq<OpView>), crate::error::McGateFailure>((false, seq![op])),
        param_missing(op.params, n) is None ==> lower_sequence(ops.push(op), c, skip, n) == match lower_sequence(ops, c, skip, n) {
            Err(e) => Err::<LoweringTotals, CompilerError>(e),
            Ok(t) => Ok(LoweringTotals { ops: t.ops.push(op), decomposed: t.decomposed, emitted: t.emitted }),
        },
{
    reveal(lower_step);
    let one = seq![op];
    assert(one.drop_last() =~= Seq::<OpView>::empty());
    assert(ops_missing(one, n) == param_missing(op.params, n));
    assert(ops.push(op).drop_last() =~= ops);
    if let Ok(t) = lower_sequence(ops, c, skip, n) {
        assert(t.ops + one =~= t.ops.push(op));
    }
}

/// Law: a sequence without MCGate operations, whose parameters all refer to
/// the table, is lowered to itself, with nothing counted.
pub proof fn lemma_sequences_without_mc_gates_are_kept(ops: Seq<OpView>, c: LoweringConfig, skip: bool, n: nat)
    requires
        forall|i: int| 0 <= i < ops.len() ==> !(#[trigger] ops[i].instruction is McGate) && param_missing(ops[i].params, n) is None,
    ensures
        lower_sequence(ops, c, skip, n) == Ok::<LoweringTotals, CompilerError>(LoweringTotals { ops, decomposed: 0, emitted: 0 }),
    decreases ops.len(),
{
    if ops.len() > 0 {
        let rest = ops.drop_last();
        assert forall|i: int| 0 <= i < rest.len() implies !(#[trigger] rest[i].instruction is McGate) && param_missing(rest[i].params, n) is None by {
            assert(rest[i] == ops[i]);
        }
        lemma_sequences_without_mc_gates_are_kept(rest, c, skip, n);
        let last = ops[ops.len() - 1];
        lemma_non_mc_gate_operations_are_kept(rest, last, c, skip, n);
        assert(rest.push(last) =~= ops);
    } else {
        assert(ops =~= Seq::<OpView>::empty());
    }
}

} // verus!
