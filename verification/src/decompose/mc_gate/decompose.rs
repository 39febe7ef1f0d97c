//! Multi-controlled gate decomposition: configuration, operand partition,
//! validation, family classification, and dispatch to the family lowerings.
//!
//! An MCGate operation's operands are laid out as
//! `[added_controls..., base_inherent_controls..., base_targets...]`; the
//! lowering never reorders them.
use crate::circuit::{
    copy_operation, gate_control_count, gate_param_count, gate_qubit_count, op_view, ops_view, CircuitParam,
    Instruction, McGate, OpView, Operation, Qubit, StandardGate,
};
use crate::decompose::mc_gate::fsim::{decompose_fsim_family, fsim_family};
use crate::decompose::mc_gate::operand_pool::{lemma_lowering_touches_only_operands_and_ancillas, lowering_pool};
use crate::decompose::mcx_operands::confined;
use crate::decompose::mc_gate::standard_output::{lemma_lowering_emits_standard_gates, standard_only};
use crate::decompose::mc_gate::one_qubit::{decompose_one_qubit_family, one_qubit_family};
use crate::decompose::mc_gate::pauli::{decompose_pauli_family, pauli_family};
use crate::decompose::mc_gate::phase::{decompose_phase_family, phase_family};
use crate::decompose::mc_gate::pauli_interaction::{decompose_pauli_interaction_family, pauli_interaction_family};
use crate::decompose::mc_gate::rx_ry::{decompose_rx_ry_family, model_ok, rx_ry_family};
use crate::decompose::mc_gate::rz::{decompose_rz_family, rz_family};
use crate::decompose::mc_gate::swap::{decompose_swap_family, swap_family};
use crate::error::{AncillaKind, CompilerError, McGateContext, McGateDetail, McGateFailure, NestedStep, ParameterMode};
use crate::semantics::{copy_range, find_duplicate, first_duplicate};
use vstd::prelude::*;

verus! {

/// Default cap on the operations one decomposition may materialize.
pub const DEFAULT_MAX_EXPANSION_OPS: usize = 10000;
/// Default cap on the recursion depth of control-lifting plans.
pub const DEFAULT_MAX_RECURSION_DEPTH: usize = 64;

/// Ancillary-qubit strategy for multi-controlled gate decomposition.
#[derive(Clone, Copy, Debug, PartialEq, Eq, Hash, Structural)]
pub enum AncillaMode {
    /// Do not use any qubit outside the operation operands.
    NoAncilla,
    /// Use only caller-provided clean work qubits.
    CleanAncilla,
    /// Use only caller-provided borrowed work qubits.
    DirtyAncilla,
}

/// Gate family selected directly from the base gate of a multi-controlled gate.
#[derive(Clone, Copy, Debug, PartialEq, Eq, Hash, Structural)]
pub enum McGateFamily {
    /// `X`, `Y`, `Z`, `CX`, `CY`, `CZ`, `CCX`.
    Pauli,
    /// `S`, `SDG`, `T`, `TDG`, `Phase`.
    Phase,
    /// `RX`, `RY`, `RZ`, `CRX`, `CRY`, `CRZ`.
    Rotation,
    /// One-qubit non-Pauli and non-rotation gates.
    OneQubit,
    /// `SWAP`.
    Swap,
    /// `FSIM`.
    Fsim,
    /// `RXX`, `RYY`, `RZZ`, `RZX`.
    PauliInteraction,
    /// `I`.
    Identity,
    /// Gates this module does not decompose.
    Unsupported,
}

/// Family of a base gate.
pub open spec fn family_of(base: StandardGate) -> McGateFamily {
    match base {
        StandardGate::I => McGateFamily::Identity,
        StandardGate::X | StandardGate::Y | StandardGate::Z | StandardGate::CX | StandardGate::CY
        | StandardGate::CZ | StandardGate::CCX => McGateFamily::Pauli,
        StandardGate::S | StandardGate::SDG | StandardGate::T | StandardGate::TDG
        | StandardGate::Phase => McGateFamily::Phase,
        StandardGate::RX | StandardGate::RY | StandardGate::RZ | StandardGate::CRX | StandardGate::CRY
        | StandardGate::CRZ => McGateFamily::Rotation,
        StandardGate::H | StandardGate::U | StandardGate::X2P | StandardGate::X2M | StandardGate::Y2P
        | StandardGate::Y2M | StandardGate::RXY | StandardGate::XY | StandardGate::XY2P
        | StandardGate::XY2M => McGateFamily::OneQubit,
        StandardGate::SWAP => McGateFamily::Swap,
        StandardGate::FSIM => McGateFamily::Fsim,
        StandardGate::RXX | StandardGate::RYY | StandardGate::RZZ | StandardGate::RZX => McGateFamily::PauliInteraction,
        StandardGate::GPhase => McGateFamily::Unsupported,
    }
}

impl McGateFamily {
    /// Classifies a multi-controlled gate by its base gate only.
    pub fn classify(base_gate: StandardGate) -> (r: McGateFamily)
        ensures
            r == family_of(base_gate),
    {
        match base_gate {
            StandardGate::I => McGateFamily::Identity,
            StandardGate::X | StandardGate::Y | StandardGate::Z | StandardGate::CX | StandardGate::CY
            | StandardGate::CZ | StandardGate::CCX => McGateFamily::Pauli,
            StandardGate::S | StandardGate::SDG | StandardGate::T | StandardGate::TDG
            | StandardGate::Phase => McGateFamily::Phase,
            StandardGate::RX | StandardGate::RY | StandardGate::RZ | StandardGate::CRX
            | StandardGate::CRY | StandardGate::CRZ => McGateFamily::Rotation,
            StandardGate::H | StandardGate::U | StandardGate::X2P | StandardGate::X2M
            | StandardGate::Y2P | StandardGate::Y2M | StandardGate::RXY | StandardGate::XY
            | StandardGate::XY2P | StandardGate::XY2M => McGateFamily::OneQubit,
            StandardGate::SWAP => McGateFamily::Swap,
            StandardGate::FSIM => McGateFamily::Fsim,
            StandardGate::RXX | StandardGate::RYY | StandardGate::RZZ
            | StandardGate::RZX => McGateFamily::PauliInteraction,
            StandardGate::GPhase => McGateFamily::Unsupported,
        }
    }
}

/// Local configuration for multi-controlled gate decomposition.
#[derive(Clone, Debug, PartialEq, Eq)]
pub struct McGateDecomposeConfig {
    /// Selected ancillary-qubit strategy.
    pub ancilla_mode: AncillaMode,
    /// Caller-provided clean work qubits.
    pub clean_ancillas: Vec<Qubit>,
    /// Caller-provided borrowed work qubits.
    pub dirty_ancillas: Vec<Qubit>,
    /// Maximum number of operations a decomposition may materialize.
    pub max_expansion_ops: usize,
    /// Maximum recursion depth for control-lifting plans.
    pub max_recursion_depth: usize,
    /// Whether labeled MCGate operations are protected from lowering.
    pub skip_labeled_ops: bool,
}

/// The settings a lowering reads from its configuration.
pub struct LoweringConfig {
    pub mode: AncillaMode,
    pub clean: Seq<Qubit>,
    pub dirty: Seq<Qubit>,
    pub max_ops: usize,
    pub max_depth: usize,
}

/// The settings of a configuration.
pub open spec fn lowering_config(config: McGateDecomposeConfig) -> LoweringConfig {
    LoweringConfig {
        mode: config.ancilla_mode,
        clean: config.clean_ancillas@,
        dirty: config.dirty_ancillas@,
        max_ops: config.max_expansion_ops,
        max_depth: config.max_recursion_depth,
    }
}

/// The production defaults: no ancillas, 10000 operations, depth 64, labeled operations skipped.
pub open spec fn is_default_config(config: McGateDecomposeConfig) -> bool {
    &&& config.ancilla_mode == AncillaMode::NoAncilla
    &&& config.clean_ancillas@.len() == 0
    &&& config.dirty_ancillas@.len() == 0
    &&& config.max_expansion_ops == DEFAULT_MAX_EXPANSION_OPS
    &&& config.max_recursion_depth == DEFAULT_MAX_RECURSION_DEPTH
    &&& config.skip_labeled_ops
}

impl Default for McGateDecomposeConfig {
    fn default() -> (r: McGateDecomposeConfig)
        ensures
            is_default_config(r),
    {
        McGateDecomposeConfig {
            ancilla_mode: AncillaMode::NoAncilla,
            clean_ancillas: Vec::new(),
            dirty_ancillas: Vec::new(),
            max_expansion_ops: DEFAULT_MAX_EXPANSION_OPS,
            max_recursion_depth: DEFAULT_MAX_RECURSION_DEPTH,
            skip_labeled_ops: true,
        }
    }
}

impl McGateDecomposeConfig {
    /// Creates a configuration with the production defaults.
    pub fn new() -> (r: McGateDecomposeConfig)
        ensures
            is_default_config(r),
    {
        McGateDecomposeConfig::default()
    }

    /// Controls whether labeled MCGate operations are protected from lowering.
    pub fn skip_labeled_ops(self, enabled: bool) -> (r: McGateDecomposeConfig)
        ensures
            r == (McGateDecomposeConfig { skip_labeled_ops: enabled, ..self }),
    {
        let mut config = self;
        config.skip_labeled_ops = enabled;
        config
    }

    /// Returns whether labeled MCGate operations are protected from lowering.
    pub fn skips_labeled_ops(&self) -> (r: bool)
        ensures
            r == self.skip_labeled_ops,
    {
        self.skip_labeled_ops
    }
}

/// Result of the operation-level lowering adapter.
#[derive(Debug)]
pub struct McGateOperationDecomposeResult {
    /// Whether the source operation was replaced by the returned sequence.
    pub changed: bool,
    /// Operations to emit into the rebuilt sequence.
    pub operations: Vec<Operation>,
    /// Integration notes to forward into a transform outcome.
    pub notes: Vec<String>,
}

/// Abstract content of an operand view.
pub struct OperandModel {
    pub base: StandardGate,
    pub added: Seq<Qubit>,
    pub inherent: Seq<Qubit>,
    pub targets: Seq<Qubit>,
    pub controls: Seq<Qubit>,
    pub symbolic: bool,
}

/// Whether some parameter is a parameter-table index.
pub open spec fn has_symbolic(params: Seq<CircuitParam>) -> bool {
    exists|i: int| 0 <= i < params.len() && params[i] is Index
}

/// Number of operands of a multi-controlled gate.
pub open spec fn mc_gate_qubit_count(gate: McGate) -> nat {
    (gate.added_controls as nat + gate_qubit_count(gate.base)) as nat
}

/// Number of controls of a multi-controlled gate: added plus inherent.
pub open spec fn mc_gate_control_count(gate: McGate) -> nat {
    (gate.added_controls as nat + gate_control_count(gate.base)) as nat
}

/// The operand partition of a validated operation.
pub open spec fn operand_model(gate: McGate, qubits: Seq<Qubit>, params: Seq<CircuitParam>) -> OperandModel {
    let a = gate.added_controls as int;
    let b = gate_control_count(gate.base) as int;
    OperandModel {
        base: gate.base,
        added: qubits.subrange(0, a),
        inherent: qubits.subrange(a, a + b),
        targets: qubits.subrange(a + b, qubits.len() as int),
        controls: qubits.subrange(0, a + b),
        symbolic: has_symbolic(params),
    }
}

/// Parameter mode reported in failure contexts.
pub open spec fn mode_of(symbolic: bool) -> ParameterMode {
    if symbolic {
        ParameterMode::Symbolic
    } else {
        ParameterMode::Fixed
    }
}

/// Failure context computed from a multi-controlled gate before the operands are partitioned.
pub open spec fn gate_context(gate: McGate, params: Seq<CircuitParam>, c: LoweringConfig) -> McGateContext {
    McGateContext {
        base_gate: gate.base,
        added_control_count: gate.added_controls as usize,
        control_count: mc_gate_control_count(gate) as usize,
        parameter_mode: mode_of(has_symbolic(params)),
        strategy: c.mode,
    }
}

/// Failure context computed from a validated operand view.
pub open spec fn view_context(m: OperandModel, c: LoweringConfig) -> McGateContext {
    McGateContext {
        base_gate: m.base,
        added_control_count: m.added.len() as usize,
        control_count: m.controls.len() as usize,
        parameter_mode: mode_of(m.symbolic),
        strategy: c.mode,
    }
}

/// A family failure with the view's context.
pub open spec fn view_failure(m: OperandModel, c: LoweringConfig, detail: McGateDetail) -> Result<Seq<OpView>, McGateFailure> {
    Err(McGateFailure { detail, context: view_context(m, c) })
}

/// The first configured work qubit that overlaps the operands or repeats an
/// earlier work qubit.
pub open spec fn ancilla_issue(kind: AncillaKind, operands: Seq<Qubit>, ancillas: Seq<Qubit>) -> Option<McGateDetail>
    decreases ancillas.len(),
{
    if ancillas.len() == 0 {
        None
    } else {
        match ancilla_issue(kind, operands, ancillas.drop_last()) {
            Some(d) => Some(d),
            None => {
                let a = ancillas.last();
                if operands.contains(a) {
                    Some(McGateDetail::AncillaOverlap { kind, qubit: a })
                } else if ancillas.drop_last().contains(a) {
                    Some(McGateDetail::AncillaDuplicate { kind, qubit: a })
                } else {
                    None
                }
            },
        }
    }
}

/// The first validation failure of an MCGate operation, in checking order.
pub open spec fn validation_issue(gate: McGate, qubits: Seq<Qubit>, params: Seq<CircuitParam>, c: LoweringConfig) -> Option<McGateDetail> {
    let total = mc_gate_control_count(gate);
    let target_count = gate_qubit_count(gate.base) - gate_control_count(gate.base);
    if qubits.len() != mc_gate_qubit_count(gate) {
        Some(McGateDetail::QubitCountMismatch { expected: mc_gate_qubit_count(gate) as usize, got: qubits.len() as usize })
    } else if params.len() != gate_param_count(gate.base) {
        Some(McGateDetail::ParamCountMismatch { expected: gate_param_count(gate.base) as usize, got: params.len() as usize })
    } else if gate.base == StandardGate::GPhase && total > 0 {
        Some(McGateDetail::ControlledGPhase)
    } else if target_count == 0 && total > 0 {
        Some(McGateDetail::TargetlessControlled)
    } else if first_duplicate(qubits) is Some {
        Some(McGateDetail::DuplicateOperand(first_duplicate(qubits)->0))
    } else {
        match c.mode {
            AncillaMode::NoAncilla => None,
            AncillaMode::CleanAncilla => ancilla_issue(AncillaKind::Clean, qubits, c.clean),
            AncillaMode::DirtyAncilla => ancilla_issue(AncillaKind::Dirty, qubits, c.dirty),
        }
    }
}

/// Recursion rank of a base gate: lowering a gate only re-enters the
/// decomposition for gates of lower rank.
pub open spec fn gate_rank(base: StandardGate) -> nat {
    match family_of(base) {
        McGateFamily::Rotation => match base {
            StandardGate::RZ | StandardGate::CRZ => 0,
            _ => 1,
        },
        McGateFamily::OneQubit => 2,
        McGateFamily::PauliInteraction => 3,
        McGateFamily::Fsim => 4,
        _ => 0,
    }
}

/// Result of decomposing an MCGate.
pub open spec fn mc_gate_result(gate: McGate, qubits: Seq<Qubit>, params: Seq<CircuitParam>, c: LoweringConfig) -> Result<Seq<OpView>, McGateFailure>
    decreases gate_rank(gate.base), 2nat, 0nat,
{
    match validation_issue(gate, qubits, params, c) {
        Some(detail) => Err(McGateFailure { detail, context: gate_context(gate, params, c) }),
        None => {
            let m = operand_model(gate, qubits, params);
            match family_of(gate.base) {
                McGateFamily::Identity => Ok(seq![]),
                McGateFamily::Pauli => pauli_family(m, c),
                McGateFamily::Phase => phase_family(m, params, c),
                McGateFamily::Rotation => if gate.base == StandardGate::RZ || gate.base == StandardGate::CRZ {
                    rz_family(m, params, c)
                } else {
                    rx_ry_family(m, params, c)
                },
                McGateFamily::OneQubit => one_qubit_family(m, params, c),
                McGateFamily::Swap => swap_family(m, c),
                McGateFamily::PauliInteraction => pauli_interaction_family(m, params, c),
                McGateFamily::Fsim => fsim_family(m, params, c),
                family => view_failure(m, c, McGateDetail::FamilyNotImplemented(family)),
            }
        },
    }
}

/// Whether a lowering result matches its specification.
pub open spec fn lowered(r: Result<Vec<Operation>, CompilerError>, expected: Result<Seq<OpView>, McGateFailure>) -> bool {
    match expected {
        Ok(ops) => r matches Ok(v) && ops_view(v@) == ops,
        Err(f) => r matches Err(CompilerError::McGateFailed(g)) && g == f,
    }
}

/// Read-only partition of MCGate operation operands.
#[derive(Debug)]
pub struct McGateOperandView<'a> {
    base_gate: StandardGate,
    added_controls: &'a [Qubit],
    inherent_controls: &'a [Qubit],
    targets: &'a [Qubit],
    all_controls: Vec<Qubit>,
    has_symbolic_params: bool,
}

impl<'a> View for McGateOperandView<'a> {
    type V = OperandModel;

    closed spec fn view(&self) -> OperandModel {
        OperandModel {
            base: self.base_gate,
            added: self.added_controls@,
            inherent: self.inherent_controls@,
            targets: self.targets@,
            controls: self.all_controls@,
            symbolic: self.has_symbolic_params,
        }
    }
}

/// Whether a parameter list holds a parameter-table index.
fn any_symbolic(params: &[CircuitParam]) -> (r: bool)
    ensures
        r == has_symbolic(params@),
{
    let mut i: usize = 0;
    while i < params.len()
        invariant
            i <= params.len(),
            forall|j: int| 0 <= j < i ==> !(params@[j] is Index),
        decreases params.len() - i,
    {
        if let CircuitParam::Index(_) = params[i] {
            return true;
        }
        i = i + 1;
    }
    false
}

/// Failure context of an MCGate, built before its operands are partitioned.
fn gate_failure(gate: &McGate, params: &[CircuitParam], config: &McGateDecomposeConfig, detail: McGateDetail) -> (r: CompilerError)
    ensures
        r == CompilerError::McGateFailed(McGateFailure { detail, context: gate_context(*gate, params@, lowering_config(*config)) }),
{
    let symbolic = any_symbolic(params);
    CompilerError::McGateFailed(McGateFailure {
        detail,
        context: McGateContext {
            base_gate: gate.base,
            added_control_count: gate.added_controls as usize,
            control_count: gate.num_ctrl_qubits(),
            parameter_mode: if symbolic { ParameterMode::Symbolic } else { ParameterMode::Fixed },
            strategy: config.ancilla_mode,
        },
    })
}

/// The first work qubit that overlaps the operands or repeats an earlier one.
fn find_ancilla_issue(kind: AncillaKind, operands: &[Qubit], ancillas: &[Qubit]) -> (r: Option<McGateDetail>)
    ensures
        r == ancilla_issue(kind, operands@, ancillas@),
{
    let mut i: usize = 0;
    while i < ancillas.len()
        invariant
            i <= ancillas.len(),
            ancilla_issue(kind, operands@, ancillas@.subrange(0, i as int)) is None,
        decreases ancillas.len() - i,
    {
        let a = ancillas[i];
        let ghost prefix = ancillas@.subrange(0, i as int);
        let ghost next = ancillas@.subrange(0, i + 1);
        proof {
            assert(next.drop_last() =~= prefix);
            assert(next.last() == a);
        }
        let mut overlap = false;
        let mut j: usize = 0;
        while j < operands.len()
            invariant
                j <= operands.len(),
                overlap <==> exists|k: int| 0 <= k < j && operands@[k] == a,
            decreases operands.len() - j,
        {
            if operands[j] == a {
                overlap = true;
            }
            j = j + 1;
        }
        if overlap {
            proof {
                let k = choose|k: int| 0 <= k < operands.len() && operands@[k] == a;
                assert(operands@.contains(a));
                lemma_ancilla_issue_extends(kind, operands@, ancillas@, i as int + 1);
            }
            return Some(McGateDetail::AncillaOverlap { kind, qubit: a });
        }
        let mut repeated = false;
        let mut k: usize = 0;
        while k < i
            invariant
                k <= i < ancillas.len(),
                repeated <==> exists|t: int| 0 <= t < k && ancillas@[t] == a,
            decreases i - k,
        {
            if ancillas[k] == a {
                repeated = true;
            }
            k = k + 1;
        }
        proof {
            if !overlap {
                assert(!operands@.contains(a));
            }
            if repeated {
                let t = choose|t: int| 0 <= t < i && ancillas@[t] == a;
                assert(prefix[t] == a);
                assert(prefix.contains(a));
            } else {
                assert(!prefix.contains(a));
            }
        }
        if repeated {
            proof {
                lemma_ancilla_issue_extends(kind, operands@, ancillas@, i as int + 1);
            }
            return Some(McGateDetail::AncillaDuplicate { kind, qubit: a });
        }
        i = i + 1;
    }
    proof {
        assert(ancillas@.subrange(0, ancillas@.len() as int) =~= ancillas@);
    }
    None
}

/// Once a prefix of the work qubits shows an issue, the whole list reports the same one.
proof fn lemma_ancilla_issue_extends(kind: AncillaKind, operands: Seq<Qubit>, ancillas: Seq<Qubit>, n: int)
    requires
        0 <= n <= ancillas.len(),
        ancilla_issue(kind, operands, ancillas.subrange(0, n)) is Some,
    ensures
        ancilla_issue(kind, operands, ancillas) == ancilla_issue(kind, operands, ancillas.subrange(0, n)),
    decreases ancillas.len() - n,
{
    if n < ancillas.len() {
        let next = ancillas.subrange(0, n + 1);
        assert(next.drop_last() =~= ancillas.subrange(0, n));
        lemma_ancilla_issue_extends(kind, operands, ancillas, n + 1);
    } else {
        assert(ancillas.subrange(0, n) =~= ancillas);
    }
}

impl<'a> McGateOperandView<'a> {
    /// Builds an operand view after arity and resource validation.
    pub fn new(gate: &McGate, qubits: &'a [Qubit], params: &[CircuitParam], config: &McGateDecomposeConfig) -> (r: Result<McGateOperandView<'a>, CompilerError>)
        ensures
            match validation_issue(*gate, qubits@, params@, lowering_config(*config)) {
                Some(detail) => r matches Err(e) && e == CompilerError::McGateFailed(
                    McGateFailure { detail, context: gate_context(*gate, params@, lowering_config(*config)) },
                ),
                None => r matches Ok(v) && v@ == operand_model(*gate, qubits@, params@),
            },
    {
        let expected_qubits = gate.num_qubits();
        if qubits.len() != expected_qubits {
            return Err(gate_failure(gate, params, config, McGateDetail::QubitCountMismatch { expected: expected_qubits, got: qubits.len() }));
        }
        let expected_params = gate.num_params();
        if params.len() != expected_params {
            return Err(gate_failure(gate, params, config, McGateDetail::ParamCountMismatch { expected: expected_params, got: params.len() }));
        }
        let base_gate = gate.base;
        let base_control_count = base_gate.num_ctrl_qubits();
        let base_qubit_count = base_gate.num_qubits();
        let target_count = base_qubit_count - base_control_count;
        let added_control_count = qubits.len() - base_qubit_count;
        let total_controls = added_control_count + base_control_count;
        if base_gate == StandardGate::GPhase && total_controls > 0 {
            return Err(gate_failure(gate, params, config, McGateDetail::ControlledGPhase));
        }
        if target_count == 0 && total_controls > 0 {
            return Err(gate_failure(gate, params, config, McGateDetail::TargetlessControlled));
        }
        if let Some(q) = find_duplicate(qubits) {
            return Err(gate_failure(gate, params, config, McGateDetail::DuplicateOperand(q)));
        }
        let issue = match config.ancilla_mode {
            AncillaMode::NoAncilla => None,
            AncillaMode::CleanAncilla => find_ancilla_issue(AncillaKind::Clean, qubits, config.clean_ancillas.as_slice()),
            AncillaMode::DirtyAncilla => find_ancilla_issue(AncillaKind::Dirty, qubits, config.dirty_ancillas.as_slice()),
        };
        if let Some(detail) = issue {
            return Err(gate_failure(gate, params, config, detail));
        }
        let added_controls = vstd::slice::slice_subrange(qubits, 0, added_control_count);
        let inherent_controls = vstd::slice::slice_subrange(qubits, added_control_count, total_controls);
        let targets = vstd::slice::slice_subrange(qubits, total_controls, qubits.len());
        let all_controls = copy_range(qubits, 0, total_controls);
        Ok(McGateOperandView {
            base_gate,
            added_controls,
            inherent_controls,
            targets,
            all_controls,
            has_symbolic_params: any_symbolic(params),
        })
    }

    /// Returns the unchanged base gate.
    pub fn base_gate(&self) -> (r: StandardGate)
        ensures
            r == self@.base,
    {
        self.base_gate
    }

    /// Returns the family selected for the base gate.
    pub fn family(&self) -> (r: McGateFamily)
        ensures
            r == family_of(self@.base),
    {
        McGateFamily::classify(self.base_gate)
    }

    /// Returns the controls added by the MCGate wrapper.
    pub fn added_controls(&self) -> (r: &'a [Qubit])
        ensures
            r@ == self@.added,
    {
        self.added_controls
    }

    /// Returns the controls inherent to the base gate.
    pub fn inherent_controls(&self) -> (r: &'a [Qubit])
        ensures
            r@ == self@.inherent,
    {
        self.inherent_controls
    }

    /// Returns the target operands of the base gate.
    pub fn targets(&self) -> (r: &'a [Qubit])
        ensures
            r@ == self@.targets,
    {
        self.targets
    }

    /// Returns the added controls followed by the inherent controls.
    pub fn all_controls(&self) -> (r: &[Qubit])
        ensures
            r@ == self@.controls,
    {
        self.all_controls.as_slice()
    }

    /// Returns the total number of added and inherent controls.
    pub fn total_control_count(&self) -> (r: usize)
        ensures
            r == self@.controls.len(),
    {
        self.all_controls.len()
    }

    /// Whether some parameter is a parameter-table index.
    pub fn has_symbolic_params(&self) -> (r: bool)
        ensures
            r == self@.symbolic,
    {
        self.has_symbolic_params
    }
}

/// A family failure with the view's context.
pub fn view_error(view: &McGateOperandView, config: &McGateDecomposeConfig, detail: McGateDetail) -> (r: CompilerError)
    ensures
        r == CompilerError::McGateFailed(McGateFailure { detail, context: view_context(view@, lowering_config(*config)) }),
{
    CompilerError::McGateFailed(McGateFailure {
        detail,
        context: McGateContext {
            base_gate: view.base_gate(),
            added_control_count: view.added_controls().len(),
            control_count: view.total_control_count(),
            parameter_mode: if view.has_symbolic_params() { ParameterMode::Symbolic } else { ParameterMode::Fixed },
            strategy: config.ancilla_mode,
        },
    })
}

/// A nested lowering failure, keeping the inner failure's context.
pub open spec fn nested_failure(step: NestedStep, inner: McGateFailure) -> McGateFailure {
    McGateFailure { detail: McGateDetail::Nested { step, inner: Box::new(inner) }, context: inner.context }
}

/// Lowering of a lifted gate of rank below `bound`, failures wrapped as
/// nested failures of `step`.
pub open spec fn lifted_result(bound: nat, gate: McGate, qubits: Seq<Qubit>, params: Seq<CircuitParam>, c: LoweringConfig, step: NestedStep) -> Result<Seq<OpView>, McGateFailure>
    decreases bound, 0nat, 0nat,
{
    if gate_rank(gate.base) < bound {
        match mc_gate_result(gate, qubits, params, c) {
            Err(f) => Err(nested_failure(step, f)),
            Ok(ops) => Ok(ops),
        }
    } else {
        Ok(seq![])
    }
}

/// Lowers a lifted gate of rank below `bound`, wrapping failures as nested
/// failures of `step`.
pub fn decompose_lifted(bound: usize, gate: &McGate, qubits: &[Qubit], params: &[CircuitParam], config: &McGateDecomposeConfig, step: NestedStep) -> (r: Result<Vec<Operation>, CompilerError>)
    requires
        gate_rank(gate.base) < bound,
    ensures
        lowered(r, lifted_result(bound as nat, *gate, qubits@, params@, lowering_config(*config), step)),
    decreases bound, 0nat, 0nat,
{
    match decompose_mc_gate(gate, qubits, params, config) {
        Ok(ops) => Ok(ops),
        Err(e) => {
            let inner = match e {
                CompilerError::McGateFailed(f) => f,
                _ => return Err(e),
            };
            let context = inner.context;
            Err(CompilerError::McGateFailed(McGateFailure {
                detail: McGateDetail::Nested { step, inner: Box::new(inner) },
                context,
            }))
        },
    }
}

/// Result of the operation-level adapter: whether the operation was replaced,
/// and the operations to emit in its place.
pub open spec fn operation_result(op: OpView, c: LoweringConfig, skip_labeled: bool) -> Result<(bool, Seq<OpView>), McGateFailure> {
    match op.instruction {
        Instruction::McGate(gate) => if op.label is Some && skip_labeled {
            Ok((false, seq![op]))
        } else {
            match mc_gate_result(gate, op.qubits, op.params, c) {
                Ok(ops) => Ok((true, ops)),
                Err(f) => Err(f),
            }
        },
        _ => Ok((false, seq![op])),
    }
}

/// Decomposes one operation when it holds an MCGate instruction; any other
/// operation, and a labeled one while labeled operations are skipped, is
/// returned unchanged.
pub fn decompose_mc_gate_operation(operation: &Operation, config: &McGateDecomposeConfig) -> (r: Result<McGateOperationDecomposeResult, CompilerError>)
    ensures
        match operation_result(op_view(*operation), lowering_config(*config), config.skip_labeled_ops) {
            Ok((changed, ops)) => r matches Ok(res) && res.changed == changed && ops_view(res.operations@) == ops
                && res.notes@.len() == 0,
            Err(f) => r matches Err(CompilerError::McGateFailed(g)) && g == f,
        },
{
    let gate = match operation.instruction {
        Instruction::McGate(gate) => gate,
        _ => {
            let copy = copy_operation(operation);
            let operations = vec![copy];
            proof {
                assert(ops_view(operations@) =~= seq![op_view(*operation)]);
            }
            return Ok(McGateOperationDecomposeResult { changed: false, operations, notes: Vec::new() });
        },
    };
    if operation.label.is_some() && config.skips_labeled_ops() {
        let copy = copy_operation(operation);
        let operations = vec![copy];
        proof {
            assert(ops_view(operations@) =~= seq![op_view(*operation)]);
        }
        return Ok(McGateOperationDecomposeResult { changed: false, operations, notes: Vec::new() });
    }
    match decompose_mc_gate(&gate, operation.qubits.as_slice(), operation.params.as_slice(), config) {
        Ok(operations) => Ok(McGateOperationDecomposeResult { changed: true, operations, notes: Vec::new() }),
        Err(e) => Err(e),
    }
}

/// Decomposes an MCGate into standard operations: validates the operands,
/// partitions them, classifies the family, and dispatches to its lowering.
pub fn decompose_mc_gate(gate: &McGate, qubits: &[Qubit], params: &[CircuitParam], config: &McGateDecomposeConfig) -> (r: Result<Vec<Operation>, CompilerError>)
    ensures
        lowered(r, mc_gate_result(*gate, qubits@, params@, lowering_config(*config))),
        r matches Ok(v) ==> standard_only(ops_view(v@)),
        r matches Ok(v) ==> confined(ops_view(v@), lowering_pool(qubits@, lowering_config(*config))),
    decreases gate_rank(gate.base), 2nat, 1nat,
{
    let r = dispatch_mc_gate(gate, qubits, params, config);
    proof {
        lemma_lowering_emits_standard_gates(*gate, qubits@, params@, lowering_config(*config));
        lemma_lowering_touches_only_operands_and_ancillas(*gate, qubits@, params@, lowering_config(*config));
    }
    r
}

/// Validates, partitions, classifies, and dispatches an MCGate to its
/// family's lowering.
fn dispatch_mc_gate(gate: &McGate, qubits: &[Qubit], params: &[CircuitParam], config: &McGateDecomposeConfig) -> (r: Result<Vec<Operation>, CompilerError>)
    ensures
        lowered(r, mc_gate_result(*gate, qubits@, params@, lowering_config(*config))),
    decreases gate_rank(gate.base), 2nat, 0nat,
{
    let view = match McGateOperandView::new(gate, qubits, params, config) {
        Ok(view) => view,
        Err(e) => return Err(e),
    };
    proof {
        assert(view@.controls.len() <= 257);
        assert(model_ok(view@));
    }
    match view.family() {
        McGateFamily::Identity => {
            let operations: Vec<Operation> = Vec::new();
            proof {
                assert(ops_view(operations@) =~= Seq::<OpView>::empty());
            }
            Ok(operations)
        },
        McGateFamily::Pauli => decompose_pauli_family(&view, config),
        McGateFamily::Phase => decompose_phase_family(&view, params, config),
        McGateFamily::Rotation => {
            let base = view.base_gate();
            if base == StandardGate::RZ || base == StandardGate::CRZ {
                decompose_rz_family(&view, params, config)
            } else {
                decompose_rx_ry_family(&view, params, config)
            }
        },
        McGateFamily::OneQubit => decompose_one_qubit_family(&view, params, config),
        McGateFamily::Swap => decompose_swap_family(&view, config),
        McGateFamily::PauliInteraction => decompose_pauli_interaction_family(&view, params, config),
        McGateFamily::Fsim => decompose_fsim_family(&view, params, config),
        family => Err(view_error(&view, config, McGateDetail::FamilyNotImplemented(family))),
    }
}

} // verus!
