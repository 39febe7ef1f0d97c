//! Structured compiler errors.
//!
//! Every failure carries the data its message is made from, so callers can
//! match on the cause and render text where they need it.
use crate::circuit::{Instruction, Qubit, StandardGate};
use crate::decompose::mc_gate::decompose::{AncillaMode, McGateFamily};
use vstd::prelude::*;

verus! {

/// Kind of work qubit a decomposition consumes.
#[derive(Clone, Copy, Debug, PartialEq, Eq, Hash, Structural)]
pub enum AncillaKind {
    Clean,
    Dirty,
}

/// Name of the transform that reported a failure.
#[derive(Clone, Copy, Debug, PartialEq, Eq, Hash, Structural)]
pub enum TransformName {
    /// `decompose.mc_gate`
    McGate,
    /// `decompose.mcx`
    Mcx,
}

/// Causes of failure of the MCX synthesis primitives.
#[derive(Clone, Copy, Debug, PartialEq, Eq, Hash, Structural)]
pub enum McxFailure {
    /// V-chain synthesis got fewer work qubits than it consumes.
    VChainAncillasMissing { kind: AncillaKind, controls: usize, required: usize, got: usize },
    /// Clean-ancilla MCX got fewer clean work qubits than it consumes.
    CleanAncillasMissing { controls: usize, required: usize, got: usize },
    /// Controls, target, and consumed ancillas share a qubit.
    DuplicateQubit(Qubit),
    /// The trivial decomposition was asked for more than two controls.
    TooManyTrivialControls(usize),
    /// The ancilla-free phase polynomial would span too many qubits.
    NoAncillaTooWide { qubits: usize },
    /// The recursive dirty-ancilla MCX would have too many controls.
    DirtyRecursionTooWide { controls: usize },
    /// Inversion met an operation with parameters.
    InversionRequiresParameterFree,
    /// Inversion met an instruction without a parameter-free inverse.
    InversionUnsupported(Instruction),
}

/// Whether an operation's parameters are all fixed.
#[derive(Clone, Copy, Debug, PartialEq, Eq, Hash, Structural)]
pub enum ParameterMode {
    Fixed,
    Symbolic,
}

/// Context appended to every multi-controlled gate failure.
#[derive(Clone, Copy, Debug, PartialEq, Eq, Hash, Structural)]
pub struct McGateContext {
    pub base_gate: StandardGate,
    pub added_control_count: usize,
    pub control_count: usize,
    pub parameter_mode: ParameterMode,
    pub strategy: AncillaMode,
}

/// Family label used in lowering messages.
#[derive(Clone, Copy, Debug, PartialEq, Eq, Hash, Structural)]
pub enum LoweringFamily {
    /// `Pauli`
    Pauli,
    /// `RZ`
    Rz,
    /// `RX/RY`
    RxRy,
    /// `OneQubit`
    OneQubit,
    /// `SWAP`
    Swap,
    /// `PauliInteraction`
    PauliInteraction,
    /// `Phase`
    Phase,
    /// `FSIM`
    Fsim,
}

/// Which MCX cost estimate or lowering step called a primitive.
#[derive(Clone, Copy, Debug, PartialEq, Eq, Hash, Structural)]
pub enum PrimitiveStage {
    /// Lowering of an operation itself.
    Lowering,
    /// Estimating the no-ancilla cost.
    NoAncillaCost,
    /// Estimating the cost of a small dirty-mode MCX.
    SmallDirtyCost,
    /// Estimating the dirty-ancilla cost.
    DirtyCost,
    /// Computing the clean flag of a controlled phase.
    CleanFlag,
}

/// Symbolic parameter paths that would need parameter arithmetic.
#[derive(Clone, Copy, Debug, PartialEq, Eq, Hash, Structural)]
pub enum SymbolicNeed {
    /// RZ conditional phase compensation.
    RzCompensation,
    /// RX/RY basis-change compensation.
    RxRyCompensation,
    /// Numeric one-qubit synthesis.
    NumericSynthesis,
    /// Phase-family angle scaling.
    PhaseScaling,
    /// FSIM-family `phi / 2`.
    FsimHalfPhi,
}

/// Euler rotation of a one-qubit synthesis `RZ(phi) RY(theta) RZ(lambda)`.
#[derive(Clone, Copy, Debug, PartialEq, Eq, Hash, Structural)]
pub enum EulerStep {
    /// `U.RZ(lambda)`
    Lambda,
    /// `U.RY(theta)`
    Theta,
    /// `U.RZ(phi)`
    Phi,
}

/// Step whose nested lowering failed.
#[derive(Clone, Copy, Debug, PartialEq, Eq, Hash, Structural)]
pub enum NestedStep {
    /// RX/RY lowered through a lifted `CRZ`.
    RxRyBasisChange,
    /// A named half rotation (`X2P`, `X2M`, `Y2P`, `Y2M`) lowered as a lifted rotation.
    NamedHalfRotation(StandardGate),
    /// One Euler rotation of a synthesized one-qubit gate.
    EulerRotation(EulerStep),
    /// Control lifting of one base operation of a Pauli interaction.
    PauliInteractionLift(StandardGate),
    /// Control lifting of one base operation of an FSIM body.
    FsimLift(StandardGate),
}

/// Detail of a multi-controlled gate failure.
#[derive(Debug, PartialEq, Eq)]
pub enum McGateDetail {
    QubitCountMismatch { expected: usize, got: usize },
    ParamCountMismatch { expected: usize, got: usize },
    ControlledGPhase,
    TargetlessControlled,
    DuplicateOperand(Qubit),
    AncillaOverlap { kind: AncillaKind, qubit: Qubit },
    AncillaDuplicate { kind: AncillaKind, qubit: Qubit },
    FamilyNotImplemented(McGateFamily),
    WrongTargetCount { family: LoweringFamily, base: StandardGate, expected: usize, got: usize },
    NotInFamily { family: LoweringFamily, base: StandardGate },
    ExpansionOverflow(LoweringFamily),
    ExceedsBudget { family: LoweringFamily, count: usize, max: usize },
    PrimitiveFailed { family: LoweringFamily, stage: PrimitiveStage, source: McxFailure },
    RequiresDirtyAncilla { family: LoweringFamily, controls: usize },
    RecursionTooDeep { family: LoweringFamily, depth: usize, max: usize },
    CleanAncillasMissing { family: LoweringFamily, controls: usize, required: usize, got: usize },
    DirtyUnsupported(LoweringFamily),
    NoAncillaPhaseTooWide { qubits: usize },
    SymbolicUnsupported(SymbolicNeed),
    AngleOutOfRange,
    NoAncillaMultiControlPauliInteraction { controls: usize },
    BudgetUnderflow(LoweringFamily),
    NumericSynthesisRequired(StandardGate),
    Nested { step: NestedStep, inner: Box<McGateFailure> },
}

/// A multi-controlled gate failure with its context.
#[derive(Debug, PartialEq, Eq)]
pub struct McGateFailure {
    pub detail: McGateDetail,
    pub context: McGateContext,
}

/// Causes of an invalid compiler context.
#[derive(Clone, Copy, Debug, PartialEq, Eq, Hash, Structural)]
pub enum ContextIssue {
    /// `canonicalize round_limit must be greater than zero`
    ZeroRoundLimit,
    /// `decompose max_rounds must be greater than zero`
    ZeroMaxRounds,
    /// `decompose target standard gate set is empty`
    EmptyTargetGateSet,
}

/// Causes of input a transform rejects.
#[derive(Clone, Copy, Debug, PartialEq, Eq, Hash, Structural)]
pub enum InputIssue {
    /// An operation refers to a parameter index the circuit does not hold.
    MissingParameterIndex(u32),
    /// Operation `op` refers to a qubit outside the circuit.
    UnknownQubit { op: usize, qubit: Qubit },
    /// Operation `op`, not a barrier, names a qubit twice.
    DuplicateQubit { op: usize, qubit: Qubit },
    /// Operation `op` has the wrong number of qubits for its instruction.
    QubitCountMismatch { op: usize, expected: usize, got: usize },
    /// Operation `op` has the wrong number of parameters for its instruction.
    ParamCountMismatch { op: usize, expected: usize, got: usize },
    /// Barrier `op` carries parameters.
    BarrierParameters { op: usize, got: usize },
    /// Operation `op` refers to a parameter index the circuit does not hold.
    MissingOperationParameter { op: usize, index: u32 },
    /// The two qubits of an interaction are the same qubit.
    InteractionQubitsEqual(Qubit),
    /// An interaction qubit is also a control.
    InteractionQubitInControls(Qubit),
    /// An interaction qubit is also a work qubit.
    InteractionQubitInAncillas(Qubit),
    /// A Phase entry point got a gate other than `S`, `SDG`, `T`, `TDG` or `Phase`.
    NotPhaseGate(StandardGate),
    /// A Pauli-rotation entry point got a gate other than `RXX`, `RYY`, `RZZ` or `RZX`.
    NotPauliRotation(StandardGate),
}

/// Internal invariants a transform found broken.
#[derive(Clone, Copy, Debug, PartialEq, Eq, Hash, Structural)]
pub enum InvariantIssue {
    /// An operation refers to a parameter index the circuit does not hold.
    MissingParameterIndex(u32),
}

/// Errors reported by compiler transforms.
#[derive(Debug, PartialEq, Eq)]
pub enum CompilerError {
    /// The multi-controlled gate lowering failed.
    McGateFailed(McGateFailure),
    /// An MCX synthesis primitive failed.
    McxFailed(McxFailure),
    /// The compiler context cannot be used as given.
    InvalidContextState(ContextIssue),
    /// The input of a transform is invalid.
    InvalidInput(InputIssue),
    /// A transform found one of its invariants broken.
    InvariantViolation(InvariantIssue),
    /// No target device was configured.
    MissingDevice,
}

impl CompilerError {
    /// The transform name reported with a transform failure.
    pub fn transform_name(&self) -> (r: Option<TransformName>)
        ensures
            r == match self {
                CompilerError::McGateFailed(_) => Some(TransformName::McGate),
                CompilerError::McxFailed(_) => Some(TransformName::Mcx),
                _ => None,
            },
    {
        match self {
            CompilerError::McGateFailed(_) => Some(TransformName::McGate),
            CompilerError::McxFailed(_) => Some(TransformName::Mcx),
            _ => None,
        }
    }
}

} // verus!
