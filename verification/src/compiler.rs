//! Compiler context and transform outcomes shared by the transforms.
use crate::circuit::{Circuit, Instruction};
use vstd::prelude::*;

verus! {

/// Target device: the instructions it executes natively.
#[derive(Debug)]
pub struct Device {
    pub native_gates: Vec<Instruction>,
}

/// The state a transform reads and rewrites: the circuit, an optional
/// target device, and a revision counter bumped by every change.
#[derive(Debug)]
pub struct CompilerContext {
    pub circuit: Circuit,
    pub device: Option<Device>,
    pub revision: u64,
}

impl CompilerContext {
    /// A context over `circuit` with no device, at revision 0.
    pub fn new(circuit: Circuit) -> (r: CompilerContext)
        ensures
            r.circuit == circuit,
            r.device is None,
            r.revision == 0,
    {
        CompilerContext { circuit, device: None, revision: 0 }
    }

    /// A context over `circuit` targeting `device`, at revision 0.
    pub fn with_device(circuit: Circuit, device: Device) -> (r: CompilerContext)
        ensures
            r.circuit == circuit,
            r.device == Some(device),
            r.revision == 0,
    {
        CompilerContext { circuit, device: Some(device), revision: 0 }
    }

    /// The circuit.
    pub fn circuit(&self) -> (r: &Circuit)
        ensures
            r == &self.circuit,
    {
        &self.circuit
    }

    /// The revision counter.
    pub fn revision(&self) -> (r: u64)
        ensures
            r == self.revision,
    {
        self.revision
    }

    /// Records one change: the revision advances, saturating at its maximum.
    pub fn bump_revision(&mut self)
        ensures
            final(self).circuit == old(self).circuit,
            final(self).device == old(self).device,
            final(self).revision == if old(self).revision < u64::MAX { old(self).revision + 1 } else { old(self).revision as int },
    {
        if self.revision < u64::MAX {
            self.revision = self.revision + 1;
        }
    }
}

/// What a transform changed in the context.
#[derive(Clone, Copy, Debug, PartialEq, Eq, Hash, Structural)]
pub struct ContextChangeSet {
    pub circuit_changed: bool,
    pub cfg_structure_changed: bool,
    pub parameter_table_changed: bool,
}

/// A note a transform attaches to its outcome.
#[derive(Clone, Debug, PartialEq, Eq)]
pub enum TransformNote {
    /// `decompose.mc_gate: lowered {operations} MCGate operations into
    /// {replacements} standard operations across {sequences} changed sequences`
    McGateLowered { operations: usize, replacements: usize, sequences: usize },
    /// `canonicalize: normalized symbolic parameters and global phase`
    ParametersNormalized,
    /// `canonicalize: canonicalized instruction forms, barriers, and trivial no-ops`
    StructureCanonicalized,
    /// `canonicalize: reached round limit after {rounds} rounds before proving stability`
    RoundLimitReached { rounds: u8 },
}

/// Severity of a compiler diagnostic.
#[derive(Clone, Copy, Debug, PartialEq, Eq, Hash, Structural)]
pub enum DiagnosticSeverity {
    Warning,
}

/// Code of a compiler diagnostic.
#[derive(Clone, Copy, Debug, PartialEq, Eq, Hash, Structural)]
pub enum DiagnosticCode {
    /// `compiler.canonicalize.round_limit_reached`
    CanonicalizeRoundLimitReached,
}

/// A diagnostic attached to a transform outcome.
#[derive(Clone, Copy, Debug, PartialEq, Eq, Hash, Structural)]
pub struct CompileDiagnostic {
    pub severity: DiagnosticSeverity,
    pub code: DiagnosticCode,
    /// Rounds executed before the diagnostic was raised.
    pub rounds: u8,
}

/// Outcome of one transform run.
#[derive(Debug)]
pub struct TransformOutcome {
    pub changed: bool,
    pub changes: ContextChangeSet,
    pub notes: Vec<TransformNote>,
    pub diagnostics: Vec<CompileDiagnostic>,
}

impl TransformOutcome {
    /// An outcome reporting no change.
    pub fn unchanged() -> (r: TransformOutcome)
        ensures
            !r.changed,
            r.changes == (ContextChangeSet { circuit_changed: false, cfg_structure_changed: false, parameter_table_changed: false }),
            r.notes@.len() == 0,
            r.diagnostics@.len() == 0,
    {
        TransformOutcome {
            changed: false,
            changes: ContextChangeSet { circuit_changed: false, cfg_structure_changed: false, parameter_table_changed: false },
            notes: Vec::new(),
            diagnostics: Vec::new(),
        }
    }
}

/// Static description of a transform.
#[derive(Clone, Copy, Debug, PartialEq, Eq)]
pub struct TransformDescriptor {
    pub name: &'static str,
    pub description: &'static str,
    pub requires_device: bool,
    pub requires_layout: bool,
    pub supports_control_flow: bool,
    pub supports_symbolic_parameters: bool,
    pub modifies_circuit: bool,
}

} // verus!
