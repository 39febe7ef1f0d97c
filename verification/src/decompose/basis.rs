//! Target-basis decomposition: configuration and the choice of target gates.
//!
//! The target standard-gate basis is the configured one when present, and
//! otherwise the distinct standard gates the device executes natively.
use crate::circuit::{Instruction, StandardGate};
use crate::compiler::{CompilerContext, Device, TransformDescriptor};
use crate::error::{CompilerError, ContextIssue};
use vstd::prelude::*;

verus! {

/// Configuration of the target-basis decomposer.
#[derive(Clone, Debug, PartialEq, Eq)]
pub struct DecomposeConfig {
    target_gates: Option<Vec<StandardGate>>,
    max_rounds: u8,
    recurse_control_flow: bool,
    skip_labeled_ops: bool,
}

/// Abstract content of a decomposer configuration.
pub struct DecomposeSettings {
    pub target_gates: Option<Seq<StandardGate>>,
    pub max_rounds: u8,
    pub recurse_control_flow: bool,
    pub skip_labeled_ops: bool,
}

/// The default settings: no explicit basis, 8 rounds, control flow
/// recursed, labeled operations skipped.
pub open spec fn default_decompose_settings() -> DecomposeSettings {
    DecomposeSettings { target_gates: None, max_rounds: 8, recurse_control_flow: true, skip_labeled_ops: true }
}

impl View for DecomposeConfig {
    type V = DecomposeSettings;

    closed spec fn view(&self) -> DecomposeSettings {
        DecomposeSettings {
            target_gates: match self.target_gates {
                Some(v) => Some(v@),
                None => None,
            },
            max_rounds: self.max_rounds,
            recurse_control_flow: self.recurse_control_flow,
            skip_labeled_ops: self.skip_labeled_ops,
        }
    }
}

/// The distinct elements of `gates` in first-occurrence order.
pub open spec fn dedup_gates_spec(gates: Seq<StandardGate>) -> Seq<StandardGate>
    decreases gates.len(),
{
    if gates.len() == 0 {
        seq![]
    } else {
        let kept = dedup_gates_spec(gates.drop_last());
        if kept.contains(gates.last()) { kept } else { kept.push(gates.last()) }
    }
}

/// Keeps the first occurrence of every gate.
fn dedup_gates(gates: Vec<StandardGate>) -> (r: Vec<StandardGate>)
    ensures
        r@ == dedup_gates_spec(gates@),
{
    let mut deduped: Vec<StandardGate> = Vec::new();
    let mut i: usize = 0;
    while i < gates.len()
        invariant
            i <= gates@.len(),
            deduped@ == dedup_gates_spec(gates@.subrange(0, i as int)),
        decreases gates@.len() - i,
    {
        let gate = gates[i];
        let mut present = false;
        let mut j: usize = 0;
        while j < deduped.len()
            invariant
                j <= deduped@.len(),
                present <==> exists|t: int| 0 <= t < j && deduped@[t] == gate,
            decreases deduped@.len() - j,
        {
            if deduped[j] == gate {
                present = true;
            }
            j = j + 1;
        }
        proof {
            let next = gates@.subrange(0, i + 1);
            assert(next.drop_last() =~= gates@.subrange(0, i as int));
            assert(next.last() == gate);
            if present {
                let t = choose|t: int| 0 <= t < deduped@.len() && deduped@[t] == gate;
                assert(deduped@.contains(gate));
            } else {
                assert(!deduped@.contains(gate));
            }
        }
        if !present {
            deduped.push(gate);
        }
        i = i + 1;
    }
    proof {
        assert(gates@.subrange(0, gates@.len() as int) =~= gates@);
    }
    deduped
}

impl Default for DecomposeConfig {
    fn default() -> (r: DecomposeConfig)
        ensures
            r@ == default_decompose_settings(),
    {
        DecomposeConfig { target_gates: None, max_rounds: 8, recurse_control_flow: true, skip_labeled_ops: true }
    }
}

impl DecomposeConfig {
    /// A configuration with the defaults.
    pub fn new() -> (r: DecomposeConfig)
        ensures
            r@ == default_decompose_settings(),
    {
        DecomposeConfig::default()
    }

    /// Sets an explicit target basis, keeping the first occurrence of each gate.
    pub fn with_target_gates(self, target_gates: Vec<StandardGate>) -> (r: DecomposeConfig)
        ensures
            r@ == (DecomposeSettings { target_gates: Some(dedup_gates_spec(target_gates@)), ..self@ }),
    {
        DecomposeConfig { target_gates: Some(dedup_gates(target_gates)), ..self }
    }

    /// Sets the maximum number of rewrite rounds (zero is rejected when the decomposer runs).
    pub fn with_max_rounds(self, max_rounds: u8) -> (r: DecomposeConfig)
        ensures
            r@ == (DecomposeSettings { max_rounds, ..self@ }),
    {
        DecomposeConfig { max_rounds, ..self }
    }

    /// Records whether control-flow bodies are to be decomposed. The circuit
    /// model of this library holds no control-flow instruction, so the
    /// setting is kept and reported but changes no result.
    pub fn recurse_control_flow(self, enabled: bool) -> (r: DecomposeConfig)
        ensures
            r@ == (DecomposeSettings { recurse_control_flow: enabled, ..self@ }),
    {
        DecomposeConfig { recurse_control_flow: enabled, ..self }
    }

    /// Controls whether labeled operations are protected from decomposition.
    pub fn skip_labeled_ops(self, enabled: bool) -> (r: DecomposeConfig)
        ensures
            r@ == (DecomposeSettings { skip_labeled_ops: enabled, ..self@ }),
    {
        DecomposeConfig { skip_labeled_ops: enabled, ..self }
    }

    /// The explicit target basis, if configured.
    pub fn target_gates(&self) -> (r: Option<&[StandardGate]>)
        ensures
            match self@.target_gates {
                Some(g) => r matches Some(s) && s@ == g,
                None => r is None,
            },
    {
        match &self.target_gates {
            Some(v) => Some(v.as_slice()),
            None => None,
        }
    }

    /// The maximum number of rewrite rounds.
    pub fn max_rounds(&self) -> (r: u8)
        ensures
            r == self@.max_rounds,
    {
        self.max_rounds
    }

    /// The recorded control-flow setting; it changes no result, as the
    /// circuit model holds no control-flow bodies.
    pub fn recurses_control_flow(&self) -> (r: bool)
        ensures
            r == self@.recurse_control_flow,
    {
        self.recurse_control_flow
    }

    /// Whether labeled operations are protected from decomposition.
    pub fn skips_labeled_ops(&self) -> (r: bool)
        ensures
            r == self@.skip_labeled_ops,
    {
        self.skip_labeled_ops
    }
}

/// The distinct standard gates among `natives`, in first-occurrence order.
pub open spec fn native_standard_gates(natives: Seq<Instruction>) -> Seq<StandardGate>
    decreases natives.len(),
{
    if natives.len() == 0 {
        seq![]
    } else {
        let kept = native_standard_gates(natives.drop_last());
        match natives.last() {
            Instruction::Standard(g) => if kept.contains(g) { kept } else { kept.push(g) },
            _ => kept,
        }
    }
}

/// The target basis the decomposer lowers toward, or why there is none.
pub open spec fn target_basis(settings: DecomposeSettings, device: Option<Seq<Instruction>>) -> Result<Seq<StandardGate>, CompilerError> {
    if settings.max_rounds == 0 {
        Err(CompilerError::InvalidContextState(ContextIssue::ZeroMaxRounds))
    } else {
        let gates = match settings.target_gates {
            Some(g) => Ok(g),
            None => match device {
                None => Err(CompilerError::MissingDevice),
                Some(natives) => Ok(native_standard_gates(natives)),
            },
        };
        match gates {
            Err(e) => Err(e),
            Ok(g) => if g.len() == 0 {
                Err(CompilerError::InvalidContextState(ContextIssue::EmptyTargetGateSet))
            } else {
                Ok(g)
            },
        }
    }
}

/// The native gate list of an optional device.
pub open spec fn device_natives(device: Option<Device>) -> Option<Seq<Instruction>> {
    match device {
        Some(d) => Some(d.native_gates@),
        None => None,
    }
}

/// Collects the distinct standard gates a device executes natively.
fn collect_native_standard_gates(natives: &Vec<Instruction>) -> (r: Vec<StandardGate>)
    ensures
        r@ == native_standard_gates(natives@),
{
    let mut gates: Vec<StandardGate> = Vec::new();
    let mut i: usize = 0;
    while i < natives.len()
        invariant
            i <= natives@.len(),
            gates@ == native_standard_gates(natives@.subrange(0, i as int)),
        decreases natives@.len() - i,
    {
        proof {
            let next = natives@.subrange(0, i + 1);
            assert(next.drop_last() =~= natives@.subrange(0, i as int));
        }
        if let Instruction::Standard(gate) = natives[i] {
            let mut present = false;
            let mut j: usize = 0;
            while j < gates.len()
                invariant
                    j <= gates@.len(),
                    present <==> exists|t: int| 0 <= t < j && gates@[t] == gate,
                decreases gates@.len() - j,
            {
                if gates[j] == gate {
                    present = true;
                }
                j = j + 1;
            }
            proof {
                if present {
                    let t = choose|t: int| 0 <= t < gates@.len() && gates@[t] == gate;
                    assert(gates@.contains(gate));
                } else {
                    assert(!gates@.contains(gate));
                }
            }
            if !present {
                gates.push(gate);
            }
        }
        i = i + 1;
    }
    proof {
        assert(natives@.subrange(0, natives@.len() as int) =~= natives@);
    }
    gates
}

/// Transform that lowers standard gates toward a target standard-gate basis.
#[derive(Clone, Debug)]
pub struct Decomposer {
    config: DecomposeConfig,
}

/// The descriptor of the target-basis decomposer.
pub fn decomposer_descriptor() -> (r: TransformDescriptor)
    ensures
        !r.requires_device && !r.requires_layout && r.supports_control_flow && r.supports_symbolic_parameters
            && r.modifies_circuit,
{
    TransformDescriptor {
        name: "decompose.basis",
        description: "Decomposes gates toward a target standard-gate basis",
        requires_device: false,
        requires_layout: false,
        supports_control_flow: true,
        supports_symbolic_parameters: true,
        modifies_circuit: true,
    }
}

impl Default for Decomposer {
    fn default() -> (r: Decomposer)
        ensures
            r.settings() == default_decompose_settings(),
    {
        Decomposer { config: DecomposeConfig::default() }
    }
}

impl Decomposer {
    /// A decomposer with the given configuration.
    pub fn new(config: DecomposeConfig) -> (r: Decomposer)
        ensures
            r.settings() == config@,
    {
        Decomposer { config }
    }

    /// The configuration's settings, for specifications.
    pub closed spec fn settings(&self) -> DecomposeSettings {
        self.config@
    }

    /// Returns the active configuration.
    pub fn config(&self) -> (r: &DecomposeConfig)
        ensures
            r@ == self.settings(),
    {
        &self.config
    }

    /// The transform's descriptor.
    pub fn descriptor(&self) -> (r: TransformDescriptor)
        ensures
            r.modifies_circuit,
    {
        decomposer_descriptor()
    }

    /// The target standard-gate basis for a context: the configured basis,
    /// or else the distinct native standard gates of the context's device.
    pub fn target_basis(&self, ctx: &CompilerContext) -> (r: Result<Vec<StandardGate>, CompilerError>)
        ensures
            match target_basis(self.settings(), device_natives(ctx.device)) {
                Ok(g) => r matches Ok(v) && v@ == g,
                Err(e) => r == Err::<Vec<StandardGate>, CompilerError>(e),
            },
    {
        if self.config.max_rounds() == 0 {
            return Err(CompilerError::InvalidContextState(ContextIssue::ZeroMaxRounds));
        }
        let gates = match self.config.target_gates() {
            Some(g) => vstd::slice::slice_to_vec(g),
            None => match &ctx.device {
                None => return Err(CompilerError::MissingDevice),
                Some(device) => collect_native_standard_gates(&device.native_gates),
            },
        };
        if gates.len() == 0 {
            return Err(CompilerError::InvalidContextState(ContextIssue::EmptyTargetGateSet));
        }
        Ok(gates)
    }
}

} // verus!
