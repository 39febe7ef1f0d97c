//! Single-family synthesis entry points over explicit controls, targets and
//! work qubits, without an operation budget.
//!
//! The Phase and FSIM entry points lower the corresponding MCGate. A
//! controlled `RZZ` keeps its two `CX` gates unconditional and controls only
//! the central `RZ(theta)` on the second qubit; the other Pauli rotations
//! conjugate that body by their basis changes on the two qubits.
use crate::circuit::{ops_view, plain, with_params, CircuitParam, McGate, OpView, Operation, Qubit, StandardGate};
use crate::decompose::mc_gate::decompose::{
    decompose_mc_gate, lowering_config, mc_gate_result, AncillaMode, LoweringConfig, McGateDecomposeConfig,
    DEFAULT_MAX_RECURSION_DEPTH,
};
use crate::decompose::mc_gate::phase::phase_member;
use crate::decompose::mc_gate::rx_ry::{half_pi, rotation_op};
use crate::error::{CompilerError, InputIssue};
use crate::semantics::copy_range;
use vstd::prelude::*;

verus! {

/// The settings of the entry points: the given strategy and clean qubits,
/// no borrowed qubits, and no operation cap.
pub open spec fn entry_config(mode: AncillaMode, clean: Seq<Qubit>) -> LoweringConfig {
    LoweringConfig { mode, clean, dirty: seq![], max_ops: usize::MAX, max_depth: DEFAULT_MAX_RECURSION_DEPTH }
}

/// The first `n` work qubits, or all of them when there are fewer: the
/// clean entry points hand on only the work qubits their lowering can
/// consume, so the others are neither checked nor used.
pub open spec fn used_prefix(clean: Seq<Qubit>, n: nat) -> Seq<Qubit> {
    if clean.len() <= n {
        clean
    } else {
        clean.subrange(0, n as int)
    }
}

/// The first `n` work qubits, or all of them when there are fewer.
fn prefix_of(clean: &[Qubit], n: usize) -> (r: &[Qubit])
    ensures
        r@ == used_prefix(clean@, n as nat),
{
    if clean.len() <= n {
        clean
    } else {
        vstd::slice::slice_subrange(clean, 0, n)
    }
}

/// Whether an entry point's result matches its specification.
pub open spec fn entry_lowered(r: Result<Vec<Operation>, CompilerError>, expected: Result<Seq<OpView>, CompilerError>) -> bool {
    match expected {
        Ok(ops) => r matches Ok(v) && ops_view(v@) == ops,
        Err(e) => r == Err::<Vec<Operation>, CompilerError>(e),
    }
}

/// The lowering of an MCGate with its failure as a compiler error.
pub open spec fn mc_entry(gate: McGate, qubits: Seq<Qubit>, params: Seq<CircuitParam>, c: LoweringConfig) -> Result<Seq<OpView>, CompilerError> {
    match mc_gate_result(gate, qubits, params, c) {
        Ok(ops) => Ok(ops),
        Err(f) => Err(CompilerError::McGateFailed(f)),
    }
}

/// Builds the configuration of the entry points.
fn make_entry_config(mode: AncillaMode, clean: &[Qubit]) -> (r: McGateDecomposeConfig)
    ensures
        lowering_config(r) == entry_config(mode, clean@),
{
    let config = McGateDecomposeConfig {
        ancilla_mode: mode,
        clean_ancillas: copy_range(clean, 0, clean.len()),
        dirty_ancillas: Vec::new(),
        max_expansion_ops: usize::MAX,
        max_recursion_depth: DEFAULT_MAX_RECURSION_DEPTH,
        skip_labeled_ops: true,
    };
    proof {
        assert(clean@.subrange(0, clean@.len() as int) =~= clean@);
        assert(config.dirty_ancillas@ =~= Seq::<Qubit>::empty());
    }
    config
}

/// Lowers `gate` on `controls` followed by `targets`.
fn lower_on(gate: McGate, controls: &[Qubit], targets: &[Qubit], params: &[CircuitParam], config: &McGateDecomposeConfig) -> (r: Result<Vec<Operation>, CompilerError>)
    ensures
        entry_lowered(r, mc_entry(gate, controls@ + targets@, params@, lowering_config(*config))),
{
    let mut qubits = copy_range(controls, 0, controls.len());
    let mut t: usize = 0;
    while t < targets.len()
        invariant
            t <= targets.len(),
            qubits@ == controls@ + targets@.subrange(0, t as int),
        decreases targets.len() - t,
    {
        qubits.push(targets[t]);
        t = t + 1;
        proof {
            assert(qubits@ =~= controls@ + targets@.subrange(0, t as int));
        }
    }
    proof {
        assert(controls@.subrange(0, controls@.len() as int) =~= controls@);
        assert(targets@.subrange(0, targets@.len() as int) =~= targets@);
        assert(qubits@ =~= controls@ + targets@);
    }
    decompose_mc_gate(&gate, qubits.as_slice(), params, config)
}

/// The parameters of a Phase-family gate given its optional angle.
pub open spec fn optional_params(theta: Option<CircuitParam>) -> Seq<CircuitParam> {
    match theta {
        Some(p) => seq![p],
        None => seq![],
    }
}

/// Result of the Phase entry points.
pub open spec fn phase_entry(phase: StandardGate, theta: Option<CircuitParam>, controls: Seq<Qubit>, target: Qubit, c: LoweringConfig) -> Result<Seq<OpView>, CompilerError> {
    if !phase_member(phase) {
        Err(CompilerError::InvalidInput(InputIssue::NotPhaseGate(phase)))
    } else {
        mc_entry(McGate { added_controls: controls.len() as u8, base: phase }, controls.push(target), optional_params(theta), c)
    }
}

fn phase_entry_lower(phase: StandardGate, theta: Option<CircuitParam>, controls: &[Qubit], target: Qubit, config: &McGateDecomposeConfig) -> (r: Result<Vec<Operation>, CompilerError>)
    requires
        controls.len() <= 255,
    ensures
        entry_lowered(r, phase_entry(phase, theta, controls@, target, lowering_config(*config))),
{
    if !(phase == StandardGate::S || phase == StandardGate::SDG || phase == StandardGate::T || phase == StandardGate::TDG
        || phase == StandardGate::Phase) {
        return Err(CompilerError::InvalidInput(InputIssue::NotPhaseGate(phase)));
    }
    let params: Vec<CircuitParam> = match theta {
        Some(p) => vec![p],
        None => Vec::new(),
    };
    let targets = [target];
    proof {
        assert(params@ =~= optional_params(theta));
        assert(controls@ + targets@ =~= controls@.push(target));
    }
    lower_on(McGate { added_controls: controls.len() as u8, base: phase }, controls, &targets, params.as_slice(), config)
}

/// Decomposes `C^k` of a Phase-family gate (`S`, `SDG`, `T`, `TDG`, or
/// `Phase` with its angle) without ancillas.
pub fn decompose_phase_no_aux(phase: StandardGate, theta: Option<CircuitParam>, controls: &[Qubit], target: Qubit) -> (r: Result<Vec<Operation>, CompilerError>)
    requires
        controls.len() <= 255,
    ensures
        entry_lowered(r, phase_entry(phase, theta, controls@, target, entry_config(AncillaMode::NoAncilla, seq![]))),
{
    let config = make_entry_config(AncillaMode::NoAncilla, &[]);
    proof {
        assert(lowering_config(config).clean =~= Seq::<Qubit>::empty());
    }
    phase_entry_lower(phase, theta, controls, target, &config)
}

/// Decomposes `C^k` of a Phase-family gate with clean work qubits; only
/// the first `k - 1` of them, which the lowering can consume, are handed on.
pub fn decompose_phase_n_clean(phase: StandardGate, theta: Option<CircuitParam>, controls: &[Qubit], target: Qubit, clean_ancillas: &[Qubit]) -> (r: Result<Vec<Operation>, CompilerError>)
    requires
        controls.len() <= 255,
    ensures
        entry_lowered(r, phase_entry(phase, theta, controls@, target, entry_config(
            AncillaMode::CleanAncilla,
            used_prefix(clean_ancillas@, if controls.len() == 0 { 0 } else { (controls.len() - 1) as nat }),
        ))),
{
    let need = if controls.len() == 0 { 0 } else { controls.len() - 1 };
    let config = make_entry_config(AncillaMode::CleanAncilla, prefix_of(clean_ancillas, need));
    phase_entry_lower(phase, theta, controls, target, &config)
}

/// Result of the FSIM entry points.
pub open spec fn fsim_entry(params: Seq<CircuitParam>, controls: Seq<Qubit>, first: Qubit, second: Qubit, c: LoweringConfig) -> Result<Seq<OpView>, CompilerError> {
    mc_entry(McGate { added_controls: controls.len() as u8, base: StandardGate::FSIM }, controls + seq![first, second], params, c)
}

fn fsim_entry_lower(params: &[CircuitParam], controls: &[Qubit], first: Qubit, second: Qubit, config: &McGateDecomposeConfig) -> (r: Result<Vec<Operation>, CompilerError>)
    requires
        controls.len() <= 255,
    ensures
        entry_lowered(r, fsim_entry(params@, controls@, first, second, lowering_config(*config))),
{
    let targets = [first, second];
    proof {
        assert(targets@ =~= seq![first, second]);
    }
    lower_on(McGate { added_controls: controls.len() as u8, base: StandardGate::FSIM }, controls, &targets, params, config)
}

/// Decomposes a multi-controlled `FSIM(theta, phi)` without ancillas.
pub fn decompose_fsim_no_aux(params: &[CircuitParam], controls: &[Qubit], first: Qubit, second: Qubit) -> (r: Result<Vec<Operation>, CompilerError>)
    requires
        controls.len() <= 255,
    ensures
        entry_lowered(r, fsim_entry(params@, controls@, first, second, entry_config(AncillaMode::NoAncilla, seq![]))),
{
    let config = make_entry_config(AncillaMode::NoAncilla, &[]);
    proof {
        assert(lowering_config(config).clean =~= Seq::<Qubit>::empty());
    }
    fsim_entry_lower(params, controls, first, second, &config)
}

/// Decomposes a multi-controlled `FSIM(theta, phi)` with clean work
/// qubits; only the first `k` of them are handed on.
pub fn decompose_fsim_n_clean(params: &[CircuitParam], controls: &[Qubit], first: Qubit, second: Qubit, clean_ancillas: &[Qubit]) -> (r: Result<Vec<Operation>, CompilerError>)
    requires
        controls.len() <= 255,
    ensures
        entry_lowered(r, fsim_entry(params@, controls@, first, second, entry_config(
            AncillaMode::CleanAncilla,
            used_prefix(clean_ancillas@, controls.len() as nat),
        ))),
{
    let config = make_entry_config(AncillaMode::CleanAncilla, prefix_of(clean_ancillas, controls.len()));
    fsim_entry_lower(params, controls, first, second, &config)
}

/// The first element of `s` equal to `a` or `b`.
pub open spec fn first_hit(s: Seq<Qubit>, a: Qubit, b: Qubit) -> Option<Qubit>
    decreases s.len(),
{
    if s.len() == 0 {
        None
    } else {
        match first_hit(s.drop_last(), a, b) {
            Some(q) => Some(q),
            None => if s.last() == a || s.last() == b {
                Some(s.last())
            } else {
                None
            },
        }
    }
}

/// The first element of `s` equal to `a` or `b`.
fn find_hit(s: &[Qubit], a: Qubit, b: Qubit) -> (r: Option<Qubit>)
    ensures
        r == first_hit(s@, a, b),
{
    let mut i: usize = 0;
    while i < s.len()
        invariant
            i <= s.len(),
            first_hit(s@.subrange(0, i as int), a, b) is None,
        decreases s.len() - i,
    {
        let ghost next = s@.subrange(0, i + 1);
        proof {
            assert(next.drop_last() =~= s@.subrange(0, i as int));
        }
        if s[i] == a || s[i] == b {
            proof {
                lemma_hit_extends(s@, i + 1, a, b);
            }
            return Some(s[i]);
        }
        i = i + 1;
    }
    proof {
        assert(s@.subrange(0, s@.len() as int) =~= s@);
    }
    None
}

/// Once a prefix holds a hit, the whole sequence reports it.
proof fn lemma_hit_extends(s: Seq<Qubit>, k: int, a: Qubit, b: Qubit)
    requires
        0 <= k <= s.len(),
        first_hit(s.subrange(0, k), a, b) is Some,
    ensures
        first_hit(s, a, b) == first_hit(s.subrange(0, k), a, b),
    decreases s.len() - k,
{
    if k < s.len() {
        assert(s.subrange(0, k + 1).drop_last() =~= s.subrange(0, k));
        lemma_hit_extends(s, k + 1, a, b);
    } else {
        assert(s.subrange(0, k) =~= s);
    }
}

/// Result of the controlled-`RZZ` entry points: `CX(first, second)`,
/// `C^k RZ(theta)` on `second`, `CX(first, second)`, after checking that
/// the interaction qubits differ from each other, from the controls and from
/// the work qubits; a bare `RZZ` without controls when `bare` holds.
pub open spec fn rzz_entry(theta: CircuitParam, controls: Seq<Qubit>, first: Qubit, second: Qubit, ancillas: Seq<Qubit>, bare: bool, c: LoweringConfig) -> Result<Seq<OpView>, CompilerError> {
    if first == second {
        Err(CompilerError::InvalidInput(InputIssue::InteractionQubitsEqual(first)))
    } else if bare && controls.len() == 0 {
        Ok(seq![with_params(StandardGate::RZZ, seq![first, second], seq![theta])])
    } else if first_hit(controls, first, second) is Some {
        Err(CompilerError::InvalidInput(InputIssue::InteractionQubitInControls(first_hit(controls, first, second)->Some_0)))
    } else if first_hit(ancillas, first, second) is Some {
        Err(CompilerError::InvalidInput(InputIssue::InteractionQubitInAncillas(first_hit(ancillas, first, second)->Some_0)))
    } else {
        match mc_entry(McGate { added_controls: controls.len() as u8, base: StandardGate::RZ }, controls.push(second), seq![theta], c) {
            Err(e) => Err(e),
            Ok(ops) => Ok(seq![plain(StandardGate::CX, seq![first, second])] + ops + seq![plain(StandardGate::CX, seq![first, second])]),
        }
    }
}

fn rzz_entry_lower(theta: CircuitParam, controls: &[Qubit], first: Qubit, second: Qubit, ancillas: &[Qubit], bare: bool, config: &McGateDecomposeConfig) -> (r: Result<Vec<Operation>, CompilerError>)
    requires
        controls.len() <= 255,
    ensures
        entry_lowered(r, rzz_entry(theta, controls@, first, second, ancillas@, bare, lowering_config(*config))),
{
    if first == second {
        return Err(CompilerError::InvalidInput(InputIssue::InteractionQubitsEqual(first)));
    }
    if bare && controls.len() == 0 {
        let qs = [first, second];
        let ps = [theta];
        proof {
            assert(qs@ =~= seq![first, second]);
            assert(ps@ =~= seq![theta]);
        }
        let op = crate::circuit::make_operation(crate::circuit::Instruction::Standard(StandardGate::RZZ), &qs, &ps);
        let operations = vec![op];
        proof {
            assert(ops_view(operations@) =~= seq![with_params(StandardGate::RZZ, seq![first, second], seq![theta])]);
        }
        return Ok(operations);
    }
    if let Some(q) = find_hit(controls, first, second) {
        return Err(CompilerError::InvalidInput(InputIssue::InteractionQubitInControls(q)));
    }
    if let Some(q) = find_hit(ancillas, first, second) {
        return Err(CompilerError::InvalidInput(InputIssue::InteractionQubitInAncillas(q)));
    }
    let targets = [second];
    let params = [theta];
    proof {
        assert(controls@ + targets@ =~= controls@.push(second));
        assert(params@ =~= seq![theta]);
    }
    let center = match lower_on(McGate { added_controls: controls.len() as u8, base: StandardGate::RZ }, controls, &targets, &params, config) {
        Ok(ops) => ops,
        Err(e) => return Err(e),
    };
    let mut operations: Vec<Operation> = Vec::new();
    crate::circuit::push_gate2(&mut operations, StandardGate::CX, first, second);
    let ghost head = ops_view(operations@);
    let ghost middle = ops_view(center@);
    crate::circuit::append_all(&mut operations, center);
    crate::circuit::push_gate2(&mut operations, StandardGate::CX, first, second);
    proof {
        assert(head =~= seq![plain(StandardGate::CX, seq![first, second])]);
        assert(ops_view(operations@) =~= seq![plain(StandardGate::CX, seq![first, second])] + middle + seq![plain(StandardGate::CX, seq![first, second])]);
    }
    Ok(operations)
}

/// Decomposes a multi-controlled `RZZ(theta)` without ancillas, controlling
/// only the central `RZ`.
pub fn decompose_mc_rzz_no_aux(theta: CircuitParam, controls: &[Qubit], first: Qubit, second: Qubit) -> (r: Result<Vec<Operation>, CompilerError>)
    requires
        controls.len() <= 255,
    ensures
        entry_lowered(r, rzz_entry(theta, controls@, first, second, seq![], true, entry_config(AncillaMode::NoAncilla, seq![]))),
{
    let config = make_entry_config(AncillaMode::NoAncilla, &[]);
    let none: [Qubit; 0] = [];
    proof {
        assert(lowering_config(config).clean =~= Seq::<Qubit>::empty());
        assert(none@ =~= Seq::<Qubit>::empty());
    }
    rzz_entry_lower(theta, controls, first, second, &none, true, &config)
}

/// Decomposes a multi-controlled `RZZ(theta)` with clean work qubits,
/// controlling only the central `RZ`; every input, uncontrolled ones
/// included, is checked against all work qubits and lowered through the
/// `CX` body, and the first `k - 1` work qubits are handed on.
pub fn decompose_mc_rzz_n_clean(theta: CircuitParam, controls: &[Qubit], first: Qubit, second: Qubit, clean_ancillas: &[Qubit]) -> (r: Result<Vec<Operation>, CompilerError>)
    requires
        controls.len() <= 255,
    ensures
        entry_lowered(r, rzz_entry(theta, controls@, first, second, clean_ancillas@, false, entry_config(
            AncillaMode::CleanAncilla,
            used_prefix(clean_ancillas@, if controls.len() == 0 { 0 } else { (controls.len() - 1) as nat }),
        ))),
{
    let need = if controls.len() == 0 { 0 } else { controls.len() - 1 };
    let config = make_entry_config(AncillaMode::CleanAncilla, prefix_of(clean_ancillas, need));
    rzz_entry_lower(theta, controls, first, second, clean_ancillas, false, &config)
}

/// Whether a gate is a two-qubit Pauli rotation.
pub open spec fn pauli_rotation_member(rotation: StandardGate) -> bool {
    rotation == StandardGate::RXX || rotation == StandardGate::RYY || rotation == StandardGate::RZZ
        || rotation == StandardGate::RZX
}

/// The basis change before the `RZZ` body of a Pauli rotation.
pub open spec fn basis_before(rotation: StandardGate, a: Qubit, b: Qubit) -> Seq<OpView> {
    if rotation == StandardGate::RXX {
        seq![plain(StandardGate::H, seq![a]), plain(StandardGate::H, seq![b])]
    } else if rotation == StandardGate::RYY {
        seq![rotation_op(StandardGate::RX, a, half_pi(1i64)), rotation_op(StandardGate::RX, b, half_pi(1i64))]
    } else if rotation == StandardGate::RZX {
        seq![plain(StandardGate::H, seq![b])]
    } else {
        seq![]
    }
}

/// The basis change after the `RZZ` body of a Pauli rotation.
pub open spec fn basis_after(rotation: StandardGate, a: Qubit, b: Qubit) -> Seq<OpView> {
    if rotation == StandardGate::RYY {
        seq![rotation_op(StandardGate::RX, a, half_pi(-1i64)), rotation_op(StandardGate::RX, b, half_pi(-1i64))]
    } else {
        basis_before(rotation, a, b)
    }
}

/// Result of the Pauli-rotation entry points: a bare rotation without
/// controls; otherwise the controlled `RZZ` conjugated by the basis change.
pub open spec fn pauli_rotation_entry(rotation: StandardGate, theta: CircuitParam, controls: Seq<Qubit>, first: Qubit, second: Qubit, ancillas: Seq<Qubit>, c: LoweringConfig) -> Result<Seq<OpView>, CompilerError> {
    if !pauli_rotation_member(rotation) {
        Err(CompilerError::InvalidInput(InputIssue::NotPauliRotation(rotation)))
    } else if controls.len() == 0 {
        Ok(seq![with_params(rotation, seq![first, second], seq![theta])])
    } else {
        match rzz_entry(theta, controls, first, second, ancillas, true, c) {
            Err(e) => Err(e),
            Ok(ops) => Ok(basis_before(rotation, first, second) + ops + basis_after(rotation, first, second)),
        }
    }
}

/// Appends the basis change of a Pauli rotation.
fn push_basis_change(operations: &mut Vec<Operation>, rotation: StandardGate, a: Qubit, b: Qubit, after: bool)
    requires
        pauli_rotation_member(rotation),
    ensures
        ops_view(final(operations)@) == ops_view(old(operations)@) + if after {
            basis_after(rotation, a, b)
        } else {
            basis_before(rotation, a, b)
        },
{
    let ghost start = ops_view(operations@);
    if rotation == StandardGate::RXX {
        crate::circuit::push_gate1(operations, StandardGate::H, a);
        crate::circuit::push_gate1(operations, StandardGate::H, b);
    } else if rotation == StandardGate::RYY {
        let sign: i64 = if after { -1 } else { 1 };
        let angle = CircuitParam::Fixed(crate::circuit::Angle::pi_fraction(sign, 1));
        crate::circuit::push_param_gate1(operations, StandardGate::RX, a, angle);
        crate::circuit::push_param_gate1(operations, StandardGate::RX, b, angle);
    } else if rotation == StandardGate::RZX {
        crate::circuit::push_gate1(operations, StandardGate::H, b);
    }
    proof {
        let expected = if after { basis_after(rotation, a, b) } else { basis_before(rotation, a, b) };
        assert(ops_view(operations@) =~= start + expected);
    }
}

fn pauli_rotation_entry_lower(rotation: StandardGate, theta: CircuitParam, controls: &[Qubit], first: Qubit, second: Qubit, ancillas: &[Qubit], config: &McGateDecomposeConfig) -> (r: Result<Vec<Operation>, CompilerError>)
    requires
        controls.len() <= 255,
    ensures
        entry_lowered(r, pauli_rotation_entry(rotation, theta, controls@, first, second, ancillas@, lowering_config(*config))),
{
    if !(rotation == StandardGate::RXX || rotation == StandardGate::RYY || rotation == StandardGate::RZZ
        || rotation == StandardGate::RZX) {
        return Err(CompilerError::InvalidInput(InputIssue::NotPauliRotation(rotation)));
    }
    if controls.len() == 0 {
        let qs = [first, second];
        let ps = [theta];
        proof {
            assert(qs@ =~= seq![first, second]);
            assert(ps@ =~= seq![theta]);
        }
        let op = crate::circuit::make_operation(crate::circuit::Instruction::Standard(rotation), &qs, &ps);
        let operations = vec![op];
        proof {
            assert(ops_view(operations@) =~= seq![with_params(rotation, seq![first, second], seq![theta])]);
        }
        return Ok(operations);
    }
    let body = match rzz_entry_lower(theta, controls, first, second, ancillas, true, config) {
        Ok(ops) => ops,
        Err(e) => return Err(e),
    };
    let ghost middle = ops_view(body@);
    let mut operations: Vec<Operation> = Vec::new();
    push_basis_change(&mut operations, rotation, first, second, false);
    crate::circuit::append_all(&mut operations, body);
    push_basis_change(&mut operations, rotation, first, second, true);
    proof {
        assert(ops_view(operations@) =~= basis_before(rotation, first, second) + middle + basis_after(rotation, first, second));
    }
    Ok(operations)
}

/// Decomposes a multi-controlled `RXX`, `RYY`, `RZZ` or `RZX` without
/// ancillas.
pub fn decompose_pauli_rotation_no_aux(rotation: StandardGate, theta: CircuitParam, controls: &[Qubit], first: Qubit, second: Qubit) -> (r: Result<Vec<Operation>, CompilerError>)
    requires
        controls.len() <= 255,
    ensures
        entry_lowered(r, pauli_rotation_entry(rotation, theta, controls@, first, second, seq![], entry_config(AncillaMode::NoAncilla, seq![]))),
{
    let config = make_entry_config(AncillaMode::NoAncilla, &[]);
    let none: [Qubit; 0] = [];
    proof {
        assert(lowering_config(config).clean =~= Seq::<Qubit>::empty());
        assert(none@ =~= Seq::<Qubit>::empty());
    }
    pauli_rotation_entry_lower(rotation, theta, controls, first, second, &none, &config)
}

/// Decomposes a multi-controlled `RXX`, `RYY`, `RZZ` or `RZX` with clean
/// work qubits, checked and handed on as by `decompose_mc_rzz_n_clean`.
pub fn decompose_pauli_rotation_n_clean(rotation: StandardGate, theta: CircuitParam, controls: &[Qubit], first: Qubit, second: Qubit, clean_ancillas: &[Qubit]) -> (r: Result<Vec<Operation>, CompilerError>)
    requires
        controls.len() <= 255,
    ensures
        entry_lowered(r, pauli_rotation_entry(rotation, theta, controls@, first, second, clean_ancillas@, entry_config(
            AncillaMode::CleanAncilla,
            used_prefix(clean_ancillas@, if controls.len() == 0 { 0 } else { (controls.len() - 1) as nat }),
        ))),
{
    let need = if controls.len() == 0 { 0 } else { controls.len() - 1 };
    let config = make_entry_config(AncillaMode::CleanAncilla, prefix_of(clean_ancillas, need));
    pauli_rotation_entry_lower(rotation, theta, controls, first, second, clean_ancillas, &config)
}

} // verus!
