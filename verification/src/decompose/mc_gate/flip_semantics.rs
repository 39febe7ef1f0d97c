//! The lowerings of the Pauli `X` and `Y` families and of the SWAP family
//! act on basis states as the gates they stand for.
//!
//! With clean work qubits that start at `|0>`, with a borrowed work qubit in
//! any state, or without work qubits for at most two controls per flip, the
//! emitted `X`/`CX`/`CCX` sequences flip or swap exactly as the lowered
//! gates do and leave every work qubit as it was; the `S`/`SDG` around the
//! flip of a controlled `Y` give the factors `i` and `-i`.
use crate::circuit::{CircuitParam, McGate, Qubit, StandardGate};
use crate::decompose::mc_gate::decompose::{
    ancilla_issue, mc_gate_control_count, mc_gate_result, operand_model, validation_issue, AncillaMode, LoweringConfig,
    OperandModel,
};
use crate::decompose::mc_gate::pauli::mcx_lowering;
use crate::decompose::mcx::{
    clean_required, lemma_all_set_split, lemma_clean_mcx_implements_mcx, lemma_dirty_mcx_implements_mcx,
    lemma_trivial_mcx_semantics,
};
use crate::decompose::mcx::{no_ancilla_mcx, two_pow};
use crate::decompose::phase_polynomial::{
    is_flip_op, lemma_clean_mcx_shape, lemma_dirty_mcx_shape, lemma_flip_run, lemma_phase_run_concat, phase_run,
};
use crate::error::{AncillaKind, LoweringFamily};
use crate::semantics::{all_set, apply_classical, lemma_apply_concat, lemma_first_duplicate_none, mcx_state};
use vstd::prelude::*;

verus! {

/// The basis state after swapping `a` and `b` exactly when all `controls` are set.
pub open spec fn cswap_state(state: spec_fn(Qubit) -> bool, controls: Seq<Qubit>, a: Qubit, b: Qubit) -> spec_fn(Qubit) -> bool {
    |q: Qubit| if all_set(state, controls) && q == a {
        state(b)
    } else if all_set(state, controls) && q == b {
        state(a)
    } else {
        state(q)
    }
}

/// Whether the configured work qubits suit a classical reading: clean ones
/// start unset, and without work qubits a flip has at most two controls.
pub open spec fn work_qubits_ready(c: LoweringConfig, state: spec_fn(Qubit) -> bool, controls: nat) -> bool {
    &&& c.mode == AncillaMode::CleanAncilla ==> forall|i: int| 0 <= i < c.clean.len() ==> !state(#[trigger] c.clean[i])
    &&& c.mode == AncillaMode::NoAncilla ==> controls <= 2
}

/// The MCX lowering under the configured strategy flips its target exactly
/// when all its controls are set.
proof fn lemma_mcx_lowering_flips(m: OperandModel, c: LoweringConfig, family: LoweringFamily, controls: Seq<Qubit>, target: Qubit, state: spec_fn(Qubit) -> bool)
    requires
        work_qubits_ready(c, state, controls.len()),
    ensures
        mcx_lowering(m, c, family, controls, target) matches Ok(ops) ==> apply_classical(ops, state) == mcx_state(state, controls, target),
{
    if mcx_lowering(m, c, family, controls, target) is Ok {
        let n = controls.len();
        if c.mode == AncillaMode::CleanAncilla {
            let used = c.clean.subrange(0, clean_required(n) as int);
            lemma_first_duplicate_none(controls + seq![target] + used);
            lemma_clean_mcx_implements_mcx(controls, target, used, state);
        } else if c.mode == AncillaMode::DirtyAncilla && n > 2 {
            let dirty = c.dirty[0];
            lemma_first_duplicate_none(controls + seq![target] + seq![dirty]);
            lemma_dirty_mcx_implements_mcx(controls, target, dirty, state);
        } else {
            lemma_trivial_mcx_semantics(controls, target, state);
        }
    }
}

/// Law: lowering a multi-controlled `X`, `CX` or `CCX` with clean work
/// qubits that start unset, with a borrowed work qubit in any state, or
/// without work qubits for at most two controls, yields a sequence that
/// flips the last operand exactly when all other operands are set.
pub proof fn lemma_flip_lowering_implements_mcx(gate: McGate, qubits: Seq<Qubit>, params: Seq<CircuitParam>, c: LoweringConfig, state: spec_fn(Qubit) -> bool)
    requires
        gate.base == StandardGate::X || gate.base == StandardGate::CX || gate.base == StandardGate::CCX,
        work_qubits_ready(c, state, mc_gate_control_count(gate)),
    ensures
        mc_gate_result(gate, qubits, params, c) matches Ok(ops) ==> apply_classical(ops, state) == mcx_state(
            state,
            qubits.drop_last(),
            qubits.last(),
        ),
{
    if mc_gate_result(gate, qubits, params, c) is Ok {
        assert(validation_issue(gate, qubits, params, c) is None);
        let m = operand_model(gate, qubits, params);
        assert(m.controls == qubits.drop_last());
        assert(m.targets[0] == qubits.last());
        lemma_mcx_lowering_flips(m, c, LoweringFamily::Pauli, m.controls, m.targets[0], state);
    }
}

/// Work qubits without a validation issue avoid every operand and repeat nothing.
pub proof fn lemma_ancillas_apart(kind: AncillaKind, operands: Seq<Qubit>, ancillas: Seq<Qubit>)
    requires
        ancilla_issue(kind, operands, ancillas) is None,
    ensures
        forall|i: int| 0 <= i < ancillas.len() ==> !operands.contains(#[trigger] ancillas[i]),
        ancillas.no_duplicates(),
    decreases ancillas.len(),
{
    if ancillas.len() > 0 {
        let rest = ancillas.drop_last();
        lemma_ancillas_apart(kind, operands, rest);
        assert forall|i: int| 0 <= i < ancillas.len() implies !operands.contains(#[trigger] ancillas[i]) by {
            if i < ancillas.len() - 1 {
                assert(ancillas[i] == rest[i]);
            }
        }
        assert forall|i: int, j: int| 0 <= i < ancillas.len() && 0 <= j < ancillas.len() && i != j implies ancillas[i] != ancillas[j] by {
            if i < ancillas.len() - 1 && j < ancillas.len() - 1 {
                assert(ancillas[i] == rest[i] && ancillas[j] == rest[j]);
            } else if i == ancillas.len() - 1 {
                assert(ancillas[j] == rest[j]);
                assert(rest.contains(rest[j]));
            } else {
                assert(ancillas[i] == rest[i]);
                assert(rest.contains(rest[i]));
            }
        }
    }
}

/// Three controlled flips, from `a` onto `b`, back, and again, swap `a`
/// and `b` under the controls.
proof fn lemma_three_flips_swap(state: spec_fn(Qubit) -> bool, controls: Seq<Qubit>, a: Qubit, b: Qubit)
    requires
        a != b,
        !controls.contains(a),
        !controls.contains(b),
    ensures
        mcx_state(mcx_state(mcx_state(state, controls.push(a), b), controls.push(b), a), controls.push(a), b)
            == cswap_state(state, controls, a, b),
{
    let ca = controls.push(a);
    let cb = controls.push(b);
    let s1 = mcx_state(state, ca, b);
    let s2 = mcx_state(s1, cb, a);
    let s3 = mcx_state(s2, ca, b);
    lemma_all_set_split(state, ca);
    lemma_all_set_split(s1, cb);
    lemma_all_set_split(s2, ca);
    assert(ca.drop_last() =~= controls && cb.drop_last() =~= controls);
    assert(all_set(s1, controls) == all_set(state, controls)) by {
        assert forall|i: int| 0 <= i < controls.len() implies s1(controls[i]) == state(controls[i]) by {
            assert(controls.contains(controls[i]));
        }
    }
    assert(all_set(s2, controls) == all_set(state, controls)) by {
        assert forall|i: int| 0 <= i < controls.len() implies s2(controls[i]) == s1(controls[i]) by {
            assert(controls.contains(controls[i]));
        }
    }
    assert(s3 =~= cswap_state(state, controls, a, b));
}

/// The SWAP lowering is three MCX blocks over distinct operands.
proof fn lemma_swap_shape(gate: McGate, qubits: Seq<Qubit>, params: Seq<CircuitParam>, c: LoweringConfig)
    requires
        gate.base == StandardGate::SWAP,
    ensures
        mc_gate_result(gate, qubits, params, c) matches Ok(ops) ==> ({
            let m = operand_model(gate, qubits, params);
            let n = qubits.len();
            let controls = qubits.subrange(0, n - 2);
            let a = qubits[n - 2];
            let b = qubits[n - 1];
            let x = mcx_lowering(m, c, LoweringFamily::Swap, controls.push(a), b);
            let y = mcx_lowering(m, c, LoweringFamily::Swap, controls.push(b), a);
            &&& n >= 2
            &&& controls.len() == mc_gate_control_count(gate)
            &&& a != b && !controls.contains(a) && !controls.contains(b)
            &&& c.mode == AncillaMode::CleanAncilla ==> forall|i: int| 0 <= i < c.clean.len() ==> #[trigger] c.clean[i] != a && c.clean[i] != b
            &&& x is Ok && y is Ok
            &&& ops == x->Ok_0 + y->Ok_0 + x->Ok_0
        }),
{
    if let Ok(ops) = mc_gate_result(gate, qubits, params, c) {
        assert(validation_issue(gate, qubits, params, c) is None);
        let m = operand_model(gate, qubits, params);
        let n = qubits.len();
        assert(m.controls == qubits.subrange(0, n - 2));
        assert(m.targets[0] == qubits[n - 2] && m.targets[1] == qubits[n - 1]);
        lemma_first_duplicate_none(qubits);
        if c.mode == AncillaMode::CleanAncilla {
            lemma_ancillas_apart(AncillaKind::Clean, qubits, c.clean);
            assert(qubits.contains(qubits[n - 2]) && qubits.contains(qubits[n - 1]));
        }
        let controls = m.controls;
        assert(!controls.contains(qubits[n - 2]) && !controls.contains(qubits[n - 1])) by {
            if controls.contains(qubits[n - 2]) {
                let i = choose|i: int| 0 <= i < controls.len() && controls[i] == qubits[n - 2];
                assert(qubits[i] == qubits[n - 2]);
            }
            if controls.contains(qubits[n - 1]) {
                let i = choose|i: int| 0 <= i < controls.len() && controls[i] == qubits[n - 1];
                assert(qubits[i] == qubits[n - 1]);
            }
        }
    }
}

/// Three MCX blocks over distinct operands swap the targets under the controls.
proof fn lemma_swap_blocks(m: OperandModel, c: LoweringConfig, controls: Seq<Qubit>, a: Qubit, b: Qubit, ops: Seq<crate::circuit::OpView>, state: spec_fn(Qubit) -> bool)
    requires
        work_qubits_ready(c, state, controls.len() + 1),
        a != b,
        !controls.contains(a),
        !controls.contains(b),
        c.mode == AncillaMode::CleanAncilla ==> forall|i: int| 0 <= i < c.clean.len() ==> #[trigger] c.clean[i] != a && c.clean[i] != b,
        mcx_lowering(m, c, LoweringFamily::Swap, controls.push(a), b) is Ok,
        mcx_lowering(m, c, LoweringFamily::Swap, controls.push(b), a) is Ok,
        ops == mcx_lowering(m, c, LoweringFamily::Swap, controls.push(a), b)->Ok_0
            + mcx_lowering(m, c, LoweringFamily::Swap, controls.push(b), a)->Ok_0
            + mcx_lowering(m, c, LoweringFamily::Swap, controls.push(a), b)->Ok_0,
    ensures
        apply_classical(ops, state) == cswap_state(state, controls, a, b),
{
    let family = LoweringFamily::Swap;
    let ca = controls.push(a);
    let cb = controls.push(b);
    let x = mcx_lowering(m, c, family, ca, b)->Ok_0;
    let y = mcx_lowering(m, c, family, cb, a)->Ok_0;
    let s1 = mcx_state(state, ca, b);
    let s2 = mcx_state(s1, cb, a);
    assert(work_qubits_ready(c, s1, ca.len()) && work_qubits_ready(c, s2, ca.len())) by {
        if c.mode == AncillaMode::CleanAncilla {
            assert forall|i: int| 0 <= i < c.clean.len() implies !s1(#[trigger] c.clean[i]) && !s2(c.clean[i]) by {
                assert(c.clean[i] != a && c.clean[i] != b);
            }
        }
    }
    lemma_mcx_lowering_flips(m, c, family, ca, b, state);
    lemma_mcx_lowering_flips(m, c, family, cb, a, s1);
    lemma_mcx_lowering_flips(m, c, family, ca, b, s2);
    lemma_apply_concat(x, y, state);
    lemma_apply_concat(x + y, x, state);
    lemma_three_flips_swap(state, controls, a, b);
}

/// Law: lowering a controlled SWAP with clean work qubits that start unset,
/// with a borrowed work qubit in any state, or without work qubits for at
/// most one control, yields a sequence that swaps the two targets exactly
/// when all controls are set and leaves every other qubit as it was.
pub proof fn lemma_swap_lowering_swaps(gate: McGate, qubits: Seq<Qubit>, params: Seq<CircuitParam>, c: LoweringConfig, state: spec_fn(Qubit) -> bool)
    requires
        gate.base == StandardGate::SWAP,
        work_qubits_ready(c, state, mc_gate_control_count(gate) + 1),
    ensures
        mc_gate_result(gate, qubits, params, c) matches Ok(ops) ==> apply_classical(ops, state) == cswap_state(
            state,
            qubits.subrange(0, qubits.len() - 2),
            qubits[qubits.len() - 2],
            qubits[qubits.len() - 1],
        ),
{
    lemma_swap_shape(gate, qubits, params, c);
    if let Ok(ops) = mc_gate_result(gate, qubits, params, c) {
        let n = qubits.len();
        lemma_swap_blocks(operand_model(gate, qubits, params), c, qubits.subrange(0, n - 2), qubits[n - 2], qubits[n - 1], ops, state);
    }
}

/// The MCX lowering, where the configured strategy emits only flips, is
/// made of `X`, `CX` and `CCX` operations.
proof fn lemma_mcx_lowering_flip_ops(m: OperandModel, c: LoweringConfig, family: LoweringFamily, controls: Seq<Qubit>, target: Qubit)
    requires
        c.mode == AncillaMode::NoAncilla ==> controls.len() <= 2,
    ensures
        mcx_lowering(m, c, family, controls, target) matches Ok(ops) ==> forall|i: int| 0 <= i < ops.len() ==> is_flip_op(#[trigger] ops[i]),
{
    if mcx_lowering(m, c, family, controls, target) is Ok {
        let n = controls.len();
        if c.mode == AncillaMode::CleanAncilla {
            lemma_clean_mcx_shape(controls, target, c.clean.subrange(0, clean_required(n) as int));
        } else if c.mode == AncillaMode::DirtyAncilla && n > 2 {
            lemma_dirty_mcx_shape(controls, target, c.dirty[0]);
        } else {
            assert(no_ancilla_mcx(controls, target) == crate::decompose::mcx::trivial_mcx(controls, target));
        }
    }
}

/// Law: lowering a multi-controlled `Y` or `CY` with clean work qubits that
/// start unset, with a borrowed work qubit in any state, or without work
/// qubits for at most two controls, maps every basis state whose controls
/// are all set to the state with the target flipped, times `i` when the
/// target was unset and `-i` when it was set, and leaves every other basis
/// state as it was (phases in units of `pi / 2`): exactly `C^k Y`.
pub proof fn lemma_y_lowering_implements_controlled_y(gate: McGate, qubits: Seq<Qubit>, params: Seq<CircuitParam>, c: LoweringConfig, state: spec_fn(Qubit) -> bool)
    requires
        gate.base == StandardGate::Y || gate.base == StandardGate::CY,
        work_qubits_ready(c, state, mc_gate_control_count(gate)),
    ensures
        mc_gate_result(gate, qubits, params, c) matches Ok(ops) ==> phase_run(ops, state, 1) == (
            mcx_state(state, qubits.drop_last(), qubits.last()),
            if all_set(state, qubits.drop_last()) {
                if state(qubits.last()) { -1int } else { 1int }
            } else {
                0int
            },
        ),
{
    if let Ok(ops) = mc_gate_result(gate, qubits, params, c) {
        assert(validation_issue(gate, qubits, params, c) is None);
        let m = operand_model(gate, qubits, params);
        let controls = m.controls;
        let target = m.targets[0];
        assert(controls == qubits.drop_last());
        assert(target == qubits.last());
        let family = LoweringFamily::Pauli;
        let body = mcx_lowering(m, c, family, controls, target)->Ok_0;
        let sdg = seq![crate::circuit::plain(StandardGate::SDG, seq![target])];
        let s = seq![crate::circuit::plain(StandardGate::S, seq![target])];
        assert(ops == sdg + body + s);
        lemma_mcx_lowering_flips(m, c, family, controls, target, state);
        lemma_mcx_lowering_flip_ops(m, c, family, controls, target);
        lemma_flip_run(body, state, 1);
        let flipped = mcx_state(state, controls, target);
        assert(two_pow(0) == 1);
        assert(sdg.drop_last() =~= Seq::<crate::circuit::OpView>::empty());
        assert(s.drop_last() =~= Seq::<crate::circuit::OpView>::empty());
        let sdg_op = crate::circuit::plain(StandardGate::SDG, seq![target]);
        let s_op = crate::circuit::plain(StandardGate::S, seq![target]);
        assert(sdg.last() == sdg_op && s.last() == s_op);
        assert(sdg_op.qubits[0] == target && s_op.qubits[0] == target);
        assert(((1 - 1) as nat) == 0);
        assert(phase_run(Seq::<crate::circuit::OpView>::empty(), state, 1) == (state, 0int));
        assert(phase_run(Seq::<crate::circuit::OpView>::empty(), flipped, 1) == (flipped, 0int));
        assert(phase_run(sdg, state, 1) == (state, if state(target) { -1int } else { 0int }));
        assert(phase_run(s, flipped, 1) == (flipped, if flipped(target) { 1int } else { 0int }));
        lemma_phase_run_concat(sdg, body, state, 1);
        lemma_phase_run_concat(sdg + body, s, state, 1);
    }
}

/// The multi-controlled flip a `Z`-family gate is conjugated from: `X` for
/// `Z`, `CX` for `CZ`, with the same added controls.
pub open spec fn flip_of(gate: McGate) -> McGate {
    McGate { added_controls: gate.added_controls, base: if gate.base == StandardGate::Z { StandardGate::X } else { StandardGate::CX } }
}

/// Law: lowering a multi-controlled `Z` or `CZ` yields the lowering of the
/// multi-controlled `X` or `CX` on the same operands, with the same
/// parameters and configuration, between two `H` on the target; and with
/// the configured work qubits ready, that inner sequence flips the target
/// exactly when all controls are set. So the lowering is
/// `H (C^k X) H = C^k Z`: every basis state stays in place, negated exactly
/// when all controls and the target are set.
pub proof fn lemma_z_lowering_conjugates_flip(gate: McGate, qubits: Seq<Qubit>, params: Seq<CircuitParam>, c: LoweringConfig)
    requires
        gate.base == StandardGate::Z || gate.base == StandardGate::CZ,
    ensures
        mc_gate_result(gate, qubits, params, c) matches Ok(ops) ==> ({
            let flip = mc_gate_result(flip_of(gate), qubits, params, c);
            let h = crate::circuit::plain(StandardGate::H, seq![qubits.last()]);
            &&& flip is Ok
            &&& ops == seq![h] + flip->Ok_0 + seq![h]
            &&& forall|state: spec_fn(Qubit) -> bool| work_qubits_ready(c, state, mc_gate_control_count(gate))
                ==> apply_classical(flip->Ok_0, state) == mcx_state(state, qubits.drop_last(), qubits.last())
        }),
{
    if let Ok(ops) = mc_gate_result(gate, qubits, params, c) {
        let x = flip_of(gate);
        assert(validation_issue(gate, qubits, params, c) is None);
        assert(validation_issue(x, qubits, params, c) is None);
        let mz = operand_model(gate, qubits, params);
        let mx = operand_model(x, qubits, params);
        assert(mz.controls == mx.controls && mz.targets == mx.targets);
        assert(mz.targets.len() == 1);
        assert(mz.targets[0] == qubits.last());
        let family = LoweringFamily::Pauli;
        let cost = crate::decompose::mc_gate::pauli::mcx_cost(mz, c, family, mz.controls.len());
        assert(cost is Ok);
        assert(crate::decompose::mc_gate::pauli::mcx_cost(mx, c, family, mx.controls.len()) == cost);
        let body = mcx_lowering(mz, c, family, mz.controls, mz.targets[0]);
        assert(body is Ok);
        assert(mcx_lowering(mx, c, family, mx.controls, mx.targets[0]) == body);
        assert(mc_gate_result(x, qubits, params, c) == body);
        assert forall|state: spec_fn(Qubit) -> bool| work_qubits_ready(c, state, mc_gate_control_count(gate)) implies apply_classical(
            mc_gate_result(x, qubits, params, c)->Ok_0,
            state,
        ) == mcx_state(state, qubits.drop_last(), qubits.last()) by {
            lemma_flip_lowering_implements_mcx(x, qubits, params, c, state);
        }
    }
}

} // verus!
