//! Pauli-interaction lowering (`RXX`, `RYY`, `RZZ`, `RZX`).
//!
//! Each interaction is first written over standard gates: `RZZ(theta)` is
//! `CX(a, b); RZ(theta) on b; CX(a, b)`, and the others conjugate that body
//! by basis changes. Every base operation is then lifted under the controls
//! and lowered recursively, the remaining operation budget shrinking with
//! each lifted block.
use crate::circuit::{
    append_all, gate_param_count, make_operation, op_view, ops_view, plain, push_gate1, push_gate2, push_param_gate1,
    with_params, Angle, CircuitParam, Instruction, McGate, OpView, Operation, Qubit, StandardGate,
};
use crate::decompose::mc_gate::decompose::{
    decompose_lifted, gate_rank, lifted_result, lowered, lowering_config, view_error, view_failure, AncillaMode,
    LoweringConfig, McGateDecomposeConfig, McGateOperandView, OperandModel,
};
use crate::decompose::mc_gate::one_qubit::then;
use crate::decompose::mc_gate::rx_ry::{half_pi, model_ok, rotation_op};
use crate::error::{CompilerError, LoweringFamily, McGateDetail, McGateFailure, NestedStep};
use crate::semantics::copy_range;
use vstd::prelude::*;

verus! {

/// Whether a base gate belongs to the Pauli-interaction family.
pub open spec fn pauli_interaction_member(base: StandardGate) -> bool {
    base == StandardGate::RXX || base == StandardGate::RYY || base == StandardGate::RZZ || base == StandardGate::RZX
}

/// `RZZ(theta)` on `a`, `b` as `CX; RZ(theta) on b; CX`.
pub open spec fn rzz_body(a: Qubit, b: Qubit, theta: CircuitParam) -> Seq<OpView> {
    seq![
        plain(StandardGate::CX, seq![a, b]),
        with_params(StandardGate::RZ, seq![b], seq![theta]),
        plain(StandardGate::CX, seq![a, b]),
    ]
}

/// The uncontrolled interaction written over standard gates.
pub open spec fn base_interaction(base: StandardGate, a: Qubit, b: Qubit, theta: CircuitParam) -> Seq<OpView> {
    if base == StandardGate::RXX {
        seq![plain(StandardGate::H, seq![a]), plain(StandardGate::H, seq![b])] + rzz_body(a, b, theta) + seq![
            plain(StandardGate::H, seq![a]),
            plain(StandardGate::H, seq![b]),
        ]
    } else if base == StandardGate::RYY {
        seq![rotation_op(StandardGate::RX, a, half_pi(1i64)), rotation_op(StandardGate::RX, b, half_pi(1i64))]
            + rzz_body(a, b, theta) + seq![
            rotation_op(StandardGate::RX, a, half_pi(-1i64)),
            rotation_op(StandardGate::RX, b, half_pi(-1i64)),
        ]
    } else if base == StandardGate::RZZ {
        rzz_body(a, b, theta)
    } else {
        seq![plain(StandardGate::H, seq![b])] + rzz_body(a, b, theta) + seq![plain(StandardGate::H, seq![b])]
    }
}

/// The standard gate of a base operation.
pub open spec fn standard_gate_of(op: OpView) -> StandardGate {
    match op.instruction {
        Instruction::Standard(g) => g,
        _ => StandardGate::I,
    }
}

/// Rank bound of the gates a family lifts: every lifted base operation has
/// a lower rank than the family's own gates.
pub open spec fn lift_bound(family: LoweringFamily) -> nat {
    if family == LoweringFamily::Fsim {
        4
    } else {
        3
    }
}

/// The nested step reported when lifting `g` fails.
pub open spec fn lift_step(family: LoweringFamily, g: StandardGate) -> NestedStep {
    if family == LoweringFamily::Fsim {
        NestedStep::FsimLift(g)
    } else {
        NestedStep::PauliInteractionLift(g)
    }
}

/// Lifts each base operation under the controls and lowers it with the
/// remaining budget.
pub open spec fn lift_all(m: OperandModel, c: LoweringConfig, family: LoweringFamily, ops: Seq<OpView>, budget: usize) -> Result<Seq<OpView>, McGateFailure>
    decreases lift_bound(family), 0nat, ops.len(),
{
    if ops.len() == 0 {
        Ok(seq![])
    } else {
        let op = ops[0];
        let g = standard_gate_of(op);
        let nested = LoweringConfig { max_ops: budget, ..c };
        match lifted_result(
            lift_bound(family),
            McGate { added_controls: m.controls.len() as u8, base: g },
            m.controls + op.qubits,
            op.params,
            nested,
            lift_step(family, g),
        ) {
            Err(f) => Err(f),
            Ok(x) => if x.len() > budget {
                view_failure(m, c, McGateDetail::BudgetUnderflow(family))
            } else {
                then(Ok(x), lift_all(m, c, family, ops.drop_first(), (budget - x.len()) as usize))
            },
        }
    }
}

/// Result of the Pauli-interaction lowering.
pub open spec fn pauli_interaction_family(m: OperandModel, params: Seq<CircuitParam>, c: LoweringConfig) -> Result<Seq<OpView>, McGateFailure>
    decreases gate_rank(m.base), 1nat, 0nat,
{
    if m.targets.len() != 2 {
        view_failure(m, c, McGateDetail::WrongTargetCount {
            family: LoweringFamily::PauliInteraction,
            base: m.base,
            expected: 2,
            got: m.targets.len() as usize,
        })
    } else if !pauli_interaction_member(m.base) {
        view_failure(m, c, McGateDetail::NotInFamily { family: LoweringFamily::PauliInteraction, base: m.base })
    } else if m.controls.len() == 0 {
        if c.max_ops == 0 {
            view_failure(m, c, McGateDetail::ExceedsBudget { family: LoweringFamily::PauliInteraction, count: 1, max: c.max_ops })
        } else {
            Ok(seq![with_params(m.base, seq![m.targets[0], m.targets[1]], params)])
        }
    } else if c.mode == AncillaMode::NoAncilla && m.controls.len() >= 2 {
        view_failure(m, c, McGateDetail::NoAncillaMultiControlPauliInteraction { controls: m.controls.len() as usize })
    } else {
        lift_all(m, c, LoweringFamily::PauliInteraction, base_interaction(m.base, m.targets[0], m.targets[1], params[0]), c.max_ops)
    }
}

/// Builds the uncontrolled interaction over standard gates.
fn base_interaction_operations(base: StandardGate, a: Qubit, b: Qubit, theta: CircuitParam) -> (r: Vec<Operation>)
    requires
        pauli_interaction_member(base),
    ensures
        ops_view(r@) == base_interaction(base, a, b, theta),
        forall|j: int| 0 <= j < r@.len() ==> (#[trigger] ops_view(r@)[j]).instruction is Standard
            && gate_rank(standard_gate_of(ops_view(r@)[j])) < 3,
{
    let mut operations: Vec<Operation> = Vec::new();
    let half = CircuitParam::Fixed(Angle::pi_fraction(1, 1));
    let negative_half = CircuitParam::Fixed(Angle::pi_fraction(-1, 1));
    if base == StandardGate::RXX {
        push_gate1(&mut operations, StandardGate::H, a);
        push_gate1(&mut operations, StandardGate::H, b);
    } else if base == StandardGate::RYY {
        push_param_gate1(&mut operations, StandardGate::RX, a, half);
        push_param_gate1(&mut operations, StandardGate::RX, b, half);
    } else if base == StandardGate::RZX {
        push_gate1(&mut operations, StandardGate::H, b);
    }
    let ghost head = ops_view(operations@);
    push_gate2(&mut operations, StandardGate::CX, a, b);
    push_param_gate1(&mut operations, StandardGate::RZ, b, theta);
    push_gate2(&mut operations, StandardGate::CX, a, b);
    let ghost middle = ops_view(operations@);
    proof {
        assert(middle =~= head + rzz_body(a, b, theta));
    }
    if base == StandardGate::RXX {
        push_gate1(&mut operations, StandardGate::H, a);
        push_gate1(&mut operations, StandardGate::H, b);
    } else if base == StandardGate::RYY {
        push_param_gate1(&mut operations, StandardGate::RX, a, negative_half);
        push_param_gate1(&mut operations, StandardGate::RX, b, negative_half);
    } else if base == StandardGate::RZX {
        push_gate1(&mut operations, StandardGate::H, b);
    }
    proof {
        assert(ops_view(operations@) =~= base_interaction(base, a, b, theta));
        let all = ops_view(operations@);
        assert forall|j: int| 0 <= j < operations@.len() implies (#[trigger] all[j]).instruction is Standard
            && gate_rank(standard_gate_of(all[j])) < 3 by {
            assert(all == base_interaction(base, a, b, theta));
        }
    }
    operations
}

/// Lifts one base operation under the view's controls and lowers it with
/// the given remaining budget.
fn lift_base_operation(view: &McGateOperandView, config: &McGateDecomposeConfig, family: LoweringFamily, op: &Operation, remaining: usize) -> (r: Result<Vec<Operation>, CompilerError>)
    requires
        model_ok(view@),
        gate_rank(view@.base) == lift_bound(family),
        op.instruction is Standard,
        gate_rank(standard_gate_of(op_view(*op))) < lift_bound(family),
    ensures
        ({
            let m = view@;
            let o = op_view(*op);
            let g = standard_gate_of(o);
            lowered(r, lifted_result(
                lift_bound(family),
                McGate { added_controls: m.controls.len() as u8, base: g },
                m.controls + o.qubits,
                o.params,
                LoweringConfig { max_ops: remaining, ..lowering_config(*config) },
                lift_step(family, g),
            ))
        }),
    decreases lift_bound(family), 0nat, 1nat,
{
    let controls = view.all_controls();
    let k = controls.len();
    let gate = match op.instruction {
        Instruction::Standard(g) => g,
        _ => StandardGate::I,
    };
    let lifted = McGate { added_controls: k as u8, base: gate };
    let mut qubits = copy_range(controls, 0, k);
    let op_qubits = op.qubits.as_slice();
    let mut t: usize = 0;
    while t < op_qubits.len()
        invariant
            t <= op_qubits.len(),
            qubits@ == controls@ + op_qubits@.subrange(0, t as int),
        decreases op_qubits.len() - t,
    {
        qubits.push(op_qubits[t]);
        t = t + 1;
        proof {
            assert(qubits@ =~= controls@ + op_qubits@.subrange(0, t as int));
        }
    }
    proof {
        assert(op_qubits@.subrange(0, op_qubits@.len() as int) =~= op_qubits@);
    }
    let nested_config = McGateDecomposeConfig {
        ancilla_mode: config.ancilla_mode,
        clean_ancillas: copy_range(config.clean_ancillas.as_slice(), 0, config.clean_ancillas.len()),
        dirty_ancillas: copy_range(config.dirty_ancillas.as_slice(), 0, config.dirty_ancillas.len()),
        max_expansion_ops: remaining,
        max_recursion_depth: config.max_recursion_depth,
        skip_labeled_ops: config.skip_labeled_ops,
    };
    proof {
        assert(config.clean_ancillas@.subrange(0, config.clean_ancillas@.len() as int) =~= config.clean_ancillas@);
        assert(config.dirty_ancillas@.subrange(0, config.dirty_ancillas@.len() as int) =~= config.dirty_ancillas@);
        assert(lowering_config(nested_config) == (LoweringConfig { max_ops: remaining, ..lowering_config(*config) }));
    }
    let (bound, step) = if family == LoweringFamily::Fsim {
        (4usize, NestedStep::FsimLift(gate))
    } else {
        (3usize, NestedStep::PauliInteractionLift(gate))
    };
    decompose_lifted(bound, &lifted, qubits.as_slice(), op.params.as_slice(), &nested_config, step)
}

/// Lowers a Pauli-interaction MCGate.
pub fn decompose_pauli_interaction_family(view: &McGateOperandView, params: &[CircuitParam], config: &McGateDecomposeConfig) -> (r: Result<Vec<Operation>, CompilerError>)
    requires
        model_ok(view@),
        gate_rank(view@.base) == 3,
        params@.len() == gate_param_count(view@.base),
    ensures
        lowered(r, pauli_interaction_family(view@, params@, lowering_config(*config))),
    decreases gate_rank(view@.base), 1nat, 0nat,
{
    let targets = view.targets();
    let base = view.base_gate();
    if targets.len() != 2 {
        return Err(view_error(view, config, McGateDetail::WrongTargetCount {
            family: LoweringFamily::PauliInteraction,
            base,
            expected: 2,
            got: targets.len(),
        }));
    }
    if !(base == StandardGate::RXX || base == StandardGate::RYY || base == StandardGate::RZZ || base == StandardGate::RZX) {
        return Err(view_error(view, config, McGateDetail::NotInFamily { family: LoweringFamily::PauliInteraction, base }));
    }
    let first = targets[0];
    let second = targets[1];
    let controls = view.all_controls();
    let k = controls.len();
    if k == 0 {
        if config.max_expansion_ops == 0 {
            return Err(view_error(view, config, McGateDetail::ExceedsBudget {
                family: LoweringFamily::PauliInteraction,
                count: 1,
                max: config.max_expansion_ops,
            }));
        }
        let qs = [first, second];
        proof {
            assert(qs@ =~= seq![first, second]);
        }
        let op = make_operation(Instruction::Standard(base), &qs, params);
        let operations = vec![op];
        proof {
            assert(ops_view(operations@) =~= seq![with_params(base, seq![first, second], params@)]);
        }
        return Ok(operations);
    }
    if config.ancilla_mode == AncillaMode::NoAncilla && k >= 2 {
        return Err(view_error(view, config, McGateDetail::NoAncillaMultiControlPauliInteraction { controls: k }));
    }
    let base_ops = base_interaction_operations(base, first, second, params[0]);
    lift_all_operations(view, config, LoweringFamily::PauliInteraction, &base_ops)
}

/// Lifts every base operation in turn, shrinking the budget by each block.
pub(crate) fn lift_all_operations(view: &McGateOperandView, config: &McGateDecomposeConfig, family: LoweringFamily, base_ops: &Vec<Operation>) -> (r: Result<Vec<Operation>, CompilerError>)
    requires
        model_ok(view@),
        gate_rank(view@.base) == lift_bound(family),
        forall|j: int| 0 <= j < base_ops@.len() ==> (#[trigger] ops_view(base_ops@)[j]).instruction is Standard
            && gate_rank(standard_gate_of(ops_view(base_ops@)[j])) < lift_bound(family),
    ensures
        lowered(r, lift_all(view@, lowering_config(*config), family, ops_view(base_ops@), config.max_expansion_ops)),
    decreases lift_bound(family), 0nat, 2nat,
{
    let ghost m = view@;
    let ghost c = lowering_config(*config);
    let ghost all = ops_view(base_ops@);
    let n = base_ops.len();
    let mut remaining = config.max_expansion_ops;
    let mut operations: Vec<Operation> = Vec::new();
    proof {
        assert(all.subrange(0, n as int) =~= all);
        match lift_all(m, c, family, all, c.max_ops) {
            Ok(y) => {
                assert(Seq::<OpView>::empty() + y =~= y);
            },
            Err(_) => {},
        }
    }
    let mut i: usize = 0;
    while i < n
        invariant
            i <= n,
            n == base_ops@.len(),
            all == ops_view(base_ops@),
            m == view@,
            c == lowering_config(*config),
            model_ok(m),
            gate_rank(m.base) == lift_bound(family),
            forall|j: int| 0 <= j < n ==> (#[trigger] all[j]).instruction is Standard && gate_rank(standard_gate_of(all[j])) < lift_bound(family),
            lift_all(m, c, family, all, c.max_ops) == then(Ok(ops_view(operations@)), lift_all(m, c, family, all.subrange(i as int, n as int), remaining)),
        decreases n - i,
    {
        let op = &base_ops[i];
        proof {
            assert(op_view(*op) == all[i as int]);
            let suffix = all.subrange(i as int, n as int);
            assert(suffix[0] == all[i as int]);
            assert(suffix.drop_first() =~= all.subrange(i + 1, n as int));
        }
        let nested = match lift_base_operation(view, config, family, op, remaining) {
            Ok(ops) => ops,
            Err(e) => return Err(e),
        };
        if nested.len() > remaining {
            return Err(view_error(view, config, McGateDetail::BudgetUnderflow(family)));
        }
        remaining = remaining - nested.len();
        let ghost before = ops_view(operations@);
        let ghost block = ops_view(nested@);
        append_all(&mut operations, nested);
        proof {
            assert(ops_view(operations@) =~= before + block);
            let rest = lift_all(m, c, family, all.subrange(i + 1, n as int), remaining);
            match rest {
                Ok(y) => {
                    assert(before + (block + y) =~= (before + block) + y);
                },
                Err(_) => {},
            }
        }
        i = i + 1;
    }
    proof {
        assert(all.subrange(n as int, n as int) =~= Seq::<OpView>::empty());
        assert(ops_view(operations@) + Seq::<OpView>::empty() =~= ops_view(operations@));
    }
    Ok(operations)
}

} // verus!
