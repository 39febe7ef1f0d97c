//! Rebuilding a standard-gate operation from its numeric normal form.
//!
//! A numeric normalizer rewrites one standard gate with fixed parameters
//! into zero or more equivalent standard gates (folding special angles into
//! named gates and compensating global phase with `GPhase`). This module
//! turns such a normal form back into operations: every gate keeps the
//! operation's qubits except `GPhase`, which has none, and the label moves
//! to the first gate that is not a `GPhase`.
use crate::circuit::{
    gate_qubit_count, op_view, ops_view, CircuitParam, Instruction, OpView, Operation, ParamList, QubitList,
    StandardGate,
};
use vstd::prelude::*;

verus! {

/// One gate of a numeric normal form.
#[derive(Debug, PartialEq, Eq)]
pub struct NormalizedGate {
    pub gate: StandardGate,
    pub params: Vec<CircuitParam>,
}

/// Position of the first gate at or after `k` that is not a `GPhase`.
pub open spec fn first_non_gphase(gates: Seq<NormalizedGate>, k: int) -> int
    decreases gates.len() - k,
{
    if k < 0 || k >= gates.len() || gates[k].gate != StandardGate::GPhase {
        k
    } else {
        first_non_gphase(gates, k + 1)
    }
}

/// Position of the entry that carries the label: the first one that is not a
/// `GPhase`, or the first one when all are, or none for an empty form.
pub open spec fn label_position(gates: Seq<NormalizedGate>) -> Option<int> {
    let p = first_non_gphase(gates, 0);
    if p < gates.len() {
        Some(p)
    } else if gates.len() > 0 {
        Some(0)
    } else {
        None
    }
}

/// The operation rebuilt from gate `i` of a normal form of `op`, the label
/// going to position `labeled`.
pub open spec fn normalized_op(gates: Seq<NormalizedGate>, op: OpView, labeled: Option<int>, i: int) -> OpView {
    let g = gates[i].gate;
    OpView {
        instruction: Instruction::Standard(g),
        qubits: if gate_qubit_count(g) == 0 { seq![] } else { op.qubits },
        params: gates[i].params@,
        label: if labeled == Some(i) { op.label } else { None },
    }
}

/// The operations replacing `op` under a normal form: the rebuilt gates, or
/// `op` itself when the form is empty and `op` is labeled.
pub open spec fn normalized_ops(gates: Seq<NormalizedGate>, op: OpView) -> Seq<OpView> {
    if gates.len() == 0 && op.label is Some {
        seq![op]
    } else {
        Seq::new(gates.len(), |i: int| normalized_op(gates, op, label_position(gates), i))
    }
}

/// Finds the entry that carries the label.
fn find_label_position(gates: &Vec<NormalizedGate>) -> (r: Option<usize>)
    ensures
        match label_position(gates@) {
            Some(p) => r == Some(p as usize) && 0 <= p < gates@.len(),
            None => r is None,
        },
{
    let mut i: usize = 0;
    while i < gates.len() && gates[i].gate == StandardGate::GPhase
        invariant
            i <= gates@.len(),
            first_non_gphase(gates@, 0) == first_non_gphase(gates@, i as int),
        decreases gates@.len() - i,
    {
        i = i + 1;
    }
    if i < gates.len() {
        Some(i)
    } else if gates.len() > 0 {
        Some(0)
    } else {
        None
    }
}

/// Replaces a standard-gate operation by the operations of its numeric
/// normal form: each gate takes the operation's qubits (none for `GPhase`),
/// the label goes to the first gate that is not a `GPhase`, and an empty
/// form of a labeled operation keeps the operation as it is.
pub fn apply_normalization(op: &Operation, gates: &Vec<NormalizedGate>) -> (r: Vec<Operation>)
    ensures
        ops_view(r@) == normalized_ops(gates@, op_view(*op)),
{
    if gates.len() == 0 && op.label.is_some() {
        let copy = crate::circuit::copy_operation(op);
        let out = vec![copy];
        proof {
            assert(ops_view(out@) =~= seq![op_view(*op)]);
        }
        return out;
    }
    let position = find_label_position(gates);
    let ghost labeled = label_position(gates@);
    let ghost source = op_view(*op);
    let mut out: Vec<Operation> = Vec::new();
    let mut i: usize = 0;
    proof {
        assert(ops_view(out@) =~= Seq::new(0, |k: int| normalized_op(gates@, source, labeled, k)));
    }
    while i < gates.len()
        invariant
            i <= gates@.len(),
            source == op_view(*op),
            labeled matches Some(p) ==> position == Some(p as usize) && 0 <= p < gates@.len(),
            labeled is None ==> position is None,
            ops_view(out@) == Seq::new(i as nat, |k: int| normalized_op(gates@, source, labeled, k)),
        decreases gates@.len() - i,
    {
        let g = gates[i].gate;
        let qubits = if g.num_qubits() == 0 {
            QubitList::from_slice(&[])
        } else {
            op.qubits.duplicate()
        };
        let label = if position == Some(i) {
            match &op.label {
                Some(s) => Some(s.clone()),
                None => None,
            }
        } else {
            None
        };
        let rebuilt = Operation {
            instruction: Instruction::Standard(g),
            qubits,
            params: ParamList::from_slice(gates[i].params.as_slice()),
            label,
        };
        proof {
            assert(op_view(rebuilt).qubits == normalized_op(gates@, source, labeled, i as int).qubits);
            assert(op_view(rebuilt).label == normalized_op(gates@, source, labeled, i as int).label);
            assert(op_view(rebuilt) == normalized_op(gates@, source, labeled, i as int));
        }
        let ghost before = ops_view(out@);
        out.push(rebuilt);
        proof {
            assert(ops_view(out@) =~= before.push(op_view(rebuilt)));
            assert(ops_view(out@) =~= Seq::new((i + 1) as nat, |k: int| normalized_op(gates@, source, labeled, k)));
        }
        i = i + 1;
    }
    out
}

} // verus!
