//! Input validation for the canonicalization contract.
//!
//! A circuit is accepted when every operation refers only to qubits of the
//! circuit, names no qubit twice (barriers excepted), has the operand and
//! parameter counts of its instruction, and refers only to parameters the
//! circuit's table holds. Operations are checked in order, and within one
//! operation the checks run in that order; the first failure is reported.
use crate::canonicalize::linear::is_barrier;
use crate::circuit::{
    circuit_view, gate_param_count, gate_qubit_count, op_view, ops_view, Circuit, CircuitParam, CircuitView, Instruction,
    OpView, Operation, Qubit,
};
use crate::decompose::mc_gate::decompose::mc_gate_qubit_count;
use crate::decompose::mc_gate::transformer::{find_missing_param, param_missing};
use crate::error::{CompilerError, InputIssue};
use crate::semantics::{find_duplicate, first_duplicate, lemma_first_duplicate_none};
use vstd::prelude::*;

verus! {

/// The first qubit that lies outside a circuit of `num_qubits` qubits.
pub open spec fn first_unknown(qubits: Seq<Qubit>, num_qubits: nat) -> Option<Qubit>
    decreases qubits.len(),
{
    if qubits.len() == 0 {
        None
    } else {
        match first_unknown(qubits.drop_last(), num_qubits) {
            Some(q) => Some(q),
            None => if qubits.last().id >= num_qubits {
                Some(qubits.last())
            } else {
                None
            },
        }
    }
}

/// Operand count of an instruction other than a barrier.
pub open spec fn expected_qubits(instruction: Instruction) -> nat {
    match instruction {
        Instruction::Standard(g) => gate_qubit_count(g),
        Instruction::McGate(g) => mc_gate_qubit_count(g),
        _ => 1,
    }
}

/// Parameter count of an instruction.
pub open spec fn expected_params(instruction: Instruction) -> nat {
    match instruction {
        Instruction::Standard(g) => gate_param_count(g),
        Instruction::McGate(g) => gate_param_count(g.base),
        Instruction::Directive(_) => 0,
        Instruction::Delay => 1,
    }
}

/// The arity failure of operation `index`, if any: a barrier takes any
/// operands and no parameters; every other instruction its fixed counts.
pub open spec fn arity_issue(op: OpView, index: nat) -> Option<InputIssue> {
    if is_barrier(op.instruction) {
        if op.params.len() != 0 {
            Some(InputIssue::BarrierParameters { op: index as usize, got: op.params.len() as usize })
        } else {
            None
        }
    } else if op.qubits.len() != expected_qubits(op.instruction) {
        Some(InputIssue::QubitCountMismatch {
            op: index as usize,
            expected: expected_qubits(op.instruction) as usize,
            got: op.qubits.len() as usize,
        })
    } else if op.params.len() != expected_params(op.instruction) {
        Some(InputIssue::ParamCountMismatch {
            op: index as usize,
            expected: expected_params(op.instruction) as usize,
            got: op.params.len() as usize,
        })
    } else {
        None
    }
}

/// The first failure of operation `index` in a circuit of `num_qubits`
/// qubits whose parameter table has `n` entries.
pub open spec fn operation_issue(op: OpView, index: nat, num_qubits: nat, n: nat) -> Option<InputIssue> {
    match first_unknown(op.qubits, num_qubits) {
        Some(q) => Some(InputIssue::UnknownQubit { op: index as usize, qubit: q }),
        None => if !is_barrier(op.instruction) && first_duplicate(op.qubits) is Some {
            Some(InputIssue::DuplicateQubit { op: index as usize, qubit: first_duplicate(op.qubits)->Some_0 })
        } else {
            match arity_issue(op, index) {
                Some(issue) => Some(issue),
                None => match param_missing(op.params, n) {
                    Some(i) => Some(InputIssue::MissingOperationParameter { op: index as usize, index: i }),
                    None => None,
                },
            }
        },
    }
}

/// The first failure over a sequence of operations, in order.
pub open spec fn operations_issue(ops: Seq<OpView>, num_qubits: nat, n: nat) -> Option<InputIssue>
    decreases ops.len(),
{
    if ops.len() == 0 {
        None
    } else {
        match operations_issue(ops.drop_last(), num_qubits, n) {
            Some(issue) => Some(issue),
            None => operation_issue(ops.last(), (ops.len() - 1) as nat, num_qubits, n),
        }
    }
}

/// Result of validating a circuit.
pub open spec fn verify_result(c: CircuitView) -> Result<(), CompilerError> {
    match operations_issue(c.ops, c.num_qubits as nat, c.parameters.len()) {
        Some(issue) => Err(CompilerError::InvalidInput(issue)),
        None => Ok(()),
    }
}

/// The first qubit outside a circuit of `num_qubits` qubits.
fn find_unknown(qubits: &[Qubit], num_qubits: u32) -> (r: Option<Qubit>)
    ensures
        r == first_unknown(qubits@, num_qubits as nat),
{
    let mut i: usize = 0;
    while i < qubits.len()
        invariant
            i <= qubits.len(),
            first_unknown(qubits@.subrange(0, i as int), num_qubits as nat) is None,
        decreases qubits.len() - i,
    {
        let ghost next = qubits@.subrange(0, i + 1);
        proof {
            assert(next.drop_last() =~= qubits@.subrange(0, i as int));
            assert(next.last() == qubits@[i as int]);
        }
        if qubits[i].id >= num_qubits {
            proof {
                lemma_unknown_extends(qubits@, i + 1, num_qubits as nat);
            }
            return Some(qubits[i]);
        }
        i = i + 1;
    }
    proof {
        assert(qubits@.subrange(0, qubits@.len() as int) =~= qubits@);
    }
    None
}

/// Once a prefix holds an unknown qubit, the whole sequence reports it.
proof fn lemma_unknown_extends(qubits: Seq<Qubit>, k: int, num_qubits: nat)
    requires
        0 <= k <= qubits.len(),
        first_unknown(qubits.subrange(0, k), num_qubits) is Some,
    ensures
        first_unknown(qubits, num_qubits) == first_unknown(qubits.subrange(0, k), num_qubits),
    decreases qubits.len() - k,
{
    if k < qubits.len() {
        assert(qubits.subrange(0, k + 1).drop_last() =~= qubits.subrange(0, k));
        lemma_unknown_extends(qubits, k + 1, num_qubits);
    } else {
        assert(qubits.subrange(0, k) =~= qubits);
    }
}

/// Checks the operand and parameter counts of operation `index`.
pub fn verify_instruction_arity(operation: &Operation, index: usize) -> (r: Result<(), CompilerError>)
    ensures
        r == match arity_issue(op_view(*operation), index as nat) {
            Some(issue) => Err::<(), CompilerError>(CompilerError::InvalidInput(issue)),
            None => Ok(()),
        },
{
    let qubit_count = operation.qubits.len();
    let param_count = operation.params.len();
    let (expected_qubits, expected_params) = match operation.instruction {
        Instruction::Directive(_) => {
            if param_count != 0 {
                return Err(CompilerError::InvalidInput(InputIssue::BarrierParameters { op: index, got: param_count }));
            }
            return Ok(());
        },
        Instruction::Standard(g) => (g.num_qubits(), g.num_params()),
        Instruction::McGate(g) => (g.num_qubits(), g.num_params()),
        Instruction::Delay => (1, 1),
    };
    if qubit_count != expected_qubits {
        return Err(CompilerError::InvalidInput(InputIssue::QubitCountMismatch {
            op: index,
            expected: expected_qubits,
            got: qubit_count,
        }));
    }
    if param_count != expected_params {
        return Err(CompilerError::InvalidInput(InputIssue::ParamCountMismatch {
            op: index,
            expected: expected_params,
            got: param_count,
        }));
    }
    Ok(())
}

/// Checks operation `index` of a circuit of `num_qubits` qubits whose
/// parameter table has `n` entries.
fn verify_operation(operation: &Operation, index: usize, num_qubits: u32, n: usize) -> (r: Result<(), CompilerError>)
    ensures
        r == match operation_issue(op_view(*operation), index as nat, num_qubits as nat, n as nat) {
            Some(issue) => Err::<(), CompilerError>(CompilerError::InvalidInput(issue)),
            None => Ok(()),
        },
{
    let qubits = operation.qubits.as_slice();
    if let Some(qubit) = find_unknown(qubits, num_qubits) {
        return Err(CompilerError::InvalidInput(InputIssue::UnknownQubit { op: index, qubit }));
    }
    let barrier = match operation.instruction {
        Instruction::Directive(_) => true,
        _ => false,
    };
    if !barrier {
        if let Some(qubit) = find_duplicate(qubits) {
            return Err(CompilerError::InvalidInput(InputIssue::DuplicateQubit { op: index, qubit }));
        }
    }
    match verify_instruction_arity(operation, index) {
        Ok(()) => {},
        Err(e) => return Err(e),
    }
    match find_missing_param(operation.params.as_slice(), n) {
        Some(i) => Err(CompilerError::InvalidInput(InputIssue::MissingOperationParameter { op: index, index: i })),
        None => Ok(()),
    }
}

/// Checks every operation of a circuit in order.
pub fn verify_operations(circuit: &Circuit) -> (r: Result<(), CompilerError>)
    ensures
        r == verify_result(circuit_view(*circuit)),
{
    let ghost all = ops_view(circuit.operations@);
    let ghost width = circuit.num_qubits as nat;
    let n = circuit.parameters.len();
    let ghost table = circuit_view(*circuit).parameters.len();
    proof {
        assert(table == n);
        assert(all.subrange(0, 0) =~= Seq::<OpView>::empty());
    }
    let mut i: usize = 0;
    while i < circuit.operations.len()
        invariant
            i <= circuit.operations@.len(),
            all == ops_view(circuit.operations@),
            all.len() == circuit.operations@.len(),
            width == circuit.num_qubits as nat,
            n == circuit.parameters@.len(),
            operations_issue(all.subrange(0, i as int), width, n as nat) is None,
        decreases circuit.operations@.len() - i,
    {
        let ghost next = all.subrange(0, i + 1);
        proof {
            assert(next.drop_last() =~= all.subrange(0, i as int));
            assert(next.last() == op_view(circuit.operations@[i as int]));
        }
        match verify_operation(&circuit.operations[i], i, circuit.num_qubits, n) {
            Ok(()) => {},
            Err(e) => {
                proof {
                    lemma_issue_extends(all, i + 1, width, n as nat);
                }
                return Err(e);
            },
        }
        i = i + 1;
    }
    proof {
        assert(all.subrange(0, all.len() as int) =~= all);
    }
    Ok(())
}

/// Once a prefix fails, the whole sequence reports the same failure.
proof fn lemma_issue_extends(ops: Seq<OpView>, k: int, num_qubits: nat, n: nat)
    requires
        0 <= k <= ops.len(),
        operations_issue(ops.subrange(0, k), num_qubits, n) is Some,
    ensures
        operations_issue(ops, num_qubits, n) == operations_issue(ops.subrange(0, k), num_qubits, n),
    decreases ops.len() - k,
{
    if k < ops.len() {
        assert(ops.subrange(0, k + 1).drop_last() =~= ops.subrange(0, k));
        lemma_issue_extends(ops, k + 1, num_qubits, n);
    } else {
        assert(ops.subrange(0, k) =~= ops);
    }
}

/// Validates a circuit as canonicalization input: `Ok` exactly when no
/// operation fails a check, else the first failure in order.
pub fn verify_circuit(circuit: &Circuit) -> (r: Result<(), CompilerError>)
    ensures
        r == verify_result(circuit_view(*circuit)),
{
    verify_operations(circuit)
}

/// Whether an operation is well formed in a circuit of `num_qubits` qubits
/// whose parameter table has `n` entries: every qubit lies in the circuit,
/// no qubit repeats unless it is a barrier, it has the operand and
/// parameter counts of its instruction (a barrier: any operands, no
/// parameters), and every parameter reference lies in the table.
pub open spec fn well_formed_operation(op: OpView, num_qubits: nat, n: nat) -> bool {
    &&& forall|j: int| 0 <= j < op.qubits.len() ==> (#[trigger] op.qubits[j]).id < num_qubits
    &&& !is_barrier(op.instruction) ==> op.qubits.no_duplicates()
    &&& match op.instruction {
        Instruction::Standard(g) => op.qubits.len() == gate_qubit_count(g) && op.params.len() == gate_param_count(g),
        Instruction::McGate(g) => op.qubits.len() == g.added_controls + gate_qubit_count(g.base)
            && op.params.len() == gate_param_count(g.base),
        Instruction::Directive(_) => op.params.len() == 0,
        Instruction::Delay => op.qubits.len() == 1 && op.params.len() == 1,
    }
    &&& forall|j: int| 0 <= j < op.params.len() ==> ((#[trigger] op.params[j]) matches CircuitParam::Index(i) ==> i < n)
}

proof fn lemma_first_unknown_none(qubits: Seq<Qubit>, num_qubits: nat)
    ensures
        first_unknown(qubits, num_qubits) is None <==> forall|j: int| 0 <= j < qubits.len() ==> (#[trigger] qubits[j]).id < num_qubits,
    decreases qubits.len(),
{
    if qubits.len() > 0 {
        let rest = qubits.drop_last();
        lemma_first_unknown_none(rest, num_qubits);
        if forall|j: int| 0 <= j < qubits.len() ==> (#[trigger] qubits[j]).id < num_qubits {
            assert forall|j: int| 0 <= j < rest.len() implies (#[trigger] rest[j]).id < num_qubits by {
                assert(rest[j] == qubits[j]);
            }
            assert(qubits[qubits.len() - 1].id < num_qubits);
        }
        if first_unknown(qubits, num_qubits) is None {
            assert forall|j: int| 0 <= j < qubits.len() implies (#[trigger] qubits[j]).id < num_qubits by {
                if j < qubits.len() - 1 {
                    assert(rest[j] == qubits[j]);
                }
            }
        }
    }
}

proof fn lemma_param_missing_none(params: Seq<CircuitParam>, n: nat)
    ensures
        param_missing(params, n) is None <==> forall|j: int| 0 <= j < params.len() ==> ((#[trigger] params[j]) matches CircuitParam::Index(i) ==> i < n),
    decreases params.len(),
{
    if params.len() > 0 {
        let rest = params.drop_last();
        lemma_param_missing_none(rest, n);
        if forall|j: int| 0 <= j < params.len() ==> ((#[trigger] params[j]) matches CircuitParam::Index(i) ==> i < n) {
            assert forall|j: int| 0 <= j < rest.len() implies ((#[trigger] rest[j]) matches CircuitParam::Index(i) ==> i < n) by {
                assert(rest[j] == params[j]);
            }
            assert(params[params.len() - 1] == params.last());
        }
        if param_missing(params, n) is None {
            assert forall|j: int| 0 <= j < params.len() implies ((#[trigger] params[j]) matches CircuitParam::Index(i) ==> i < n) by {
                if j < params.len() - 1 {
                    assert(rest[j] == params[j]);
                }
            }
        }
    }
}

proof fn lemma_operation_issue_none(op: OpView, index: nat, num_qubits: nat, n: nat)
    ensures
        operation_issue(op, index, num_qubits, n) is None <==> well_formed_operation(op, num_qubits, n),
{
    lemma_first_unknown_none(op.qubits, num_qubits);
    lemma_first_duplicate_none(op.qubits);
    lemma_param_missing_none(op.params, n);
    match op.instruction {
        Instruction::Directive(d) => {
            assert(d == crate::circuit::Directive::Barrier);
            assert(is_barrier(op.instruction));
        },
        _ => {},
    }
}

/// Law: `verify_circuit` accepts a circuit exactly when every operation is
/// well formed: its qubits lie in the circuit, a standard gate, MCGate or
/// delay names each qubit at most once, its operand and parameter counts
/// are those of its instruction (a barrier takes no parameters), and its
/// parameter references lie in the table.
pub proof fn lemma_verify_accepts_exactly_well_formed(c: CircuitView)
    ensures
        verify_result(c) is Ok <==> forall|i: int| 0 <= i < c.ops.len()
            ==> well_formed_operation(#[trigger] c.ops[i], c.num_qubits as nat, c.parameters.len()),
{
    lemma_operations_issue_none(c.ops, c.num_qubits as nat, c.parameters.len());
}

proof fn lemma_operations_issue_none(ops: Seq<OpView>, num_qubits: nat, n: nat)
    ensures
        operations_issue(ops, num_qubits, n) is None <==> forall|i: int| 0 <= i < ops.len()
            ==> well_formed_operation(#[trigger] ops[i], num_qubits, n),
    decreases ops.len(),
{
    if ops.len() > 0 {
        let rest = ops.drop_last();
        lemma_operations_issue_none(rest, num_qubits, n);
        lemma_operation_issue_none(ops.last(), (ops.len() - 1) as nat, num_qubits, n);
        if forall|i: int| 0 <= i < ops.len() ==> well_formed_operation(#[trigger] ops[i], num_qubits, n) {
            assert forall|i: int| 0 <= i < rest.len() implies well_formed_operation(#[trigger] rest[i], num_qubits, n) by {
                assert(rest[i] == ops[i]);
            }
            assert(well_formed_operation(ops[ops.len() - 1], num_qubits, n));
        }
        if operations_issue(ops, num_qubits, n) is None {
            assert forall|i: int| 0 <= i < ops.len() implies well_formed_operation(#[trigger] ops[i], num_qubits, n) by {
                if i < ops.len() - 1 {
                    assert(rest[i] == ops[i]);
                }
            }
        }
    }
}

} // verus!
