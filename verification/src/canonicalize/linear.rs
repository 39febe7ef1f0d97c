//! Structural canonicalization of an operation sequence.
//!
//! Each operation, in order: multi-controlled wrappers collapse into their
//! standard form, barrier qubits are sorted and deduplicated, unlabeled
//! trivial no-ops are dropped, zero-qubit standard gates lose their
//! operands, and adjacent barriers whose scopes are equal or nested merge
//! into one, joining their labels.
use crate::canonicalize::config::{CanonicalizeConfig, CanonicalizeSettings};
use crate::canonicalize::labels::{merge_operation_labels, merged_label};
use crate::circuit::{
    angle_is_zero, gate_qubit_count, op_view, ops_view, CircuitParam, Directive, Instruction, McGate, OpView,
    Operation, Qubit, QubitList, StandardGate,
};
use crate::decompose::mc_gate::transformer::{find_missing_param, param_missing};
use crate::error::{CompilerError, InputIssue};
use vstd::prelude::*;

verus! {

/// Standard form of a multi-controlled wrapper, where one exists.
pub open spec fn canonical_form(instruction: Instruction) -> Instruction {
    match instruction {
        Instruction::McGate(g) => if g.added_controls == 0 {
            Instruction::Standard(g.base)
        } else if g.added_controls == 1 {
            match g.base {
                StandardGate::X => Instruction::Standard(StandardGate::CX),
                StandardGate::Y => Instruction::Standard(StandardGate::CY),
                StandardGate::Z => Instruction::Standard(StandardGate::CZ),
                StandardGate::CX => Instruction::Standard(StandardGate::CCX),
                StandardGate::RX => Instruction::Standard(StandardGate::CRX),
                StandardGate::RY => Instruction::Standard(StandardGate::CRY),
                StandardGate::RZ => Instruction::Standard(StandardGate::CRZ),
                _ => instruction,
            }
        } else if g.added_controls == 2 && g.base == StandardGate::X {
            Instruction::Standard(StandardGate::CCX)
        } else {
            instruction
        },
        _ => instruction,
    }
}

/// Collapses a multi-controlled wrapper into its standard form, where one exists.
pub fn canonicalize_form(instruction: Instruction) -> (r: Instruction)
    ensures
        r == canonical_form(instruction),
{
    match instruction {
        Instruction::McGate(g) => {
            if g.added_controls == 0 {
                Instruction::Standard(g.base)
            } else if g.added_controls == 1 {
                match g.base {
                    StandardGate::X => Instruction::Standard(StandardGate::CX),
                    StandardGate::Y => Instruction::Standard(StandardGate::CY),
                    StandardGate::Z => Instruction::Standard(StandardGate::CZ),
                    StandardGate::CX => Instruction::Standard(StandardGate::CCX),
                    StandardGate::RX => Instruction::Standard(StandardGate::CRX),
                    StandardGate::RY => Instruction::Standard(StandardGate::CRY),
                    StandardGate::RZ => Instruction::Standard(StandardGate::CRZ),
                    _ => instruction,
                }
            } else if g.added_controls == 2 && g.base == StandardGate::X {
                Instruction::Standard(StandardGate::CCX)
            } else {
                instruction
            }
        },
        _ => instruction,
    }
}

/// Whether an instruction is a barrier.
pub open spec fn is_barrier(instruction: Instruction) -> bool {
    instruction == Instruction::Directive(Directive::Barrier)
}

/// Position of the first element of `s`, from `k` on, whose id is not below `q`'s.
pub open spec fn first_not_below(s: Seq<Qubit>, q: Qubit, k: int) -> int
    decreases s.len() - k,
{
    if k < 0 || k >= s.len() || s[k].id >= q.id {
        k
    } else {
        first_not_below(s, q, k + 1)
    }
}

/// Inserts `q` into `s` before the first element whose id is not below
/// `q`'s, unless that element is `q` itself.
pub open spec fn insert_unique(s: Seq<Qubit>, q: Qubit) -> Seq<Qubit> {
    let p = first_not_below(s, q, 0);
    if 0 <= p < s.len() && s[p] == q {
        s
    } else {
        s.insert(p, q)
    }
}

/// Barrier qubits sorted by id without repeats.
pub open spec fn sort_unique(qubits: Seq<Qubit>) -> Seq<Qubit>
    decreases qubits.len(),
{
    if qubits.len() == 0 {
        seq![]
    } else {
        insert_unique(sort_unique(qubits.drop_last()), qubits.last())
    }
}

/// Whether an instruction is dropped when its first parameter is zero.
pub open spec fn zero_droppable(instruction: Instruction) -> bool {
    match instruction {
        Instruction::Delay => true,
        Instruction::Standard(g) => g == StandardGate::RX || g == StandardGate::RY || g == StandardGate::RZ
            || g == StandardGate::Phase || g == StandardGate::RXX || g == StandardGate::RYY || g == StandardGate::RZZ
            || g == StandardGate::RZX,
        _ => false,
    }
}

/// Whether the first parameter is a fixed zero; a reference outside the
/// parameter table of length `n` fails with its index. Table entries are
/// symbolic and never count as zero.
pub open spec fn first_param_zero(params: Seq<CircuitParam>, n: nat) -> Result<bool, u32> {
    if params.len() == 0 {
        Ok(false)
    } else {
        match params[0] {
            CircuitParam::Fixed(a) => Ok(angle_is_zero(a)),
            CircuitParam::Index(i) => if i < n { Ok(false) } else { Err(i) },
        }
    }
}

/// Whether a canonicalized operation is a trivial no-op to drop.
pub open spec fn drop_decision(op: OpView, instruction: Instruction, qubits: Seq<Qubit>, n: nat, cfg: CanonicalizeSettings) -> Result<bool, u32> {
    if !cfg.drop_trivial_noops || op.label is Some {
        Ok(false)
    } else if is_barrier(instruction) && qubits.len() == 0 {
        Ok(true)
    } else if instruction == Instruction::Standard(StandardGate::I) {
        Ok(true)
    } else if zero_droppable(instruction) {
        first_param_zero(op.params, n)
    } else {
        Ok(false)
    }
}

/// One operation after canonicalization: dropped (`None`), kept in
/// canonical form, or failing with a parameter reference outside the table.
pub open spec fn canonical_op(op: OpView, n: nat, cfg: CanonicalizeSettings) -> Result<Option<OpView>, u32> {
    let instruction = if cfg.canonicalize_instruction_form { canonical_form(op.instruction) } else { op.instruction };
    let qubits = if is_barrier(instruction) { sort_unique(op.qubits) } else { op.qubits };
    match drop_decision(op, instruction, qubits, n, cfg) {
        Err(i) => Err(i),
        Ok(true) => Ok(None),
        Ok(false) => match param_missing(op.params, n) {
            Some(i) => Err(i),
            None => {
                let operands = match instruction {
                    Instruction::Standard(g) => if gate_qubit_count(g) == 0 { seq![] } else { qubits },
                    _ => qubits,
                };
                Ok(Some(OpView { instruction, qubits: operands, params: op.params, label: op.label }))
            },
        },
    }
}

/// How two barrier scopes relate.
#[derive(Clone, Copy, Debug, PartialEq, Eq, Hash, Structural)]
pub enum BarrierRelation {
    Equal,
    LeftSuperset,
    RightSuperset,
    DisjointOrOverlap,
}

/// Relation of two barrier scopes.
pub open spec fn barrier_relation(left: Seq<Qubit>, right: Seq<Qubit>) -> BarrierRelation {
    if left == right {
        BarrierRelation::Equal
    } else {
        let left_covers = forall|i: int| 0 <= i < right.len() ==> left.contains(right[i]);
        let right_covers = forall|i: int| 0 <= i < left.len() ==> right.contains(left[i]);
        if left_covers && !right_covers {
            BarrierRelation::LeftSuperset
        } else if !left_covers && right_covers {
            BarrierRelation::RightSuperset
        } else {
            BarrierRelation::DisjointOrOverlap
        }
    }
}

/// Appends a canonicalized operation, merging it into an adjacent barrier
/// when the scopes are equal or nested.
pub open spec fn push_merged(out: Seq<OpView>, op: OpView, cfg: CanonicalizeSettings) -> Seq<OpView> {
    if !cfg.merge_adjacent_barriers || !is_barrier(op.instruction) || out.len() == 0 || !is_barrier(out.last().instruction) {
        out.push(op)
    } else {
        let last = out.last();
        match barrier_relation(last.qubits, op.qubits) {
            BarrierRelation::Equal | BarrierRelation::LeftSuperset => out.update(
                out.len() - 1,
                OpView { label: merged_label(last.label, op.label), ..last },
            ),
            BarrierRelation::RightSuperset => out.update(
                out.len() - 1,
                OpView { label: merged_label(op.label, last.label), ..op },
            ),
            BarrierRelation::DisjointOrOverlap => out.push(op),
        }
    }
}

/// The structural pass over a sequence; failures carry the first parameter
/// reference outside the table of length `n`.
pub open spec fn structural_pass(ops: Seq<OpView>, n: nat, cfg: CanonicalizeSettings) -> Result<Seq<OpView>, u32>
    decreases ops.len(),
{
    if ops.len() == 0 {
        Ok(seq![])
    } else {
        match structural_pass(ops.drop_last(), n, cfg) {
            Err(i) => Err(i),
            Ok(out) => match canonical_op(ops.last(), n, cfg) {
                Err(i) => Err(i),
                Ok(None) => Ok(out),
                Ok(Some(c)) => Ok(push_merged(out, c, cfg)),
            },
        }
    }
}

/// Whether qubit ids strictly increase along a sequence.
pub open spec fn strictly_sorted(s: Seq<Qubit>) -> bool {
    forall|i: int, j: int| 0 <= i < j < s.len() ==> (#[trigger] s[i]).id < (#[trigger] s[j]).id
}

/// The search position lies between `k` and the end, every element it
/// passes has a smaller id than `q`, and the element it stops at does not.
proof fn lemma_first_not_below(s: Seq<Qubit>, q: Qubit, k: int)
    requires
        0 <= k <= s.len(),
    ensures
        k <= first_not_below(s, q, k) <= s.len(),
        forall|i: int| k <= i < first_not_below(s, q, k) ==> (#[trigger] s[i]).id < q.id,
        first_not_below(s, q, k) < s.len() ==> s[first_not_below(s, q, k)].id >= q.id,
    decreases s.len() - k,
{
    if k < s.len() && s[k].id < q.id {
        lemma_first_not_below(s, q, k + 1);
    }
}

/// Inserting into a strictly sorted sequence keeps it strictly sorted and
/// adds exactly `q`.
proof fn lemma_insert_unique(s: Seq<Qubit>, q: Qubit)
    requires
        strictly_sorted(s),
    ensures
        strictly_sorted(insert_unique(s, q)),
        forall|x: Qubit| insert_unique(s, q).contains(x) <==> s.contains(x) || x == q,
{
    let p = first_not_below(s, q, 0);
    lemma_first_not_below(s, q, 0);
    if 0 <= p < s.len() && s[p] == q {
        assert(s.contains(s[p]));
    } else {
        let r = s.insert(p, q);
        assert(r.len() == s.len() + 1);
        assert forall|i: int| 0 <= i < r.len() implies #[trigger] r[i] == if i < p { s[i] } else if i == p { q } else { s[i - 1] } by {}
        if p < s.len() {
            assert(s[p].id > q.id) by {
                if s[p].id == q.id {
                    assert(s[p] == q);
                }
            }
        }
        assert forall|i: int, j: int| 0 <= i < j < r.len() implies (#[trigger] r[i]).id < (#[trigger] r[j]).id by {
            if j < p {
            } else if j == p {
            } else if i < p {
                assert(s[i].id < q.id);
                assert(s[p].id > q.id);
                if j - 1 > p {
                    assert(s[p].id < s[j - 1].id);
                }
            } else if i == p {
                assert(s[p].id > q.id);
                if j - 1 > p {
                    assert(s[p].id < s[j - 1].id);
                }
            } else {
            }
        }
        assert forall|x: Qubit| r.contains(x) <==> s.contains(x) || x == q by {
            if r.contains(x) {
                let i = choose|i: int| 0 <= i < r.len() && r[i] == x;
                if i < p {
                    assert(s[i] == x);
                } else if i > p {
                    assert(s[i - 1] == x);
                }
            }
            if s.contains(x) {
                let i = choose|i: int| 0 <= i < s.len() && s[i] == x;
                if i < p {
                    assert(r[i] == x);
                } else {
                    assert(r[i + 1] == x);
                }
            }
            if x == q {
                assert(r[p] == q);
            }
        }
    }
}

/// Law: barrier qubits come out strictly sorted by id, holding exactly the
/// qubits they went in with.
pub proof fn lemma_sort_unique(qubits: Seq<Qubit>)
    ensures
        strictly_sorted(sort_unique(qubits)),
        forall|x: Qubit| sort_unique(qubits).contains(x) <==> qubits.contains(x),
    decreases qubits.len(),
{
    if qubits.len() > 0 {
        let rest = qubits.drop_last();
        lemma_sort_unique(rest);
        lemma_insert_unique(sort_unique(rest), qubits.last());
        assert forall|x: Qubit| qubits.contains(x) <==> rest.contains(x) || x == qubits.last() by {
            if qubits.contains(x) {
                let i = choose|i: int| 0 <= i < qubits.len() && qubits[i] == x;
                if i < qubits.len() - 1 {
                    assert(rest[i] == x);
                }
            }
            if rest.contains(x) {
                let i = choose|i: int| 0 <= i < rest.len() && rest[i] == x;
                assert(qubits[i] == x);
            }
            if x == qubits.last() {
                assert(qubits[qubits.len() - 1] == x);
            }
        }
    }
}

/// Inserts `q` into a list at the position [`insert_unique`] gives.
fn insert_unique_qubit(s: &mut Vec<Qubit>, q: Qubit)
    ensures
        final(s)@ == insert_unique(old(s)@, q),
{
    let mut p: usize = 0;
    while p < s.len() && s[p].id < q.id
        invariant
            p <= s@.len(),
            first_not_below(s@, q, 0) == first_not_below(s@, q, p as int),
        decreases s@.len() - p,
    {
        p = p + 1;
    }
    if p < s.len() && s[p] == q {
        return;
    }
    s.insert(p, q);
}

/// Sorts barrier qubits by id and removes repeats.
pub fn canonicalize_barrier_qubits(qubits: &[Qubit]) -> (r: Vec<Qubit>)
    ensures
        r@ == sort_unique(qubits@),
        strictly_sorted(r@),
        forall|x: Qubit| r@.contains(x) <==> qubits@.contains(x),
{
    proof {
        lemma_sort_unique(qubits@);
    }
    let mut r: Vec<Qubit> = Vec::new();
    let mut i: usize = 0;
    while i < qubits.len()
        invariant
            i <= qubits@.len(),
            r@ == sort_unique(qubits@.subrange(0, i as int)),
        decreases qubits@.len() - i,
    {
        proof {
            let next = qubits@.subrange(0, i + 1);
            assert(next.drop_last() =~= qubits@.subrange(0, i as int));
        }
        insert_unique_qubit(&mut r, qubits[i]);
        i = i + 1;
    }
    proof {
        assert(qubits@.subrange(0, qubits@.len() as int) =~= qubits@);
    }
    r
}

/// Whether every element of `needles` occurs in `hay`.
fn covers(hay: &[Qubit], needles: &[Qubit]) -> (r: bool)
    ensures
        r == forall|i: int| 0 <= i < needles@.len() ==> hay@.contains(needles@[i]),
{
    let mut i: usize = 0;
    while i < needles.len()
        invariant
            i <= needles@.len(),
            forall|k: int| 0 <= k < i ==> hay@.contains(needles@[k]),
        decreases needles@.len() - i,
    {
        let mut found = false;
        let mut j: usize = 0;
        while j < hay.len()
            invariant
                j <= hay@.len(),
                i < needles@.len(),
                found <==> exists|t: int| 0 <= t < j && hay@[t] == needles@[i as int],
            decreases hay@.len() - j,
        {
            if hay[j] == needles[i] {
                found = true;
            }
            j = j + 1;
        }
        if !found {
            proof {
                assert(!hay@.contains(needles@[i as int]));
            }
            return false;
        }
        i = i + 1;
    }
    true
}

/// Whether two qubit lists are equal.
fn same_qubits(a: &[Qubit], b: &[Qubit]) -> (r: bool)
    ensures
        r == (a@ == b@),
{
    if a.len() != b.len() {
        return false;
    }
    let mut i: usize = 0;
    while i < a.len()
        invariant
            i <= a@.len(),
            a@.len() == b@.len(),
            forall|k: int| 0 <= k < i ==> a@[k] == b@[k],
        decreases a@.len() - i,
    {
        if a[i] != b[i] {
            return false;
        }
        i = i + 1;
    }
    proof {
        assert(a@ =~= b@);
    }
    true
}

/// Relation of two barrier scopes.
pub fn compare_barrier_scope(left: &[Qubit], right: &[Qubit]) -> (r: BarrierRelation)
    ensures
        r == barrier_relation(left@, right@),
{
    if same_qubits(left, right) {
        return BarrierRelation::Equal;
    }
    let left_covers = covers(left, right);
    let right_covers = covers(right, left);
    if left_covers && !right_covers {
        BarrierRelation::LeftSuperset
    } else if !left_covers && right_covers {
        BarrierRelation::RightSuperset
    } else {
        BarrierRelation::DisjointOrOverlap
    }
}

/// Whether two parameter lists are equal.
fn same_params(a: &[CircuitParam], b: &[CircuitParam]) -> (r: bool)
    ensures
        r == (a@ == b@),
{
    if a.len() != b.len() {
        return false;
    }
    let mut i: usize = 0;
    while i < a.len()
        invariant
            i <= a@.len(),
            a@.len() == b@.len(),
            forall|k: int| 0 <= k < i ==> a@[k] == b@[k],
        decreases a@.len() - i,
    {
        if a[i] != b[i] {
            return false;
        }
        i = i + 1;
    }
    proof {
        assert(a@ =~= b@);
    }
    true
}

/// Whether two operations have the same content.
pub fn same_operation(a: &Operation, b: &Operation) -> (r: bool)
    ensures
        r == (op_view(*a) == op_view(*b)),
{
    if a.instruction != b.instruction {
        return false;
    }
    if !same_qubits(a.qubits.as_slice(), b.qubits.as_slice()) {
        return false;
    }
    if !same_params(a.params.as_slice(), b.params.as_slice()) {
        return false;
    }
    match (&a.label, &b.label) {
        (None, None) => true,
        (Some(x), Some(y)) => *x == *y,
        _ => false,
    }
}

/// Whether two operation sequences have the same content.
pub fn same_operations(a: &Vec<Operation>, b: &Vec<Operation>) -> (r: bool)
    ensures
        r == (ops_view(a@) == ops_view(b@)),
{
    if a.len() != b.len() {
        proof {
            if ops_view(a@) == ops_view(b@) {
                assert(ops_view(a@).len() == ops_view(b@).len());
            }
        }
        return false;
    }
    let mut i: usize = 0;
    while i < a.len()
        invariant
            i <= a@.len(),
            a@.len() == b@.len(),
            forall|k: int| 0 <= k < i ==> ops_view(a@)[k] == ops_view(b@)[k],
        decreases a@.len() - i,
    {
        if !same_operation(&a[i], &b[i]) {
            proof {
                assert(ops_view(a@)[i as int] != ops_view(b@)[i as int]);
            }
            return false;
        }
        i = i + 1;
    }
    proof {
        assert(ops_view(a@) =~= ops_view(b@));
    }
    true
}

/// The label view of an optional string.
pub open spec fn label_view(label: Option<String>) -> Option<Seq<char>> {
    match label {
        Some(s) => Some(s@),
        None => None,
    }
}

/// Copies an optional label.
fn copy_label(label: &Option<String>) -> (r: Option<String>)
    ensures
        label_view(r) == label_view(*label),
{
    match label {
        Some(s) => Some(s.clone()),
        None => None,
    }
}

/// Whether the first parameter is a fixed zero, or the missing reference it holds.
fn first_param_is_zero(params: &[CircuitParam], n: usize) -> (r: Result<bool, u32>)
    ensures
        r == first_param_zero(params@, n as nat),
{
    if params.len() == 0 {
        return Ok(false);
    }
    match params[0] {
        CircuitParam::Fixed(a) => Ok(a.is_zero()),
        CircuitParam::Index(i) => if (i as usize) < n { Ok(false) } else { Err(i) },
    }
}

/// Canonicalizes one operation.
fn canonicalize_operation(op: &Operation, n: usize, config: &CanonicalizeConfig) -> (r: Result<Option<Operation>, u32>)
    ensures
        match canonical_op(op_view(*op), n as nat, config@) {
            Err(i) => r == Err::<Option<Operation>, u32>(i),
            Ok(None) => r matches Ok(None),
            Ok(Some(c)) => r matches Ok(Some(v)) && op_view(v) == c,
        },
{
    let instruction = if config.canonicalizes_instruction_form() { canonicalize_form(op.instruction) } else { op.instruction };
    let barrier = instruction == Instruction::Directive(Directive::Barrier);
    let qubits = if barrier {
        canonicalize_barrier_qubits(op.qubits.as_slice())
    } else {
        crate::semantics::copy_range(op.qubits.as_slice(), 0, op.qubits.len())
    };
    proof {
        assert(op_view(*op).qubits.subrange(0, op_view(*op).qubits.len() as int) =~= op_view(*op).qubits);
    }
    let drop = if !config.drops_trivial_noops() || op.label.is_some() {
        Ok(false)
    } else if barrier && qubits.len() == 0 {
        Ok(true)
    } else if instruction == Instruction::Standard(StandardGate::I) {
        Ok(true)
    } else {
        let droppable = match instruction {
            Instruction::Delay => true,
            Instruction::Standard(g) => g == StandardGate::RX || g == StandardGate::RY || g == StandardGate::RZ
                || g == StandardGate::Phase || g == StandardGate::RXX || g == StandardGate::RYY || g == StandardGate::RZZ
                || g == StandardGate::RZX,
            _ => false,
        };
        if droppable { first_param_is_zero(op.params.as_slice(), n) } else { Ok(false) }
    };
    match drop {
        Err(i) => return Err(i),
        Ok(true) => return Ok(None),
        Ok(false) => {},
    }
    if let Some(i) = find_missing_param(op.params.as_slice(), n) {
        return Err(i);
    }
    let operands = match instruction {
        Instruction::Standard(g) => if g.num_qubits() == 0 { Vec::new() } else { qubits },
        _ => qubits,
    };
    let label = copy_label(&op.label);
    let result = Operation {
        instruction,
        qubits: QubitList::from_slice(operands.as_slice()),
        params: op.params.duplicate(),
        label,
    };
    proof {
        let c = canonical_op(op_view(*op), n as nat, config@);
        assert(c matches Ok(Some(x)) && op_view(result) == x);
    }
    Ok(Some(result))
}

/// Appends a canonicalized operation, merging it into an adjacent barrier
/// when the scopes are equal or nested.
fn push_canonical_merged(out: &mut Vec<Operation>, op: Operation, config: &CanonicalizeConfig)
    ensures
        ops_view(final(out)@) == push_merged(ops_view(old(out)@), op_view(op), config@),
{
    let ghost before = ops_view(out@);
    let barrier = op.instruction == Instruction::Directive(Directive::Barrier);
    if !config.merges_adjacent_barriers() || !barrier || out.len() == 0
        || out[out.len() - 1].instruction != Instruction::Directive(Directive::Barrier) {
        out.push(op);
        proof {
            assert(ops_view(out@) =~= before.push(op_view(op)));
        }
        return;
    }
    let k = out.len() - 1;
    let relation = compare_barrier_scope(out[k].qubits.as_slice(), op.qubits.as_slice());
    match relation {
        BarrierRelation::Equal | BarrierRelation::LeftSuperset => {
            let last = &out[k];
            let label = merge_operation_labels(copy_label(&last.label), op.label);
            let merged = Operation {
                instruction: last.instruction,
                qubits: last.qubits.duplicate(),
                params: last.params.duplicate(),
                label,
            };
            out.set(k, merged);
            proof {
                assert(ops_view(out@) =~= before.update(k as int, op_view(merged)));
            }
        },
        BarrierRelation::RightSuperset => {
            let label = merge_operation_labels(op.label, copy_label(&out[k].label));
            let merged = Operation { instruction: op.instruction, qubits: op.qubits, params: op.params, label };
            out.set(k, merged);
            proof {
                assert(ops_view(out@) =~= before.update(k as int, op_view(merged)));
            }
        },
        BarrierRelation::DisjointOrOverlap => {
            out.push(op);
            proof {
                assert(ops_view(out@) =~= before.push(op_view(op)));
            }
        },
    }
}

/// Runs the structural pass over a sequence of operations.
pub fn canonicalize_operations(ops: &Vec<Operation>, n: usize, config: &CanonicalizeConfig) -> (r: Result<Vec<Operation>, CompilerError>)
    ensures
        match structural_pass(ops_view(ops@), n as nat, config@) {
            Err(i) => r == Err::<Vec<Operation>, CompilerError>(CompilerError::InvalidInput(InputIssue::MissingParameterIndex(i))),
            Ok(out) => r matches Ok(v) && ops_view(v@) == out,
        },
{
    let ghost all = ops_view(ops@);
    let mut out: Vec<Operation> = Vec::new();
    let mut i: usize = 0;
    proof {
        assert(all.subrange(0, 0) =~= Seq::<OpView>::empty());
        assert(ops_view(out@) =~= Seq::<OpView>::empty());
    }
    while i < ops.len()
        invariant
            i <= ops@.len(),
            all == ops_view(ops@),
            all.len() == ops@.len(),
            structural_pass(all.subrange(0, i as int), n as nat, config@) == Ok::<Seq<OpView>, u32>(ops_view(out@)),
        decreases ops@.len() - i,
    {
        let ghost next = all.subrange(0, i + 1);
        proof {
            assert(next.drop_last() =~= all.subrange(0, i as int));
            assert(next.last() == op_view(ops@[i as int]));
        }
        match canonicalize_operation(&ops[i], n, config) {
            Err(index) => {
                proof {
                    lemma_structural_error_extends(all, i + 1, n as nat, config@);
                }
                return Err(CompilerError::InvalidInput(InputIssue::MissingParameterIndex(index)));
            },
            Ok(None) => {},
            Ok(Some(c)) => {
                push_canonical_merged(&mut out, c, config);
            },
        }
        i = i + 1;
    }
    proof {
        assert(all.subrange(0, all.len() as int) =~= all);
    }
    Ok(out)
}

/// Once a prefix fails, the whole pass fails the same way.
proof fn lemma_structural_error_extends(ops: Seq<OpView>, k: int, n: nat, cfg: CanonicalizeSettings)
    requires
        0 <= k <= ops.len(),
        structural_pass(ops.subrange(0, k), n, cfg) is Err,
    ensures
        structural_pass(ops, n, cfg) == structural_pass(ops.subrange(0, k), n, cfg),
    decreases ops.len() - k,
{
    if k < ops.len() {
        assert(ops.subrange(0, k + 1).drop_last() =~= ops.subrange(0, k));
        lemma_structural_error_extends(ops, k + 1, n, cfg);
    } else {
        assert(ops.subrange(0, k) =~= ops);
    }
}

/// The structural pass never adds operations: its output is at most as
/// long as its input.
pub proof fn lemma_structural_pass_never_grows(ops: Seq<OpView>, n: nat, cfg: CanonicalizeSettings)
    ensures
        structural_pass(ops, n, cfg) matches Ok(out) ==> out.len() <= ops.len(),
    decreases ops.len(),
{
    if ops.len() > 0 {
        lemma_structural_pass_never_grows(ops.drop_last(), n, cfg);
    }
}

/// Whether every qubit of `inner` is one of `outer`.
pub open spec fn scope_covers(outer: Seq<Qubit>, inner: Seq<Qubit>) -> bool {
    forall|q: Qubit| inner.contains(q) ==> outer.contains(q)
}

/// Law: appending a canonicalized operation either pushes it as it is, or,
/// for a barrier right after a barrier with merging enabled, replaces that
/// last barrier by one barrier over exactly the qubits of both, keeping
/// everything before it. Merging happens exactly when the two scopes are the
/// same sequence or one strictly covers the other.
pub proof fn lemma_push_merged_keeps_barrier_scopes(out: Seq<OpView>, op: OpView, cfg: CanonicalizeSettings)
    ensures
        ({
            let r = push_merged(out, op, cfg);
            ||| r == out.push(op)
            ||| {
                &&& cfg.merge_adjacent_barriers
                &&& out.len() > 0
                &&& is_barrier(op.instruction)
                &&& is_barrier(out.last().instruction)
                &&& scope_covers(out.last().qubits, op.qubits) || scope_covers(op.qubits, out.last().qubits)
                &&& r.len() == out.len()
                &&& r.drop_last() == out.drop_last()
                &&& is_barrier(r.last().instruction)
                &&& forall|q: Qubit| r.last().qubits.contains(q) <==> out.last().qubits.contains(q) || op.qubits.contains(q)
            }
        }),
        cfg.merge_adjacent_barriers && out.len() > 0 && is_barrier(op.instruction) && is_barrier(out.last().instruction) && {
            ||| out.last().qubits == op.qubits
            ||| scope_covers(out.last().qubits, op.qubits) && !scope_covers(op.qubits, out.last().qubits)
            ||| scope_covers(op.qubits, out.last().qubits) && !scope_covers(out.last().qubits, op.qubits)
        } ==> push_merged(out, op, cfg).len() == out.len(),
{
    let r = push_merged(out, op, cfg);
    if cfg.merge_adjacent_barriers && is_barrier(op.instruction) && out.len() > 0 && is_barrier(out.last().instruction) {
        let last = out.last();
        let left = last.qubits;
        let right = op.qubits;
        let left_covers = forall|i: int| 0 <= i < right.len() ==> left.contains(right[i]);
        let right_covers = forall|i: int| 0 <= i < left.len() ==> right.contains(left[i]);
        assert(left_covers <==> scope_covers(left, right)) by {
            if left_covers {
                assert forall|q: Qubit| right.contains(q) implies left.contains(q) by {
                    let i = choose|i: int| 0 <= i < right.len() && right[i] == q;
                }
            }
            if scope_covers(left, right) {
                assert forall|i: int| 0 <= i < right.len() implies left.contains(right[i]) by {
                    assert(right.contains(right[i]));
                }
            }
        }
        assert(right_covers <==> scope_covers(right, left)) by {
            if right_covers {
                assert forall|q: Qubit| left.contains(q) implies right.contains(q) by {
                    let i = choose|i: int| 0 <= i < left.len() && left[i] == q;
                }
            }
            if scope_covers(right, left) {
                assert forall|i: int| 0 <= i < left.len() implies right.contains(left[i]) by {
                    assert(left.contains(left[i]));
                }
            }
        }
        match barrier_relation(left, right) {
            BarrierRelation::Equal | BarrierRelation::LeftSuperset | BarrierRelation::RightSuperset => {
                assert(r.drop_last() =~= out.drop_last());
            },
            BarrierRelation::DisjointOrOverlap => {},
        }
    }
}

/// Law: every operation the structural pass drops acts as the identity.
/// It is dropped only with no-op dropping enabled and without a label, and
/// its (canonicalized) instruction is `I`, a barrier over no qubits, or one
/// of `Delay`, `RX`, `RY`, `RZ`, `Phase`, `RXX`, `RYY`, `RZZ`, `RZX` with a
/// fixed zero first parameter: gates whose zero-angle form is the identity.
/// Every other operation survives.
pub proof fn lemma_dropped_operations_are_identities(op: OpView, n: nat, cfg: CanonicalizeSettings)
    ensures
        canonical_op(op, n, cfg) matches Ok(None) ==> ({
            let ins = if cfg.canonicalize_instruction_form { canonical_form(op.instruction) } else { op.instruction };
            &&& cfg.drop_trivial_noops
            &&& op.label is None
            &&& {
                ||| ins == Instruction::Standard(StandardGate::I)
                ||| is_barrier(ins) && op.qubits.len() == 0
                ||| {
                    &&& ins == Instruction::Delay || ins == Instruction::Standard(StandardGate::RX)
                        || ins == Instruction::Standard(StandardGate::RY) || ins == Instruction::Standard(StandardGate::RZ)
                        || ins == Instruction::Standard(StandardGate::Phase) || ins == Instruction::Standard(StandardGate::RXX)
                        || ins == Instruction::Standard(StandardGate::RYY) || ins == Instruction::Standard(StandardGate::RZZ)
                        || ins == Instruction::Standard(StandardGate::RZX)
                    &&& op.params.len() > 0
                    &&& op.params[0] matches CircuitParam::Fixed(a) && angle_is_zero(a)
                }
            }
        }),
{
    if canonical_op(op, n, cfg) matches Ok(None) {
        let ins = if cfg.canonicalize_instruction_form { canonical_form(op.instruction) } else { op.instruction };
        let qubits = if is_barrier(ins) { sort_unique(op.qubits) } else { op.qubits };
        lemma_sort_unique(op.qubits);
        if is_barrier(ins) && qubits.len() == 0 && op.qubits.len() > 0 {
            assert(op.qubits.contains(op.qubits[0]));
            assert(sort_unique(op.qubits).contains(op.qubits[0]));
        }
    }
}

} // verus!
