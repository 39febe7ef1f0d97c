//! MCX synthesis primitives used by the multi-controlled gate lowering.
//!
//! Three constructions are provided: a clean-ancilla V-chain, an ancilla-free
//! phase polynomial over `CX`/`RZ` parities, and a recursive construction that
//! borrows one dirty work qubit.
use crate::circuit::{
    op_view, ops_view, plain, push_standard_gate, with_params, Angle, AngleBase, CircuitParam,
    Instruction, OpView, Operation, Qubit, StandardGate, make_operation,
};
use crate::error::McxFailure;
use crate::semantics::{
    all_set, apply_classical, apply_classical_op, concat_qubits, find_duplicate, first_duplicate,
    lemma_apply_concat, mcx_state,
};
use vstd::prelude::*;

verus! {

/// Largest qubit count the ancilla-free phase polynomial accepts.
pub const MAX_NO_ANCILLA_PHASE_POLY_QUBITS: usize = 10;
/// Largest control count the recursive dirty-ancilla MCX accepts.
pub const MAX_DIRTY_RECURSIVE_CONTROLS: usize = 10;

/// `2^e`.
pub open spec fn two_pow(e: nat) -> nat
    decreases e,
{
    if e == 0 {
        1
    } else {
        2 * two_pow((e - 1) as nat)
    }
}

/// `2^e` is positive and grows with `e`.
pub proof fn lemma_two_pow_monotone(a: nat, b: nat)
    requires
        a <= b,
    ensures
        1 <= two_pow(a) <= two_pow(b),
    decreases b,
{
    if b > 0 {
        if a < b {
            lemma_two_pow_monotone(a, (b - 1) as nat);
        } else {
            lemma_two_pow_monotone((a - 1) as nat, (b - 1) as nat);
        }
    }
}

/// `2^16 = 65536`.
pub proof fn lemma_two_pow_16()
    ensures
        two_pow(16) == 65536,
{
    reveal_with_fuel(two_pow, 17);
}

/// The operation counts of the ancilla-free and dirty-ancilla MCX stay small
/// within their size caps.
pub proof fn lemma_mcx_counts_small(n: nat)
    ensures
        n + 1 <= MAX_NO_ANCILLA_PHASE_POLY_QUBITS ==> no_ancilla_count(n) <= 9 * 65536 + 3,
        n <= MAX_DIRTY_RECURSIVE_CONTROLS ==> dirty_count(n) <= 3 * 65536,
{
    lemma_two_pow_16();
    if n > 2 && n + 1 <= MAX_NO_ANCILLA_PHASE_POLY_QUBITS {
        lemma_two_pow_monotone(n + 1, 16);
        assert(n * two_pow(n + 1) <= 9 * 65536) by (nonlinear_arith)
            requires
                n <= 9,
                two_pow(n + 1) <= 65536;
    }
    if n > 2 && n <= MAX_DIRTY_RECURSIVE_CONTROLS {
        lemma_two_pow_monotone((n - 2) as nat, 16);
    }
}

/// Clean ancillas consumed by the clean-ancilla MCX.
pub open spec fn clean_required(controls: nat) -> nat {
    if controls >= 2 {
        (controls - 2) as nat
    } else {
        0
    }
}

/// Operations emitted by the clean-ancilla MCX.
pub open spec fn clean_count(controls: nat) -> nat {
    if controls <= 2 {
        1
    } else {
        (2 * controls - 3) as nat
    }
}

/// Operations emitted by the ancilla-free MCX.
pub open spec fn no_ancilla_count(controls: nat) -> nat {
    if controls <= 2 {
        1
    } else {
        controls * two_pow(controls + 1) + 3
    }
}

/// Operations emitted by the recursive dirty-ancilla MCX.
pub open spec fn dirty_count(controls: nat) -> nat {
    if controls <= 2 {
        1
    } else {
        (3 * two_pow((controls - 2) as nat) - 2) as nat
    }
}

/// Returns the number of clean ancillas the clean-ancilla MCX consumes.
pub fn clean_ancilla_mcx_required_ancillas(control_count: usize) -> (r: usize)
    ensures
        r == clean_required(control_count as nat),
{
    if control_count >= 2 {
        control_count - 2
    } else {
        0
    }
}

/// Returns the number of operations the clean-ancilla MCX emits.
pub fn clean_ancilla_mcx_operation_count(control_count: usize) -> (r: usize)
    requires
        control_count <= usize::MAX / 2,
    ensures
        r == clean_count(control_count as nat),
{
    if control_count <= 2 {
        1
    } else {
        2 * control_count - 3
    }
}

/// Returns `2^exponent` for small exponents.
pub fn small_two_pow(exponent: usize) -> (r: usize)
    requires
        exponent <= 16,
    ensures
        r == two_pow(exponent as nat),
        r <= 65536,
{
    let mut value: usize = 1;
    let mut i: usize = 0;
    while i < exponent
        invariant
            i <= exponent <= 16,
            value == two_pow(i as nat),
            value <= two_pow(i as nat),
        decreases exponent - i,
    {
        proof {
            lemma_two_pow_monotone((i + 1) as nat, 16);
            lemma_two_pow_16();
        }
        value = value * 2;
        i = i + 1;
    }
    proof {
        lemma_two_pow_monotone(exponent as nat, 16);
        lemma_two_pow_16();
    }
    value
}

/// Returns the number of operations the ancilla-free MCX emits.
pub fn no_ancilla_mcx_operation_count(control_count: usize) -> (r: Result<usize, McxFailure>)
    requires
        control_count < usize::MAX,
    ensures
        control_count <= 2 ==> r == Ok::<usize, McxFailure>(1),
        control_count > 2 && control_count + 1 > MAX_NO_ANCILLA_PHASE_POLY_QUBITS ==> r == Err::<usize, McxFailure>(
            McxFailure::NoAncillaTooWide { qubits: (control_count + 1) as usize },
        ),
        control_count > 2 && control_count + 1 <= MAX_NO_ANCILLA_PHASE_POLY_QUBITS ==> r == Ok::<usize, McxFailure>(
            no_ancilla_count(control_count as nat) as usize,
        ),
{
    if control_count <= 2 {
        return Ok(1);
    }
    let qubit_count = control_count + 1;
    if qubit_count > MAX_NO_ANCILLA_PHASE_POLY_QUBITS {
        return Err(McxFailure::NoAncillaTooWide { qubits: qubit_count });
    }
    let subset_count = small_two_pow(qubit_count);
    proof {
        assert((qubit_count - 1) * subset_count <= 9 * 65536) by (nonlinear_arith)
            requires
                qubit_count - 1 <= 9,
                subset_count <= 65536;
    }
    Ok((qubit_count - 1) * subset_count + 3)
}

/// Returns the number of operations the recursive dirty-ancilla MCX emits.
pub fn dirty_ancilla_mcx_operation_count(control_count: usize) -> (r: Result<usize, McxFailure>)
    ensures
        control_count > MAX_DIRTY_RECURSIVE_CONTROLS ==> r == Err::<usize, McxFailure>(
            McxFailure::DirtyRecursionTooWide { controls: control_count },
        ),
        control_count <= MAX_DIRTY_RECURSIVE_CONTROLS ==> r == Ok::<usize, McxFailure>(
            dirty_count(control_count as nat) as usize,
        ),
{
    if control_count > MAX_DIRTY_RECURSIVE_CONTROLS {
        return Err(McxFailure::DirtyRecursionTooWide { controls: control_count });
    }
    if control_count <= 2 {
        return Ok(1);
    }
    let leaves = small_two_pow(control_count - 2);
    proof {
        lemma_two_pow_monotone(0, (control_count - 2) as nat);
    }
    Ok(leaves * 3 - 2)
}

/// `X`, `CX`, or `CCX` on the given controls and target (at most two controls).
pub open spec fn trivial_mcx(controls: Seq<Qubit>, target: Qubit) -> Seq<OpView> {
    if controls.len() == 0 {
        seq![plain(StandardGate::X, seq![target])]
    } else if controls.len() == 1 {
        seq![plain(StandardGate::CX, seq![controls[0], target])]
    } else {
        seq![plain(StandardGate::CCX, seq![controls[0], controls[1], target])]
    }
}

/// Compute ladder of the clean V-chain: ancilla `i` receives the AND of
/// `controls[0..=i+1]`.
pub open spec fn v_chain_compute(controls: Seq<Qubit>, ancillas: Seq<Qubit>) -> Seq<OpView> {
    Seq::new(
        ancillas.len(),
        |i: int|
            if i == 0 {
                plain(StandardGate::CCX, seq![controls[0], controls[1], ancillas[0]])
            } else {
                plain(StandardGate::CCX, seq![ancillas[i - 1], controls[i + 1], ancillas[i]])
            },
    )
}

/// Clean V-chain: compute, flip the target, then replay the compute ladder in reverse.
pub open spec fn v_chain(controls: Seq<Qubit>, target: Qubit, ancillas: Seq<Qubit>) -> Seq<OpView> {
    let compute = v_chain_compute(controls, ancillas);
    compute + seq![
        plain(
            StandardGate::CCX,
            seq![ancillas[ancillas.len() - 1], controls[controls.len() - 1], target],
        ),
    ] + compute.reverse()
}

/// Output of the clean-ancilla MCX once its inputs are accepted.
pub open spec fn clean_mcx(controls: Seq<Qubit>, target: Qubit, used: Seq<Qubit>) -> Seq<OpView> {
    if controls.len() <= 2 {
        trivial_mcx(controls, target)
    } else {
        v_chain(controls, target, used)
    }
}

/// Whether an MCX primitive's result matches its specification.
pub open spec fn mcx_matches(r: Result<Vec<Operation>, McxFailure>, expected: Result<Seq<OpView>, McxFailure>) -> bool {
    match expected {
        Ok(ops) => r matches Ok(v) && ops_view(v@) == ops,
        Err(e) => r matches Err(f) && f == e,
    }
}

/// Result of the clean-ancilla MCX.
pub open spec fn clean_ancilla_mcx_result(controls: Seq<Qubit>, target: Qubit, clean: Seq<Qubit>) -> Result<Seq<OpView>, McxFailure> {
    let required = clean_required(controls.len());
    if clean.len() < required {
        Err(McxFailure::CleanAncillasMissing {
            controls: controls.len() as usize,
            required: required as usize,
            got: clean.len() as usize,
        })
    } else {
        let used = clean.subrange(0, required as int);
        let qubits = controls + seq![target] + used;
        if first_duplicate(qubits) is Some {
            Err(McxFailure::DuplicateQubit(first_duplicate(qubits)->0))
        } else {
            Ok(clean_mcx(controls, target, used))
        }
    }
}

/// Result of the ancilla-free MCX.
pub open spec fn no_ancilla_mcx_result(controls: Seq<Qubit>, target: Qubit) -> Result<Seq<OpView>, McxFailure> {
    let qubits = controls + seq![target];
    if first_duplicate(qubits) is Some {
        Err(McxFailure::DuplicateQubit(first_duplicate(qubits)->0))
    } else if controls.len() > 2 && controls.len() + 1 > MAX_NO_ANCILLA_PHASE_POLY_QUBITS {
        Err(McxFailure::NoAncillaTooWide { qubits: (controls.len() + 1) as usize })
    } else {
        Ok(no_ancilla_mcx(controls, target))
    }
}

/// Result of the dirty-ancilla MCX borrowing `dirty`.
pub open spec fn dirty_ancilla_mcx_result(controls: Seq<Qubit>, target: Qubit, dirty: Qubit) -> Result<Seq<OpView>, McxFailure> {
    let used = if controls.len() >= 3 { seq![dirty] } else { Seq::<Qubit>::empty() };
    let qubits = controls + seq![target] + used;
    if first_duplicate(qubits) is Some {
        Err(McxFailure::DuplicateQubit(first_duplicate(qubits)->0))
    } else if controls.len() > MAX_DIRTY_RECURSIVE_CONTROLS {
        Err(McxFailure::DirtyRecursionTooWide { controls: controls.len() as usize })
    } else {
        Ok(dirty_mcx(controls, target, dirty))
    }
}

/// Appends `X`, `CX`, or `CCX` for at most two controls.
fn emit_trivial(operations: &mut Vec<Operation>, controls: &[Qubit], target: Qubit)
    requires
        controls.len() <= 2,
    ensures
        ops_view(final(operations)@) == ops_view(old(operations)@) + trivial_mcx(controls@, target),
{
    let ghost start = ops_view(operations@);
    if controls.len() == 0 {
        let qs = [target];
        proof { assert(qs@ =~= seq![target]); }
        push_standard_gate(operations, StandardGate::X, &qs);
    } else if controls.len() == 1 {
        let qs = [controls[0], target];
        proof { assert(qs@ =~= seq![controls@[0], target]); }
        push_standard_gate(operations, StandardGate::CX, &qs);
    } else {
        let qs = [controls[0], controls[1], target];
        proof { assert(qs@ =~= seq![controls@[0], controls@[1], target]); }
        push_standard_gate(operations, StandardGate::CCX, &qs);
    }
    proof {
        assert(ops_view(operations@) =~= start + trivial_mcx(controls@, target));
    }
}

/// Decomposes an MCX using clean ancillas.
///
/// Consumes `controls.len() - 2` ancillas for three or more controls (a
/// V-chain); smaller cases emit `X`, `CX`, or `CCX`. Only the consumed prefix
/// of `clean_ancillas` is validated and used.
pub fn decompose_clean_ancilla_mcx(controls: &[Qubit], target: Qubit, clean_ancillas: &[Qubit]) -> (r: Result<Vec<Operation>, McxFailure>)
    ensures
        ({
            let required = clean_required(controls@.len());
            let used = clean_ancillas@.subrange(0, required as int);
            let qubits = controls@ + seq![target] + used;
            &&& clean_ancillas@.len() < required ==> (r matches Err(e) && e == (McxFailure::CleanAncillasMissing {
                controls: controls@.len() as usize,
                required: required as usize,
                got: clean_ancillas@.len() as usize,
            }))
            &&& clean_ancillas@.len() >= required && first_duplicate(qubits) is Some ==> (r matches Err(e) && e
                == McxFailure::DuplicateQubit(first_duplicate(qubits)->0))
            &&& clean_ancillas@.len() >= required && first_duplicate(qubits) is None ==> (r matches Ok(ops) && ops_view(ops@)
                == clean_mcx(controls@, target, used))
        }),
{
    let control_count = controls.len();
    let required = clean_ancilla_mcx_required_ancillas(control_count);
    if clean_ancillas.len() < required {
        return Err(McxFailure::CleanAncillasMissing {
            controls: control_count,
            required,
            got: clean_ancillas.len(),
        });
    }
    let used = slice_prefix(clean_ancillas, required);
    let target_group = [target];
    let all = concat_qubits(controls, &target_group, used.as_slice());
    proof {
        assert(target_group@ =~= seq![target]);
    }
    if let Some(q) = find_duplicate(all.as_slice()) {
        return Err(McxFailure::DuplicateQubit(q));
    }
    let mut operations: Vec<Operation> = Vec::new();
    if control_count <= 2 {
        emit_trivial(&mut operations, controls, target);
        proof {
            assert(ops_view(operations@) =~= clean_mcx(controls@, target, used@));
        }
    } else {
        emit_v_chain(&mut operations, controls, target, used.as_slice());
        proof {
            assert(ops_view(operations@) =~= clean_mcx(controls@, target, used@));
        }
    }
    Ok(operations)
}

/// Copies the first `count` qubits of a slice.
pub fn slice_prefix(items: &[Qubit], count: usize) -> (r: Vec<Qubit>)
    requires
        count <= items.len(),
    ensures
        r@ == items@.subrange(0, count as int),
{
    let mut r: Vec<Qubit> = Vec::new();
    let mut i: usize = 0;
    while i < count
        invariant
            i <= count <= items.len(),
            r@ == items@.subrange(0, i as int),
        decreases count - i,
    {
        r.push(items[i]);
        i = i + 1;
        proof {
            assert(r@ =~= items@.subrange(0, i as int));
        }
    }
    r
}

/// Appends the clean V-chain.
fn emit_v_chain(operations: &mut Vec<Operation>, controls: &[Qubit], target: Qubit, ancillas: &[Qubit])
    requires
        controls.len() >= 3,
        ancillas.len() == controls.len() - 2,
    ensures
        ops_view(final(operations)@) == ops_view(old(operations)@) + v_chain(controls@, target, ancillas@),
{
    let ghost start = ops_view(operations@);
    let ghost compute = v_chain_compute(controls@, ancillas@);
    let m = ancillas.len();
    let mut compute_ops: Vec<Operation> = Vec::new();
    push_standard_gate(&mut compute_ops, StandardGate::CCX, &[controls[0], controls[1], ancillas[0]]);
    let mut i: usize = 1;
    while i < m
        invariant
            1 <= i <= m,
            m == ancillas.len(),
            ancillas.len() == controls.len() - 2,
            ops_view(compute_ops@) == compute.subrange(0, i as int),
            compute == v_chain_compute(controls@, ancillas@),
        decreases m - i,
    {
        push_standard_gate(&mut compute_ops, StandardGate::CCX, &[ancillas[i - 1], controls[i + 1], ancillas[i]]);
        proof {
            assert(ops_view(compute_ops@) =~= compute.subrange(0, i + 1));
        }
        i = i + 1;
    }
    proof {
        assert(ops_view(compute_ops@) =~= compute);
    }
    crate::circuit::extend_with_copies(operations, &compute_ops, 0, m);
    push_standard_gate(operations, StandardGate::CCX, &[ancillas[m - 1], controls[controls.len() - 1], target]);
    let mut j: usize = m;
    while j > 0
        invariant
            j <= m,
            m == compute_ops@.len(),
            ops_view(compute_ops@) == compute,
            ops_view(operations@) == start + compute + seq![
                plain(StandardGate::CCX, seq![ancillas@[m - 1], controls@[controls@.len() - 1], target]),
            ] + compute.subrange(j as int, m as int).reverse(),
        decreases j,
    {
        let op = crate::circuit::copy_operation(&compute_ops[j - 1]);
        let ghost before = ops_view(operations@);
        operations.push(op);
        proof {
            assert(ops_view(operations@) =~= before.push(op_view(compute_ops@[j - 1])));
            assert(op_view(compute_ops@[j - 1]) == compute[j - 1]);
            assert(compute.subrange(j - 1, m as int).reverse() =~= compute.subrange(j as int, m as int).reverse().push(compute[j - 1]));
        }
        j = j - 1;
    }
    proof {
        assert(compute.subrange(0, m as int) =~= compute);
        assert(ops_view(operations@) =~= start + v_chain(controls@, target, ancillas@));
    }
}


/// Whether bit `i` of `mask` is set.
pub open spec fn bit_set(mask: nat, i: nat) -> bool {
    (mask / two_pow(i)) % 2 == 1
}

/// The elements of `qubits` whose index bit is set in `mask`, in order.
pub open spec fn subset_of(qubits: Seq<Qubit>, mask: nat) -> Seq<Qubit>
    decreases qubits.len(),
{
    if qubits.len() == 0 {
        seq![]
    } else {
        subset_of(qubits.drop_last(), mask) + if bit_set(mask, (qubits.len() - 1) as nat) {
            seq![qubits.last()]
        } else {
            seq![]
        }
    }
}

/// `CX` from every listed qubit but the last onto the last one.
pub open spec fn parity_ladder(qubits: Seq<Qubit>) -> Seq<OpView> {
    Seq::new(
        (qubits.len() - 1) as nat,
        |i: int| plain(StandardGate::CX, seq![qubits[i], qubits.last()]),
    )
}

/// A rotation on the parity of `qubits`, accumulated on the last qubit and uncomputed.
pub open spec fn parity_rotation(gate: StandardGate, qubits: Seq<Qubit>, angle: Angle) -> Seq<OpView> {
    let rotation = with_params(gate, seq![qubits.last()], seq![CircuitParam::Fixed(angle)]);
    if qubits.len() == 1 {
        seq![rotation]
    } else {
        parity_ladder(qubits) + seq![rotation] + parity_ladder(qubits).reverse()
    }
}

/// `pi / 2^(width - 1)` with the sign of the inclusion-exclusion term of a subset.
pub open spec fn polynomial_angle(width: nat, subset: Seq<Qubit>) -> Angle {
    Angle {
        numerator: if subset.len() % 2 == 0 { -1i64 } else { 1i64 },
        log2_denominator: (width - 1) as u32,
        base: AngleBase::Pi,
    }
}

/// Parity rotations for the subset masks `1..masks`.
pub open spec fn polynomial_terms(qubits: Seq<Qubit>, masks: nat) -> Seq<OpView>
    decreases masks,
{
    if masks <= 1 {
        seq![]
    } else {
        let mask = (masks - 1) as nat;
        let subset = subset_of(qubits, mask);
        polynomial_terms(qubits, mask) + parity_rotation(
            StandardGate::RZ,
            subset,
            polynomial_angle(qubits.len(), subset),
        )
    }
}

/// Ancilla-free MCX: `H` on the target around the phase polynomial of the
/// conjunction of all qubits.
pub open spec fn phase_polynomial_mcx(controls: Seq<Qubit>, target: Qubit) -> Seq<OpView> {
    let qubits = controls.push(target);
    seq![plain(StandardGate::H, seq![target])] + polynomial_terms(qubits, two_pow(qubits.len()))
        + seq![plain(StandardGate::H, seq![target])]
}

/// Output of the ancilla-free MCX once its inputs are accepted.
pub open spec fn no_ancilla_mcx(controls: Seq<Qubit>, target: Qubit) -> Seq<OpView> {
    if controls.len() <= 2 {
        trivial_mcx(controls, target)
    } else {
        phase_polynomial_mcx(controls, target)
    }
}

/// Collects the qubits selected by `mask`.
pub fn subset_for_mask(qubits: &Vec<Qubit>, mask: usize) -> (r: Vec<Qubit>)
    ensures
        r@ == subset_of(qubits@, mask as nat),
{
    let mut subset: Vec<Qubit> = Vec::new();
    let mut remaining = mask;
    proof {
        assert(two_pow(0) == 1);
        assert(qubits@.subrange(0, 0) =~= Seq::<Qubit>::empty());
    }
    let mut index: usize = 0;
    while index < qubits.len()
        invariant
            index <= qubits.len(),
            subset@ == subset_of(qubits@.subrange(0, index as int), mask as nat),
            remaining as nat == mask as nat / two_pow(index as nat),
        decreases qubits.len() - index,
    {
        let ghost prefix = qubits@.subrange(0, index as int);
        let ghost next = qubits@.subrange(0, index + 1);
        proof {
            assert(next.drop_last() =~= prefix);
            assert(next.last() == qubits@[index as int]);
            lemma_two_pow_monotone(0, index as nat);
            vstd::arithmetic::div_mod::lemma_div_denominator(mask as int, two_pow(index as nat) as int, 2);
            assert(two_pow((index + 1) as nat) == 2 * two_pow(index as nat));
            assert(two_pow(index as nat) * 2 == 2 * two_pow(index as nat)) by (nonlinear_arith);
        }
        if remaining % 2 == 1 {
            subset.push(qubits[index]);
        }
        remaining = remaining / 2;
        index = index + 1;
        proof {
            assert(subset@ =~= subset_of(next, mask as nat));
        }
    }
    proof {
        assert(qubits@.subrange(0, qubits@.len() as int) =~= qubits@);
    }
    subset
}

/// Appends a parity rotation on `qubits` (at least one qubit).
pub fn emit_parity_rotation(operations: &mut Vec<Operation>, gate: StandardGate, qubits: &Vec<Qubit>, angle: Angle)
    requires
        qubits.len() >= 1,
    ensures
        ops_view(final(operations)@) == ops_view(old(operations)@) + parity_rotation(gate, qubits@, angle),
{
    let ghost start = ops_view(operations@);
    let n = qubits.len();
    let accumulator = qubits[n - 1];
    let params = [CircuitParam::Fixed(angle)];
    let targets = [accumulator];
    proof {
        assert(params@ =~= seq![CircuitParam::Fixed(angle)]);
        assert(targets@ =~= seq![accumulator]);
    }
    if n == 1 {
        operations.push(make_operation(Instruction::Standard(gate), &targets, &params));
        proof {
            assert(ops_view(operations@) =~= start + parity_rotation(gate, qubits@, angle));
        }
        return;
    }
    let ghost ladder = parity_ladder(qubits@);
    let mut i: usize = 0;
    while i < n - 1
        invariant
            i <= n - 1,
            n == qubits.len(),
            accumulator == qubits@.last(),
            ladder == parity_ladder(qubits@),
            ops_view(operations@) == start + ladder.subrange(0, i as int),
        decreases n - 1 - i,
    {
        push_standard_gate(operations, StandardGate::CX, &[qubits[i], accumulator]);
        proof {
            assert(ladder.subrange(0, i + 1) =~= ladder.subrange(0, i as int).push(ladder[i as int]));
            assert(ops_view(operations@) =~= start + ladder.subrange(0, i + 1));
        }
        i = i + 1;
    }
    let ghost rotation = with_params(gate, seq![accumulator], seq![CircuitParam::Fixed(angle)]);
    let ghost mid = ops_view(operations@);
    operations.push(make_operation(Instruction::Standard(gate), &targets, &params));
    proof {
        assert(ladder.subrange(0, (n - 1) as int) =~= ladder);
        assert(ops_view(operations@) =~= mid.push(rotation));
    }
    let mut j: usize = n - 1;
    while j > 0
        invariant
            j <= n - 1,
            n == qubits.len(),
            accumulator == qubits@.last(),
            ladder == parity_ladder(qubits@),
            ops_view(operations@) == start + ladder + seq![rotation] + ladder.subrange(j as int, (n - 1) as int).reverse(),
        decreases j,
    {
        push_standard_gate(operations, StandardGate::CX, &[qubits[j - 1], accumulator]);
        proof {
            assert(ladder.subrange(j - 1, (n - 1) as int).reverse() =~= ladder.subrange(j as int, (n - 1) as int).reverse().push(ladder[j - 1]));
        }
        j = j - 1;
    }
    proof {
        assert(ops_view(operations@) =~= start + parity_rotation(gate, qubits@, angle));
    }
}

/// Decomposes an MCX without ancillas.
///
/// Up to two controls emit `X`, `CX`, or `CCX`. Larger inputs use the
/// inclusion-exclusion phase polynomial, limited to
/// [`MAX_NO_ANCILLA_PHASE_POLY_QUBITS`] qubits in total.
pub fn decompose_no_ancilla_mcx(controls: &[Qubit], target: Qubit) -> (r: Result<Vec<Operation>, McxFailure>)
    requires
        controls.len() < usize::MAX,
    ensures
        ({
            let qubits = controls@ + seq![target];
            &&& first_duplicate(qubits) is Some ==> (r matches Err(e) && e == McxFailure::DuplicateQubit(first_duplicate(qubits)->0))
            &&& first_duplicate(qubits) is None && controls@.len() > 2 && controls@.len() + 1 > MAX_NO_ANCILLA_PHASE_POLY_QUBITS
                ==> (r matches Err(e) && e == McxFailure::NoAncillaTooWide { qubits: (controls@.len() + 1) as usize })
            &&& first_duplicate(qubits) is None && (controls@.len() <= 2 || controls@.len() + 1 <= MAX_NO_ANCILLA_PHASE_POLY_QUBITS)
                ==> (r matches Ok(ops) && ops_view(ops@) == no_ancilla_mcx(controls@, target))
        }),
        mcx_matches(r, no_ancilla_mcx_result(controls@, target)),
{
    let target_group = [target];
    let none: [Qubit; 0] = [];
    let all = concat_qubits(controls, &target_group, &none);
    proof {
        assert(target_group@ =~= seq![target]);
        assert(all@ =~= controls@ + seq![target]);
    }
    if let Some(q) = find_duplicate(all.as_slice()) {
        return Err(McxFailure::DuplicateQubit(q));
    }
    let mut operations: Vec<Operation> = Vec::new();
    if controls.len() <= 2 {
        emit_trivial(&mut operations, controls, target);
        proof {
            assert(ops_view(operations@) =~= no_ancilla_mcx(controls@, target));
        }
        return Ok(operations);
    }
    match no_ancilla_mcx_operation_count(controls.len()) {
        Err(e) => {
            return Err(e);
        },
        Ok(_) => {},
    }
    let qubits = all;
    let width = qubits.len();
    let subset_count = small_two_pow(width);
    let ghost terms_spec = |k: nat| polynomial_terms(qubits@, k);
    let ghost head = seq![plain(StandardGate::H, seq![target])];
    push_standard_gate(&mut operations, StandardGate::H, &[target]);
    proof {
        assert(ops_view(operations@) =~= head + polynomial_terms(qubits@, 1));
        lemma_two_pow_monotone(0, width as nat);
        assert(controls@.push(target) =~= qubits@);
    }
    let mut mask: usize = 1;
    while mask < subset_count
        invariant
            1 <= mask <= subset_count,
            subset_count == two_pow(width as nat),
            width == qubits@.len(),
            3 < width <= MAX_NO_ANCILLA_PHASE_POLY_QUBITS,
            ops_view(operations@) == head + polynomial_terms(qubits@, mask as nat),
        decreases subset_count - mask,
    {
        let subset = subset_for_mask(&qubits, mask);
        proof {
            lemma_subset_nonempty(qubits@, mask as nat);
        }
        let numerator: i64 = if subset.len() % 2 == 0 { -1 } else { 1 };
        let angle = Angle::pi_fraction(numerator, (width - 1) as u32);
        proof {
            assert(angle == polynomial_angle(width as nat, subset@));
        }
        emit_parity_rotation(&mut operations, StandardGate::RZ, &subset, angle);
        proof {
            assert(polynomial_terms(qubits@, (mask + 1) as nat) == polynomial_terms(qubits@, mask as nat)
                + parity_rotation(StandardGate::RZ, subset@, angle));
            assert(ops_view(operations@) =~= head + polynomial_terms(qubits@, (mask + 1) as nat));
        }
        mask = mask + 1;
    }
    push_standard_gate(&mut operations, StandardGate::H, &[target]);
    proof {
        assert(ops_view(operations@) =~= no_ancilla_mcx(controls@, target));
    }
    Ok(operations)
}

/// A nonzero mask below `2^len` selects at least one qubit.
pub proof fn lemma_subset_nonempty(qubits: Seq<Qubit>, mask: nat)
    requires
        0 < mask < two_pow(qubits.len()),
    ensures
        subset_of(qubits, mask).len() >= 1,
    decreases qubits.len(),
{
    let n = qubits.len();
    assert(n > 0);
    let k = (n - 1) as nat;
    assert(two_pow(n) == 2 * two_pow(k));
    lemma_two_pow_monotone(0, k);
    if bit_set(mask, k) {
    } else {
        let q = mask / two_pow(k);
        vstd::arithmetic::div_mod::lemma_fundamental_div_mod(mask as int, two_pow(k) as int);
        assert(q < 2) by (nonlinear_arith)
            requires
                mask < 2 * two_pow(k),
                q == mask / two_pow(k),
                two_pow(k) > 0;
        assert(q == 0);
        assert(mask < two_pow(k)) by (nonlinear_arith)
            requires
                mask == two_pow(k) * q + mask % two_pow(k),
                q == 0,
                mask % two_pow(k) < two_pow(k),
                two_pow(k) > 0;
        assert(qubits.drop_last().len() == k);
        lemma_subset_nonempty(qubits.drop_last(), mask);
    }
}

/// Recursive dirty-ancilla MCX: the prefix MCX toggles the borrowed qubit
/// (using the target as its own borrowed qubit), and two `CCX` around it leave
/// exactly the AND of all controls on the target.
pub open spec fn dirty_mcx(controls: Seq<Qubit>, target: Qubit, dirty: Qubit) -> Seq<OpView>
    decreases controls.len(),
{
    if controls.len() <= 2 {
        trivial_mcx(controls, target)
    } else {
        let inner = dirty_mcx(controls.drop_last(), dirty, target);
        let toggle = plain(StandardGate::CCX, seq![dirty, controls.last(), target]);
        inner + seq![toggle] + inner + seq![toggle]
    }
}

/// Appends the recursive dirty-ancilla MCX.
fn emit_dirty_ancilla_mcx(operations: &mut Vec<Operation>, controls: &[Qubit], target: Qubit, dirty: Qubit)
    ensures
        ops_view(final(operations)@) == ops_view(old(operations)@) + dirty_mcx(controls@, target, dirty),
    decreases controls.len(),
{
    let ghost start = ops_view(operations@);
    if controls.len() <= 2 {
        emit_trivial(operations, controls, target);
        return;
    }
    let n = controls.len();
    let prefix = &controls[0..n - 1];
    let last = controls[n - 1];
    proof {
        assert(prefix@ =~= controls@.drop_last());
    }
    let ghost inner = dirty_mcx(controls@.drop_last(), dirty, target);
    emit_dirty_ancilla_mcx(operations, prefix, dirty, target);
    push_standard_gate(operations, StandardGate::CCX, &[dirty, last, target]);
    emit_dirty_ancilla_mcx(operations, prefix, dirty, target);
    push_standard_gate(operations, StandardGate::CCX, &[dirty, last, target]);
    proof {
        assert(ops_view(operations@) =~= start + dirty_mcx(controls@, target, dirty));
    }
}

/// Decomposes an MCX borrowing one dirty qubit.
///
/// With at least three controls the construction recurses on the control
/// prefix and borrows `dirty_ancilla`, which it restores. It is limited to
/// [`MAX_DIRTY_RECURSIVE_CONTROLS`] controls because its size doubles per control.
pub fn decompose_dirty_ancilla_mcx(controls: &[Qubit], target: Qubit, dirty_ancilla: Qubit) -> (r: Result<Vec<Operation>, McxFailure>)
    ensures
        ({
            let used = if controls@.len() >= 3 { seq![dirty_ancilla] } else { Seq::<Qubit>::empty() };
            let qubits = controls@ + seq![target] + used;
            &&& first_duplicate(qubits) is Some ==> (r matches Err(e) && e == McxFailure::DuplicateQubit(first_duplicate(qubits)->0))
            &&& first_duplicate(qubits) is None && controls@.len() > MAX_DIRTY_RECURSIVE_CONTROLS
                ==> (r matches Err(e) && e == McxFailure::DirtyRecursionTooWide { controls: controls@.len() as usize })
            &&& first_duplicate(qubits) is None && controls@.len() <= MAX_DIRTY_RECURSIVE_CONTROLS
                ==> (r matches Ok(ops) && ops_view(ops@) == dirty_mcx(controls@, target, dirty_ancilla))
        }),
        mcx_matches(r, dirty_ancilla_mcx_result(controls@, target, dirty_ancilla)),
{
    let target_group = [target];
    let borrowed = [dirty_ancilla];
    let none: [Qubit; 0] = [];
    proof {
        assert(target_group@ =~= seq![target]);
        assert(borrowed@ =~= seq![dirty_ancilla]);
        assert(none@ =~= Seq::<Qubit>::empty());
    }
    let all = if controls.len() >= 3 {
        concat_qubits(controls, &target_group, &borrowed)
    } else {
        concat_qubits(controls, &target_group, &none)
    };
    if let Some(q) = find_duplicate(all.as_slice()) {
        return Err(McxFailure::DuplicateQubit(q));
    }
    match dirty_ancilla_mcx_operation_count(controls.len()) {
        Err(e) => {
            return Err(e);
        },
        Ok(_) => {},
    }
    let mut operations: Vec<Operation> = Vec::new();
    emit_dirty_ancilla_mcx(&mut operations, controls, target, dirty_ancilla);
    proof {
        assert(ops_view(operations@) =~= dirty_mcx(controls@, target, dirty_ancilla));
    }
    Ok(operations)
}


/// Operations with at least one operand that neither read nor write `q`.
pub open spec fn avoids(ops: Seq<OpView>, q: Qubit) -> bool {
    forall|i: int| 0 <= i < ops.len() ==> (#[trigger] ops[i]).qubits.len() >= 1 && !ops[i].qubits.contains(q)
}

/// Applying a single operation.
pub proof fn lemma_apply_single(op: OpView, state: spec_fn(Qubit) -> bool)
    ensures
        apply_classical(seq![op], state) == apply_classical_op(op, state),
{
    reveal_with_fuel(apply_classical, 2);
    assert(seq![op].drop_last() =~= Seq::<OpView>::empty());
}

/// An operation with at least one operand whose target is not among its controls.
pub open spec fn target_apart(op: OpView) -> bool {
    op.qubits.len() >= 1 && !op.qubits.drop_last().contains(op.qubits.last())
}

/// Operations whose target is not among their controls.
pub open spec fn targets_apart(ops: Seq<OpView>) -> bool {
    forall|i: int| 0 <= i < ops.len() ==> target_apart(#[trigger] ops[i])
}

/// `state` with `q` set to `value`.
pub open spec fn set_bit(state: spec_fn(Qubit) -> bool, q: Qubit, value: bool) -> spec_fn(Qubit) -> bool {
    |x: Qubit| if x == q { value } else { state(x) }
}

/// Operations avoiding `q` commute with setting `q`.
pub proof fn lemma_apply_avoiding(ops: Seq<OpView>, state: spec_fn(Qubit) -> bool, q: Qubit, value: bool)
    requires
        avoids(ops, q),
    ensures
        apply_classical(ops, set_bit(state, q, value)) == set_bit(apply_classical(ops, state), q, value),
    decreases ops.len(),
{
    if ops.len() > 0 {
        let rest = ops.drop_last();
        assert(avoids(rest, q)) by {
            assert forall|i: int| 0 <= i < rest.len() implies (#[trigger] rest[i]).qubits.len() >= 1 && !rest[i].qubits.contains(q) by {
                assert(rest[i] == ops[i]);
            }
        }
        lemma_apply_avoiding(rest, state, q, value);
        let op = ops.last();
        let before = apply_classical(rest, state);
        let controls = op.qubits.drop_last();
        assert(op == ops[ops.len() - 1]);
        assert(op.qubits.len() >= 1 && !op.qubits.contains(q));
        assert forall|j: int| 0 <= j < controls.len() implies controls[j] != q by {
            assert(controls[j] == op.qubits[j]);
        }
        assert(op.qubits.last() != q) by {
            assert(op.qubits[op.qubits.len() - 1] == op.qubits.last());
        }
        let lhs = apply_classical_op(op, set_bit(before, q, value));
        let rhs = set_bit(apply_classical_op(op, before), q, value);
        assert(all_set(set_bit(before, q, value), controls) == all_set(before, controls));
        assert(lhs =~= rhs);
    }
}

/// A sequence of target-apart classical operations followed by its reverse is the identity.
pub proof fn lemma_apply_palindrome(ops: Seq<OpView>, state: spec_fn(Qubit) -> bool)
    requires
        targets_apart(ops),
    ensures
        apply_classical(ops + ops.reverse(), state) == state,
    decreases ops.len(),
{
    if ops.len() > 0 {
        let rest = ops.drop_last();
        let op = ops.last();
        assert(targets_apart(rest)) by {
            assert forall|i: int| 0 <= i < rest.len() implies target_apart(#[trigger] rest[i]) by {
                assert(rest[i] == ops[i]);
            }
        }
        lemma_apply_palindrome(rest, state);
        assert(ops + ops.reverse() =~= rest + seq![op, op] + rest.reverse());
        lemma_apply_concat(rest + seq![op, op], rest.reverse(), state);
        lemma_apply_concat(rest, seq![op, op], state);
        let mid = apply_classical(rest, state);
        assert(seq![op, op].drop_last() =~= seq![op]);
        lemma_apply_single(op, mid);
        assert(apply_classical(seq![op, op], mid) == apply_classical_op(op, apply_classical_op(op, mid)));
        let controls = op.qubits.drop_last();
        assert(op == ops[ops.len() - 1]);
        assert(target_apart(ops[ops.len() - 1]));
        let once = apply_classical_op(op, mid);
        assert(all_set(once, controls) == all_set(mid, controls)) by {
            assert forall|j: int| 0 <= j < controls.len() implies once(controls[j]) == mid(controls[j]) by {
                assert(controls[j] != op.qubits.last());
            }
        }
        assert(apply_classical_op(op, once) =~= mid);
        lemma_apply_concat(rest, rest.reverse(), state);
    }
}

/// `X`, `CX`, and `CCX` act as an MCX on at most two controls.
pub proof fn lemma_trivial_mcx_semantics(controls: Seq<Qubit>, target: Qubit, state: spec_fn(Qubit) -> bool)
    requires
        controls.len() <= 2,
    ensures
        apply_classical(trivial_mcx(controls, target), state) == mcx_state(state, controls, target),
{
    let ops = trivial_mcx(controls, target);
    let op = ops[0];
    assert(ops == seq![op]);
    lemma_apply_single(op, state);
    if controls.len() == 0 {
        assert(op.qubits.drop_last() =~= controls);
    } else if controls.len() == 1 {
        assert(op.qubits.drop_last() =~= controls);
    } else {
        assert(op.qubits.drop_last() =~= controls);
    }
    assert(apply_classical_op(op, state) =~= mcx_state(state, controls, target));
}

/// Facts about the state after a prefix of the compute ladder of the clean V-chain.
pub proof fn lemma_v_chain_compute_prefix(
    controls: Seq<Qubit>,
    ancillas: Seq<Qubit>,
    state: spec_fn(Qubit) -> bool,
    k: nat,
)
    requires
        controls.len() >= 3,
        ancillas.len() == controls.len() - 2,
        k <= ancillas.len(),
        (controls + ancillas).no_duplicates(),
        forall|i: int| 0 <= i < ancillas.len() ==> !state(#[trigger] ancillas[i]),
    ensures
        forall|i: int| 0 <= i < k ==> apply_classical(v_chain_compute(controls, ancillas).subrange(0, k as int), state)(#[trigger] ancillas[i])
            == all_set(state, controls.subrange(0, i + 2)),
        forall|q: Qubit| !ancillas.subrange(0, k as int).contains(q) ==> apply_classical(v_chain_compute(controls, ancillas).subrange(0, k as int), state)(q)
            == state(q),
    decreases k,
{
    let compute = v_chain_compute(controls, ancillas);
    let all = controls + ancillas;
    if k > 0 {
        let j = (k - 1) as int;
        lemma_v_chain_compute_prefix(controls, ancillas, state, (k - 1) as nat);
        let prev = apply_classical(compute.subrange(0, j), state);
        assert(compute.subrange(0, k as int).drop_last() =~= compute.subrange(0, j));
        assert(compute.subrange(0, k as int).last() == compute[j]);
        let next = apply_classical(compute.subrange(0, k as int), state);
        assert(next == apply_classical_op(compute[j], prev));
        assert(ancillas[j] == all[controls.len() + j]);
        assert forall|i: int| 0 <= i < controls.len() implies controls[i] != ancillas[j] by {
            assert(controls[i] == all[i]);
        }
        assert forall|i: int| 0 <= i < j implies ancillas[i] != ancillas[j] by {
            assert(ancillas[i] == all[controls.len() + i]);
        }
        if j == 0 {
            let op = compute[0];
            assert(op.qubits == seq![controls[0], controls[1], ancillas[0]]);
            assert(op.qubits.drop_last() =~= controls.subrange(0, 2));
            assert(prev == state);
            assert(next(ancillas[0]) == all_set(state, controls.subrange(0, 2)));
        } else {
            let op = compute[j];
            assert(op.qubits == seq![ancillas[j - 1], controls[j + 1], ancillas[j]]);
            assert(op.qubits.drop_last() =~= seq![ancillas[j - 1], controls[j + 1]]);
            assert forall|i: int| 0 <= i < j implies ancillas.subrange(0, j)[i] != controls[j + 1] by {
                assert(ancillas.subrange(0, j)[i] == all[controls.len() + i]);
                assert(controls[j + 1] == all[j + 1]);
            }
            assert(!ancillas.subrange(0, j).contains(controls[j + 1]));
            assert(prev(controls[j + 1]) == state(controls[j + 1]));
            assert(prev(ancillas[j - 1]) == all_set(state, controls.subrange(0, j + 1)));
            assert(!ancillas.subrange(0, j).contains(ancillas[j]));
            assert(prev(ancillas[j]) == state(ancillas[j]));
            assert(all_set(state, controls.subrange(0, j + 2)) == (all_set(state, controls.subrange(0, j + 1)) && state(controls[j + 1]))) by {
                let a = controls.subrange(0, j + 2);
                let b = controls.subrange(0, j + 1);
                if all_set(state, b) && state(controls[j + 1]) {
                    assert forall|i: int| 0 <= i < a.len() implies state(a[i]) by {
                        if i < j + 1 {
                            assert(a[i] == b[i]);
                        }
                    }
                }
                if all_set(state, a) {
                    assert(state(a[j + 1]));
                    assert forall|i: int| 0 <= i < b.len() implies state(b[i]) by {
                        assert(a[i] == b[i]);
                    }
                }
            }
            assert(all_set(prev, seq![ancillas[j - 1], controls[j + 1]]) == (prev(ancillas[j - 1]) && prev(controls[j + 1])));
        }
        assert forall|i: int| 0 <= i < k implies next(#[trigger] ancillas[i]) == all_set(state, controls.subrange(0, i + 2)) by {
            if i < j {
                assert(ancillas[i] != ancillas[j]);
            }
        }
        assert forall|q: Qubit| !ancillas.subrange(0, k as int).contains(q) implies next(q) == state(q) by {
            assert(ancillas.subrange(0, k as int)[j] == ancillas[j]);
            assert(q != ancillas[j]);
            assert forall|i: int| 0 <= i < j implies ancillas.subrange(0, j)[i] != q by {
                assert(ancillas.subrange(0, j)[i] == ancillas.subrange(0, k as int)[i]);
            }
            assert(!ancillas.subrange(0, j).contains(q));
        }
    } else {
        assert(compute.subrange(0, 0) =~= Seq::<OpView>::empty());
    }
}

/// Structural facts about the clean V-chain operands.
proof fn lemma_v_chain_facts(controls: Seq<Qubit>, target: Qubit, used: Seq<Qubit>)
    requires
        controls.len() >= 3,
        used.len() == controls.len() - 2,
        (controls + seq![target] + used).no_duplicates(),
    ensures
        (controls + used).no_duplicates(),
        avoids(v_chain_compute(controls, used), target),
        avoids(v_chain_compute(controls, used).reverse(), target),
        targets_apart(v_chain_compute(controls, used)),
        !used.contains(controls[controls.len() - 1]),
        !used.contains(target),
        forall|i: int| 0 <= i < controls.len() ==> controls[i] != target,
{
    let all = controls + seq![target] + used;
    let n = controls.len() as int;
    let m = used.len() as int;
    let compute = v_chain_compute(controls, used);
    let cu = controls + used;
    assert forall|i: int, j: int| 0 <= i < cu.len() && 0 <= j < cu.len() && i != j implies cu[i] != cu[j] by {
        let ii = if i < n { i } else { i + 1 };
        let jj = if j < n { j } else { j + 1 };
        assert(cu[i] == all[ii]);
        assert(cu[j] == all[jj]);
    }
    assert forall|i: int| 0 <= i < n implies controls[i] != target by {
        assert(controls[i] == all[i]);
        assert(target == all[n]);
    }
    assert forall|i: int| 0 <= i < m implies used[i] != target by {
        assert(used[i] == all[n + 1 + i]);
        assert(target == all[n]);
    }
    assert forall|i: int| 0 <= i < m implies used[i] != controls[n - 1] by {
        assert(cu[n + i] == used[i]);
        assert(cu[n - 1] == controls[n - 1]);
    }
    assert forall|i: int| 0 <= i < compute.len() implies (#[trigger] compute[i]).qubits.len() >= 1 && !compute[i].qubits.contains(target) by {
        if i == 0 {
            assert(compute[i].qubits == seq![controls[0], controls[1], used[0]]);
        } else {
            assert(compute[i].qubits == seq![used[i - 1], controls[i + 1], used[i]]);
        }
    }
    assert forall|i: int| 0 <= i < compute.reverse().len() implies (#[trigger] compute.reverse()[i]).qubits.len() >= 1 && !compute.reverse()[i].qubits.contains(target) by {
        assert(compute.reverse()[i] == compute[compute.len() - 1 - i]);
    }
    assert forall|i: int| 0 <= i < compute.len() implies target_apart(#[trigger] compute[i]) by {
        if i == 0 {
            assert(compute[i].qubits.drop_last() =~= seq![controls[0], controls[1]]);
            assert(cu[0] == controls[0] && cu[1] == controls[1] && cu[n] == used[0]);
        } else {
            assert(compute[i].qubits.drop_last() =~= seq![used[i - 1], controls[i + 1]]);
            assert(cu[n + i - 1] == used[i - 1] && cu[i + 1] == controls[i + 1] && cu[n + i] == used[i]);
        }
    }
}

/// `all_set` over a sequence splits into its prefix and last element.
pub proof fn lemma_all_set_split(state: spec_fn(Qubit) -> bool, s: Seq<Qubit>)
    requires
        s.len() >= 1,
    ensures
        all_set(state, s) == (all_set(state, s.drop_last()) && state(s.last())),
{
    let b = s.drop_last();
    if all_set(state, b) && state(s.last()) {
        assert forall|i: int| 0 <= i < s.len() implies state(s[i]) by {
            if i < s.len() - 1 {
                assert(s[i] == b[i]);
            }
        }
    }
    if all_set(state, s) {
        assert forall|i: int| 0 <= i < b.len() implies state(b[i]) by {
            assert(b[i] == s[i]);
        }
    }
}

/// Law: with clean (zero) ancillas, the clean-ancilla MCX flips the target
/// exactly when every control is set, and restores every ancilla.
#[verifier::rlimit(40)]
pub proof fn lemma_clean_mcx_implements_mcx(
    controls: Seq<Qubit>,
    target: Qubit,
    used: Seq<Qubit>,
    state: spec_fn(Qubit) -> bool,
)
    requires
        used.len() == clean_required(controls.len()),
        (controls + seq![target] + used).no_duplicates(),
        forall|i: int| 0 <= i < used.len() ==> !state(#[trigger] used[i]),
    ensures
        apply_classical(clean_mcx(controls, target, used), state) == mcx_state(state, controls, target),
{
    if controls.len() <= 2 {
        lemma_trivial_mcx_semantics(controls, target, state);
    } else {
        let n = controls.len() as int;
        let m = used.len() as int;
        let compute = v_chain_compute(controls, used);
        let toggle = plain(StandardGate::CCX, seq![used[m - 1], controls[n - 1], target]);
        lemma_v_chain_facts(controls, target, used);
        lemma_v_chain_compute_prefix(controls, used, state, m as nat);
        assert(compute.subrange(0, m) =~= compute);
        assert(used.subrange(0, m) =~= used);
        let y = apply_classical(compute, state);
        assert(y(controls[n - 1]) == state(controls[n - 1]));
        assert(y(target) == state(target));
        assert(y(used[m - 1]) == all_set(state, controls.subrange(0, n - 1)));
        assert(controls.drop_last() =~= controls.subrange(0, n - 1));
        lemma_all_set_split(state, controls);
        let conj = all_set(state, controls);
        let z = apply_classical_op(toggle, y);
        assert(toggle.qubits.drop_last() =~= seq![used[m - 1], controls[n - 1]]);
        assert(z =~= set_bit(y, target, state(target) != conj));
        let chain = v_chain(controls, target, used);
        assert(chain == compute + seq![toggle] + compute.reverse());
        lemma_apply_concat(compute + seq![toggle], compute.reverse(), state);
        lemma_apply_concat(compute, seq![toggle], state);
        lemma_apply_single(toggle, y);
        lemma_apply_avoiding(compute.reverse(), y, target, state(target) != conj);
        lemma_apply_palindrome(compute, state);
        lemma_apply_concat(compute, compute.reverse(), state);
        assert(apply_classical(compute.reverse(), y) == state);
        assert(apply_classical(chain, state) =~= mcx_state(state, controls, target));
    }
}

/// Law: the recursive dirty-ancilla MCX flips the target exactly when every
/// control is set and restores the borrowed qubit, whatever its initial value.
pub proof fn lemma_dirty_mcx_implements_mcx(
    controls: Seq<Qubit>,
    target: Qubit,
    dirty: Qubit,
    state: spec_fn(Qubit) -> bool,
)
    requires
        (controls + seq![target] + (if controls.len() >= 3 { seq![dirty] } else { Seq::<Qubit>::empty() })).no_duplicates(),
    ensures
        apply_classical(dirty_mcx(controls, target, dirty), state) == mcx_state(state, controls, target),
    decreases controls.len(),
{
    let n = controls.len() as int;
    if n <= 2 {
        lemma_trivial_mcx_semantics(controls, target, state);
    } else {
        let all = controls + seq![target] + seq![dirty];
        let prefix = controls.drop_last();
        let last = controls.last();
        assert forall|i: int| 0 <= i < n implies controls[i] != target && controls[i] != dirty by {
            assert(controls[i] == all[i]);
            assert(all[n as int] == target);
            assert(all[n + 1] == dirty);
        }
        assert(target != dirty) by {
            assert(all[n as int] == target);
            assert(all[n + 1] == dirty);
        }
        let inner_all = prefix + seq![dirty] + (if prefix.len() >= 3 { seq![target] } else { Seq::<Qubit>::empty() });
        assert(inner_all.no_duplicates()) by {
            assert forall|i: int, j: int| 0 <= i < inner_all.len() && 0 <= j < inner_all.len() && i != j implies inner_all[i] != inner_all[j] by {
                let map = |k: int| if k < n - 1 { k } else if k == n - 1 { n + 1 } else { n };
                assert(inner_all[i] == all[map(i)]);
                assert(inner_all[j] == all[map(j)]);
            }
        }
        let inner = dirty_mcx(prefix, dirty, target);
        let toggle = plain(StandardGate::CCX, seq![dirty, last, target]);
        assert(dirty_mcx(controls, target, dirty) == inner + seq![toggle] + inner + seq![toggle]);
        let s1 = apply_classical(inner, state);
        lemma_dirty_mcx_implements_mcx(prefix, dirty, target, state);
        let s2 = apply_classical_op(toggle, s1);
        lemma_dirty_mcx_implements_mcx(prefix, dirty, target, s2);
        let s3 = apply_classical(inner, s2);
        let s4 = apply_classical_op(toggle, s3);
        lemma_apply_single(toggle, s1);
        lemma_apply_single(toggle, s3);
        lemma_apply_concat(inner + seq![toggle] + inner, seq![toggle], state);
        lemma_apply_concat(inner + seq![toggle], inner, state);
        lemma_apply_concat(inner, seq![toggle], state);
        assert(apply_classical(seq![toggle], s1) == s2);
        assert(apply_classical(seq![toggle], s3) == s4);
        assert(toggle.qubits.drop_last() =~= seq![dirty, last]);
        assert(toggle.qubits.last() == target);
        assert forall|i: int| 0 <= i < prefix.len() implies prefix[i] != target && prefix[i] != dirty && prefix[i] != last by {
            assert(prefix[i] == controls[i]);
            assert(controls[i] != controls[n - 1]) by {
                assert(controls[i] == all[i]);
                assert(controls[n - 1] == all[n - 1]);
            }
        }
        assert(last != target && last != dirty);
        let a = all_set(state, prefix);
        assert(all_set(s2, prefix) == a) by {
            assert forall|i: int| 0 <= i < prefix.len() implies s2(prefix[i]) == state(prefix[i]) by {}
        }
        assert(all_set(state, controls) == (a && state(last))) by {
            if a && state(last) {
                assert forall|i: int| 0 <= i < n implies state(controls[i]) by {
                    if i < n - 1 {
                        assert(controls[i] == prefix[i]);
                    }
                }
            }
            if all_set(state, controls) {
                assert forall|i: int| 0 <= i < prefix.len() implies state(prefix[i]) by {
                    assert(prefix[i] == controls[i]);
                }
            }
        }
        assert(s4 =~= mcx_state(state, controls, target));
        assert(apply_classical(dirty_mcx(controls, target, dirty), state) == s4);
    }
}

/// Law: the clean-ancilla MCX emits as many operations as its cost estimate.
pub proof fn lemma_clean_mcx_count(controls: Seq<Qubit>, target: Qubit, used: Seq<Qubit>)
    requires
        used.len() == clean_required(controls.len()),
    ensures
        clean_mcx(controls, target, used).len() == clean_count(controls.len()),
{
}

/// Law: the recursive dirty-ancilla MCX emits as many operations as its cost estimate.
pub proof fn lemma_dirty_mcx_count(controls: Seq<Qubit>, target: Qubit, dirty: Qubit)
    ensures
        dirty_mcx(controls, target, dirty).len() == dirty_count(controls.len()),
    decreases controls.len(),
{
    let n = controls.len();
    if n > 2 {
        lemma_dirty_mcx_count(controls.drop_last(), dirty, target);
        lemma_two_pow_monotone(0, (n - 3) as nat);
        assert(two_pow((n - 2) as nat) == 2 * two_pow((n - 3) as nat));
    }
}

} // verus!
