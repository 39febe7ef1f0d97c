//! Phase polynomials on basis states: the one of the ancilla-free MCX is a
//! multi-controlled `Z` up to a global phase, and the one of the
//! ancilla-free controlled phase is exactly `C^k Phase(theta)`.
//!
//! `CX` permutes basis states, `RZ(theta)` multiplies a basis state by
//! `e^{-i theta / 2}` or `e^{i theta / 2}` as its qubit is unset or set, and
//! `Phase(theta)` by `1` or `e^{i theta}`; a sequence of them maps each basis
//! state to a basis state times a phase. Phases are counted as integers, in
//! units of the angles' base (`pi` for the MCX) over `2^precision`. The
//! polynomials rotate the parity of every nonempty subset by
//! `(-1)^(|S| + 1)` times a fixed angle; by inclusion-exclusion these add up
//! to `2^(q - 1)` times that angle on the all-ones state and to `0`
//! elsewhere.
use crate::circuit::{plain, Angle, CircuitParam, Instruction, OpView, Qubit, StandardGate};
use crate::decompose::mcx::{
    clean_mcx, clean_required, dirty_mcx, v_chain_compute, lemma_subset_nonempty, lemma_two_pow_monotone, parity_ladder, parity_rotation, phase_polynomial_mcx, polynomial_angle, polynomial_terms,
    subset_of, two_pow,
};
use crate::decompose::mcx_operands::lemma_subset_contained;
use crate::decompose::mc_gate::phase_ops::phase_terms;
use crate::decompose::mcx_lengths::{lemma_subset_shift, lemma_subset_zero, lemma_top_bit};
use crate::semantics::all_set;
use vstd::prelude::*;

verus! {

/// Whether an odd number of the qubits of `s` are set.
pub open spec fn parity(bits: spec_fn(Qubit) -> bool, s: Seq<Qubit>) -> bool
    decreases s.len(),
{
    if s.len() == 0 {
        false
    } else {
        parity(bits, s.drop_last()) != bits(s.last())
    }
}

/// Half the phase a parity rotation over `s` adds, in units: `+1` on odd
/// subsets and `-1` on even ones, negated when the parity is even.
pub open spec fn parity_term(bits: spec_fn(Qubit) -> bool, s: Seq<Qubit>) -> int {
    let sign: int = if s.len() % 2 == 0 { -1 } else { 1 };
    if parity(bits, s) { sign } else { -sign }
}

/// Sum of the parity terms of the subsets selected by the masks `0..masks`.
pub open spec fn term_sum(qubits: Seq<Qubit>, bits: spec_fn(Qubit) -> bool, masks: nat) -> int
    decreases masks,
{
    if masks == 0 {
        0
    } else {
        term_sum(qubits, bits, (masks - 1) as nat) + parity_term(bits, subset_of(qubits, (masks - 1) as nat))
    }
}

/// `1` for a set bit, `0` otherwise.
pub open spec fn bit_value(b: bool) -> int {
    if b { 1 } else { 0 }
}

/// Masks below `2^p` select the same subsets of `p + 1` qubits as of the first `p`.
proof fn lemma_term_sum_low(qubits: Seq<Qubit>, bits: spec_fn(Qubit) -> bool, j: nat)
    requires
        qubits.len() >= 1,
        j <= two_pow((qubits.len() - 1) as nat),
    ensures
        term_sum(qubits, bits, j) == term_sum(qubits.drop_last(), bits, j),
    decreases j,
{
    if j > 0 {
        let p = (qubits.len() - 1) as nat;
        lemma_term_sum_low(qubits, bits, (j - 1) as nat);
        lemma_top_bit((j - 1) as nat, p);
        assert(subset_of(qubits, (j - 1) as nat) =~= subset_of(qubits.drop_last(), (j - 1) as nat));
    }
}

/// From `2^p` on, each mask adds the last qubit to a subset of the first
/// `p`; the term keeps its value when that qubit is set and flips its sign
/// otherwise.
proof fn lemma_term_sum_high(qubits: Seq<Qubit>, bits: spec_fn(Qubit) -> bool, j: nat)
    requires
        qubits.len() >= 1,
        j <= two_pow((qubits.len() - 1) as nat),
    ensures
        term_sum(qubits, bits, two_pow((qubits.len() - 1) as nat) + j) == term_sum(qubits, bits, two_pow((qubits.len() - 1) as nat))
            + if bits(qubits.last()) { term_sum(qubits.drop_last(), bits, j) } else { -term_sum(qubits.drop_last(), bits, j) },
    decreases j,
{
    if j > 0 {
        let p = (qubits.len() - 1) as nat;
        let h = two_pow(p);
        let rest = qubits.drop_last();
        let i = (j - 1) as nat;
        lemma_term_sum_high(qubits, bits, i);
        lemma_top_bit(i, p);
        lemma_subset_shift(rest, i, p);
        assert((h + j - 1) as nat == i + two_pow(p));
        let low = subset_of(rest, i);
        let high = subset_of(qubits, (h + j - 1) as nat);
        assert(high =~= low.push(qubits.last()));
        assert(high.drop_last() =~= low);
    }
}

/// Inclusion-exclusion: the parity terms of all subsets add up to `2^q`
/// on the all-ones state and to `0` on every other state.
proof fn lemma_term_sum_total(qubits: Seq<Qubit>, bits: spec_fn(Qubit) -> bool)
    ensures
        term_sum(qubits, bits, two_pow(qubits.len())) == two_pow(qubits.len()) * bit_value(all_set(bits, qubits)),
    decreases qubits.len(),
{
    if qubits.len() == 0 {
        assert(term_sum(qubits, bits, 0) == 0);
        assert(subset_of(qubits, 0) =~= Seq::<Qubit>::empty());
        assert(parity_term(bits, subset_of(qubits, 0)) == 1);
        assert(two_pow(0) == 1);
        assert(all_set(bits, qubits));
    } else {
        let p = (qubits.len() - 1) as nat;
        let h = two_pow(p);
        let rest = qubits.drop_last();
        lemma_term_sum_total(rest, bits);
        lemma_term_sum_low(qubits, bits, h);
        lemma_term_sum_high(qubits, bits, h);
        assert(two_pow(qubits.len()) == h + h);
        assert(all_set(bits, qubits) == (all_set(bits, rest) && bits(qubits.last()))) by {
            if all_set(bits, rest) && bits(qubits.last()) {
                assert forall|i: int| 0 <= i < qubits.len() implies bits(qubits[i]) by {
                    if i < rest.len() {
                        assert(qubits[i] == rest[i]);
                    }
                }
            }
            if all_set(bits, qubits) {
                assert(bits(qubits[qubits.len() - 1]));
                assert forall|i: int| 0 <= i < rest.len() implies bits(rest[i]) by {
                    assert(qubits[i] == rest[i]);
                }
            }
        }
        let t = term_sum(rest, bits, h);
        assert(t == h * bit_value(all_set(bits, rest)));
        if bits(qubits.last()) {
            assert(term_sum(qubits, bits, h + h) == t + t);
            if all_set(bits, rest) {
                assert(t == h);
            } else {
                assert(t == 0);
            }
        } else {
            assert(term_sum(qubits, bits, h + h) == 0);
            assert(!all_set(bits, qubits));
        }
    }
}

/// `bits` with `target` flipped when `condition` holds.
pub open spec fn flip_if(bits: spec_fn(Qubit) -> bool, target: Qubit, condition: bool) -> spec_fn(Qubit) -> bool {
    |q: Qubit| if q == target && condition { !bits(q) } else { bits(q) }
}

/// Half the angle of a fixed `RZ` operation, in units of `pi / 2^precision`.
pub open spec fn half_angle_units(op: OpView, precision: nat) -> int {
    match op.params[0] {
        CircuitParam::Fixed(a) => a.numerator * two_pow((precision - a.log2_denominator - 1) as nat),
        CircuitParam::Index(_) => 0,
    }
}

/// The angle of a fixed `Phase` operation, in units of `pi / 2^precision`
/// (of the angle's base, in general).
pub open spec fn angle_units(op: OpView, precision: nat) -> int {
    match op.params[0] {
        CircuitParam::Fixed(a) => a.numerator * two_pow((precision - a.log2_denominator) as nat),
        CircuitParam::Index(_) => 0,
    }
}

/// Whether an operation is a `CX` or an `RZ`.
pub open spec fn is_cx_or_rz(op: OpView) -> bool {
    op.instruction == Instruction::Standard(StandardGate::CX) || op.instruction == Instruction::Standard(StandardGate::RZ)
}

/// Whether an operation is a `CX` or a `Phase`.
pub open spec fn is_cx_or_phase(op: OpView) -> bool {
    op.instruction == Instruction::Standard(StandardGate::CX) || op.instruction == Instruction::Standard(StandardGate::Phase)
}

/// Action of one `X`, `CX`, `CCX`, `RZ`, `Phase`, `S` or `SDG` on a basis
/// state and its accumulated phase: `X`, `CX` and `CCX` flip their last
/// operand when all others are set, `S` and `SDG` add and subtract `pi / 2`
/// (angles in units of `pi`) when their qubit is set, `RZ`
/// adds its half angle when its qubit is set and subtracts it otherwise,
/// `Phase` adds its angle when its qubit is set. Other operations are given
/// no meaning here and leave the pair as it is.
pub open spec fn phase_step(op: OpView, bits: spec_fn(Qubit) -> bool, phase: int, precision: nat) -> (spec_fn(Qubit) -> bool, int) {
    if op.instruction == Instruction::Standard(StandardGate::X) || op.instruction == Instruction::Standard(StandardGate::CCX) {
        (crate::semantics::apply_classical_op(op, bits), phase)
    } else if op.instruction == Instruction::Standard(StandardGate::CX) {
        (flip_if(bits, op.qubits[1], bits(op.qubits[0])), phase)
    } else if op.instruction == Instruction::Standard(StandardGate::RZ) {
        (bits, phase + if bits(op.qubits[0]) { half_angle_units(op, precision) } else { -half_angle_units(op, precision) })
    } else if op.instruction == Instruction::Standard(StandardGate::Phase) {
        (bits, phase + if bits(op.qubits[0]) { angle_units(op, precision) } else { 0 })
    } else if op.instruction == Instruction::Standard(StandardGate::S) {
        (bits, phase + if bits(op.qubits[0]) { two_pow((precision - 1) as nat) as int } else { 0 })
    } else if op.instruction == Instruction::Standard(StandardGate::SDG) {
        (bits, phase - if bits(op.qubits[0]) { two_pow((precision - 1) as nat) as int } else { 0 })
    } else {
        (bits, phase)
    }
}

/// Action of a sequence of such operations, first to last, from phase zero.
pub open spec fn phase_run(ops: Seq<OpView>, bits: spec_fn(Qubit) -> bool, precision: nat) -> (spec_fn(Qubit) -> bool, int)
    decreases ops.len(),
{
    if ops.len() == 0 {
        (bits, 0)
    } else {
        let prev = phase_run(ops.drop_last(), bits, precision);
        phase_step(ops.last(), prev.0, prev.1, precision)
    }
}

/// Running a concatenation runs the parts in order and adds their phases.
pub proof fn lemma_phase_run_concat(a: Seq<OpView>, b: Seq<OpView>, bits: spec_fn(Qubit) -> bool, precision: nat)
    ensures
        phase_run(a + b, bits, precision) == ({
            let first = phase_run(a, bits, precision);
            let second = phase_run(b, first.0, precision);
            (second.0, first.1 + second.1)
        }),
    decreases b.len(),
{
    if b.len() == 0 {
        assert(a + b =~= a);
    } else {
        assert((a + b).drop_last() =~= a + b.drop_last());
        assert((a + b).last() == b.last());
        lemma_phase_run_concat(a, b.drop_last(), bits, precision);
    }
}

/// Prepending a qubit flips the parity when that qubit is set.
proof fn lemma_parity_prepend(bits: spec_fn(Qubit) -> bool, x: Qubit, s: Seq<Qubit>)
    ensures
        parity(bits, seq![x] + s) == (bits(x) != parity(bits, s)),
    decreases s.len(),
{
    let whole = seq![x] + s;
    if s.len() > 0 {
        lemma_parity_prepend(bits, x, s.drop_last());
        assert(whole.drop_last() =~= seq![x] + s.drop_last());
        assert(whole.last() == s.last());
        assert(parity(bits, whole) == (parity(bits, whole.drop_last()) != bits(whole.last())));
        assert(parity(bits, s) == (parity(bits, s.drop_last()) != bits(s.last())));
    } else {
        assert(whole.drop_last() =~= Seq::<Qubit>::empty());
        assert(whole.last() == x);
        assert(parity(bits, whole.drop_last()) == false);
        assert(parity(bits, whole) == (parity(bits, whole.drop_last()) != bits(whole.last())));
    }
}

/// The `CX` ladder of a subset flips its last qubit by the parity of the
/// others; running it backwards undoes it.
proof fn lemma_ladder(s: Seq<Qubit>, bits: spec_fn(Qubit) -> bool, precision: nat)
    requires
        s.len() >= 2,
        !s.drop_last().contains(s.last()),
    ensures
        phase_run(parity_ladder(s), bits, precision) == (flip_if(bits, s.last(), parity(bits, s.drop_last())), 0int),
        phase_run(parity_ladder(s).reverse(), flip_if(bits, s.last(), parity(bits, s.drop_last())), precision) == (bits, 0int),
{
    let k = (s.len() - 1) as int;
    let t = s.last();
    let ladder = parity_ladder(s);
    assert forall|i: int| 0 <= i < k implies s[i] != t by {
        assert(s.drop_last()[i] == s[i]);
    }
    assert forall|i: int| 0 <= i <= k implies phase_run(ladder.subrange(0, i), bits, precision) == (flip_if(bits, t, parity(bits, s.subrange(0, i))), 0int) by {
        lemma_ladder_prefix(s, bits, precision, i);
    }
    assert(ladder.subrange(0, k) =~= ladder);
    assert(s.subrange(0, k) =~= s.drop_last());
    let after = flip_if(bits, t, parity(bits, s.drop_last()));
    let back = ladder.reverse();
    assert forall|i: int| 0 <= i <= k implies phase_run(back.subrange(0, i), after, precision) == (flip_if(after, t, parity(bits, s.subrange(k - i, k))), 0int) by {
        lemma_ladder_suffix(s, bits, after, precision, i);
    }
    assert(back.subrange(0, k) =~= back);
    assert(s.subrange(0, k) =~= s.drop_last());
    assert(flip_if(after, t, parity(bits, s.drop_last())) =~= bits);
}

/// The first `i` rungs of the ladder flip the last qubit by the parity of the first `i` qubits.
proof fn lemma_ladder_prefix(s: Seq<Qubit>, bits: spec_fn(Qubit) -> bool, precision: nat, i: int)
    requires
        s.len() >= 2,
        forall|j: int| 0 <= j < s.len() - 1 ==> s[j] != s.last(),
        0 <= i <= s.len() - 1,
    ensures
        phase_run(parity_ladder(s).subrange(0, i), bits, precision) == (flip_if(bits, s.last(), parity(bits, s.subrange(0, i))), 0int),
    decreases i,
{
    let t = s.last();
    let ladder = parity_ladder(s);
    if i == 0 {
        assert(ladder.subrange(0, 0) =~= Seq::<OpView>::empty());
        assert(s.subrange(0, 0) =~= Seq::<Qubit>::empty());
        assert(flip_if(bits, t, false) =~= bits);
    } else {
        lemma_ladder_prefix(s, bits, precision, i - 1);
        assert(ladder.subrange(0, i).drop_last() =~= ladder.subrange(0, i - 1));
        assert(ladder.subrange(0, i).last() == plain(StandardGate::CX, seq![s[i - 1], t]));
        assert(s.subrange(0, i).drop_last() =~= s.subrange(0, i - 1));
        assert(s.subrange(0, i).last() == s[i - 1]);
        let before = flip_if(bits, t, parity(bits, s.subrange(0, i - 1)));
        assert(before(s[i - 1]) == bits(s[i - 1]));
        assert(flip_if(before, t, before(s[i - 1])) =~= flip_if(bits, t, parity(bits, s.subrange(0, i))));
    }
}

/// The first `i` rungs of the reversed ladder flip the last qubit by the
/// parity of the last `i` qubits before it.
proof fn lemma_ladder_suffix(s: Seq<Qubit>, bits: spec_fn(Qubit) -> bool, start: spec_fn(Qubit) -> bool, precision: nat, i: int)
    requires
        s.len() >= 2,
        forall|j: int| 0 <= j < s.len() - 1 ==> s[j] != s.last(),
        forall|j: int| 0 <= j < s.len() - 1 ==> start(s[j]) == bits(s[j]),
        0 <= i <= s.len() - 1,
    ensures
        ({
            let k = s.len() - 1;
            phase_run(parity_ladder(s).reverse().subrange(0, i), start, precision) == (flip_if(start, s.last(), parity(bits, s.subrange(k - i, k))), 0int)
        }),
    decreases i,
{
    let k = s.len() - 1;
    let t = s.last();
    let back = parity_ladder(s).reverse();
    if i == 0 {
        assert(back.subrange(0, 0) =~= Seq::<OpView>::empty());
        assert(s.subrange(k, k) =~= Seq::<Qubit>::empty());
        assert(flip_if(start, t, false) =~= start);
    } else {
        lemma_ladder_suffix(s, bits, start, precision, i - 1);
        assert(back.subrange(0, i).drop_last() =~= back.subrange(0, i - 1));
        assert(back.subrange(0, i).last() == plain(StandardGate::CX, seq![s[k - i], t]));
        lemma_parity_prepend(bits, s[k - i], s.subrange(k - i + 1, k));
        assert(seq![s[k - i]] + s.subrange(k - i + 1, k) =~= s.subrange(k - i, k));
        let before = flip_if(start, t, parity(bits, s.subrange(k - i + 1, k)));
        assert(before(s[k - i]) == bits(s[k - i]));
        assert(flip_if(before, t, before(s[k - i])) =~= flip_if(start, t, parity(bits, s.subrange(k - i, k))));
    }
}

/// A parity rotation adds its half angle when the subset's parity is odd
/// and subtracts it otherwise, and leaves the basis state as it was.
proof fn lemma_rotation(s: Seq<Qubit>, angle: Angle, bits: spec_fn(Qubit) -> bool, precision: nat)
    requires
        s.len() >= 1,
        !s.drop_last().contains(s.last()),
    ensures
        phase_run(parity_rotation(StandardGate::RZ, s, angle), bits, precision) == ({
            let u = angle.numerator * two_pow((precision - angle.log2_denominator - 1) as nat);
            (bits, if parity(bits, s) { u } else { -u })
        }),
{
    let rot = crate::circuit::with_params(StandardGate::RZ, seq![s.last()], seq![CircuitParam::Fixed(angle)]);
    let u = angle.numerator * two_pow((precision - angle.log2_denominator - 1) as nat);
    assert(half_angle_units(rot, precision) == u);
    assert(parity(bits, s) == (parity(bits, s.drop_last()) != bits(s.last())));
    let single = seq![rot];
    assert(single.drop_last() =~= Seq::<OpView>::empty());
    assert(single.last() == rot);
    assert(rot.qubits[0] == s.last());
    let ph = |b: spec_fn(Qubit) -> bool| if b(s.last()) { u } else { -u };
    assert forall|b: spec_fn(Qubit) -> bool| #[trigger] phase_run(single, b, precision) == (b, ph(b)) by {
        assert(phase_run(single.drop_last(), b, precision) == (b, 0int));
    }
    if s.len() == 1 {
        assert(s.drop_last() =~= Seq::<Qubit>::empty());
        assert(parity_rotation(StandardGate::RZ, s, angle) == single);
        assert(phase_run(single, bits, precision) == (bits, ph(bits)));
    } else {
        let ladder = parity_ladder(s);
        assert(parity_rotation(StandardGate::RZ, s, angle) == ladder + single + ladder.reverse());
        lemma_ladder(s, bits, precision);
        let after = flip_if(bits, s.last(), parity(bits, s.drop_last()));
        assert(after(s.last()) == parity(bits, s));
        lemma_phase_run_concat(ladder, single, bits, precision);
        assert(phase_run(single, after, precision) == (after, ph(after)));
        assert(phase_run(ladder + single, bits, precision) == (after, ph(after)));
        lemma_phase_run_concat(ladder + single, ladder.reverse(), bits, precision);
    }
}

/// A subset of distinct qubits holds distinct qubits.
proof fn lemma_subset_distinct(qubits: Seq<Qubit>, mask: nat)
    requires
        qubits.no_duplicates(),
    ensures
        subset_of(qubits, mask).no_duplicates(),
    decreases qubits.len(),
{
    if qubits.len() > 0 {
        let rest = qubits.drop_last();
        assert(rest.no_duplicates()) by {
            assert forall|i: int, j: int| 0 <= i < rest.len() && 0 <= j < rest.len() && i != j implies rest[i] != rest[j] by {
                assert(rest[i] == qubits[i] && rest[j] == qubits[j]);
            }
        }
        lemma_subset_distinct(rest, mask);
        lemma_subset_contained(rest, mask);
        let low = subset_of(rest, mask);
        assert(!rest.contains(qubits.last())) by {
            if rest.contains(qubits.last()) {
                let k = choose|k: int| 0 <= k < rest.len() && rest[k] == qubits.last();
                assert(qubits[k] == qubits[qubits.len() - 1]);
            }
        }
        if crate::decompose::mcx::bit_set(mask, (qubits.len() - 1) as nat) {
            let full = low.push(qubits.last());
            assert(subset_of(qubits, mask) =~= full);
            assert forall|i: int, j: int| 0 <= i < full.len() && 0 <= j < full.len() && i != j implies full[i] != full[j] by {
                if i < low.len() && j < low.len() {
                } else if i < low.len() {
                    assert(low.contains(low[i]));
                } else {
                    assert(low.contains(low[j]));
                }
            }
        } else {
            assert(subset_of(qubits, mask) =~= low);
        }
    }
}

/// Every operation of the phase polynomial is a `CX` or an `RZ`.
proof fn lemma_terms_cx_or_rz(qubits: Seq<Qubit>, masks: nat)
    ensures
        forall|i: int| 0 <= i < polynomial_terms(qubits, masks).len() ==> is_cx_or_rz(#[trigger] polynomial_terms(qubits, masks)[i]),
    decreases masks,
{
    if masks > 1 {
        let mask = (masks - 1) as nat;
        lemma_terms_cx_or_rz(qubits, mask);
        let subset = subset_of(qubits, mask);
        let prev = polynomial_terms(qubits, mask);
        let rot = parity_rotation(StandardGate::RZ, subset, polynomial_angle(qubits.len(), subset));
        assert forall|i: int| 0 <= i < rot.len() implies is_cx_or_rz(#[trigger] rot[i]) by {
            if subset.len() > 1 {
                let ladder = parity_ladder(subset);
                let single = seq![crate::circuit::with_params(StandardGate::RZ, seq![subset.last()], seq![CircuitParam::Fixed(polynomial_angle(qubits.len(), subset))])];
                if i < ladder.len() {
                    assert(rot[i] == ladder[i]);
                } else if i == ladder.len() {
                    assert(rot[i] == single[0]);
                } else {
                    assert(rot[i] == ladder.reverse()[i - ladder.len() - 1]);
                }
            }
        }
        assert forall|i: int| 0 <= i < (prev + rot).len() implies is_cx_or_rz(#[trigger] (prev + rot)[i]) by {
            if i < prev.len() {
                assert((prev + rot)[i] == prev[i]);
            } else {
                assert((prev + rot)[i] == rot[i - prev.len()]);
            }
        }
    }
}

/// The phase polynomial over the masks `1..masks` adds the parity terms of
/// those masks and leaves the basis state as it was.
#[verifier::spinoff_prover]
#[verifier::rlimit(40)]
proof fn lemma_terms_phase(qubits: Seq<Qubit>, masks: nat, bits: spec_fn(Qubit) -> bool)
    requires
        qubits.no_duplicates(),
        1 <= qubits.len() <= u32::MAX + 1,
        1 <= masks <= two_pow(qubits.len()),
    ensures
        phase_run(polynomial_terms(qubits, masks), bits, qubits.len()) == (bits, term_sum(qubits, bits, masks) - 1),
    decreases masks,
{
    if masks == 1 {
        lemma_subset_zero(qubits);
        assert(subset_of(qubits, 0) =~= Seq::<Qubit>::empty());
        assert(term_sum(qubits, bits, 0) == 0);
    } else {
        let mask = (masks - 1) as nat;
        lemma_terms_phase(qubits, mask, bits);
        let subset = subset_of(qubits, mask);
        lemma_subset_nonempty(qubits, mask);
        lemma_subset_distinct(qubits, mask);
        assert(!subset.drop_last().contains(subset.last())) by {
            if subset.drop_last().contains(subset.last()) {
                let k = choose|k: int| 0 <= k < subset.drop_last().len() && subset.drop_last()[k] == subset.last();
                assert(subset[k] == subset[subset.len() - 1]);
            }
        }
        let angle = polynomial_angle(qubits.len(), subset);
        assert(angle.log2_denominator == qubits.len() - 1);
        assert(((qubits.len() - angle.log2_denominator - 1) as nat) == 0);
        lemma_rotation(subset, angle, bits, qubits.len());
        lemma_phase_run_concat(polynomial_terms(qubits, mask), parity_rotation(StandardGate::RZ, subset, angle), bits, qubits.len());
    }
}

/// Law: the ancilla-free MCX is `H` on the target around its phase
/// polynomial, a sequence of `CX` and `RZ` operations that maps every basis
/// state to itself with the phase `pi` when all its qubits are set and `0`
/// otherwise, less the global phase `pi / 2^q` (phases in units of
/// `pi / 2^q` over `q` qubits): a multi-controlled `Z` up to global phase.
pub proof fn lemma_phase_polynomial_is_controlled_z(controls: Seq<Qubit>, target: Qubit, bits: spec_fn(Qubit) -> bool)
    requires
        controls.push(target).no_duplicates(),
        controls.len() <= u32::MAX,
    ensures
        ({
            let qubits = controls.push(target);
            let q = qubits.len();
            let core = polynomial_terms(qubits, two_pow(q));
            &&& phase_polynomial_mcx(controls, target) == seq![plain(StandardGate::H, seq![target])] + core + seq![
                plain(StandardGate::H, seq![target]),
            ]
            &&& forall|i: int| 0 <= i < core.len() ==> is_cx_or_rz(#[trigger] core[i])
            &&& phase_run(core, bits, q) == (bits, two_pow(q) * bit_value(all_set(bits, qubits)) - 1)
        }),
{
    let qubits = controls.push(target);
    let q = qubits.len();
    lemma_two_pow_monotone(0, q);
    lemma_terms_cx_or_rz(qubits, two_pow(q));
    lemma_terms_phase(qubits, two_pow(q), bits);
    lemma_term_sum_total(qubits, bits);
}

/// `+1` for an odd subset, `-1` for an even one.
pub open spec fn subset_sign(s: Seq<Qubit>) -> int {
    if s.len() % 2 == 0 { -1 } else { 1 }
}

/// Sum of the signs of the subsets selected by the masks `0..masks`.
pub open spec fn sign_sum(qubits: Seq<Qubit>, masks: nat) -> int
    decreases masks,
{
    if masks == 0 {
        0
    } else {
        sign_sum(qubits, (masks - 1) as nat) + subset_sign(subset_of(qubits, (masks - 1) as nat))
    }
}

/// Sum of the signs of the subsets of odd parity selected by the masks `0..masks`.
pub open spec fn odd_sign_sum(qubits: Seq<Qubit>, bits: spec_fn(Qubit) -> bool, masks: nat) -> int
    decreases masks,
{
    if masks == 0 {
        0
    } else {
        odd_sign_sum(qubits, bits, (masks - 1) as nat) + subset_sign(subset_of(qubits, (masks - 1) as nat)) * bit_value(
            parity(bits, subset_of(qubits, (masks - 1) as nat)),
        )
    }
}

/// The signs of all subsets of at least one qubit cancel.
proof fn lemma_sign_sum_total(qubits: Seq<Qubit>)
    requires
        qubits.len() >= 1,
    ensures
        sign_sum(qubits, two_pow(qubits.len())) == 0,
{
    let p = (qubits.len() - 1) as nat;
    let h = two_pow(p);
    let rest = qubits.drop_last();
    assert(two_pow(qubits.len()) == h + h);
    assert forall|j: nat| j <= h implies #[trigger] sign_sum(qubits, j) == sign_sum(rest, j) by {
        lemma_sign_sum_low(qubits, j);
    }
    assert forall|j: nat| j <= h implies #[trigger] sign_sum(qubits, h + j) == sign_sum(qubits, h) - sign_sum(rest, j) by {
        lemma_sign_sum_high(qubits, j);
    }
    assert(sign_sum(qubits, h + h) == sign_sum(qubits, h) - sign_sum(rest, h));
}

proof fn lemma_sign_sum_low(qubits: Seq<Qubit>, j: nat)
    requires
        qubits.len() >= 1,
        j <= two_pow((qubits.len() - 1) as nat),
    ensures
        sign_sum(qubits, j) == sign_sum(qubits.drop_last(), j),
    decreases j,
{
    if j > 0 {
        let p = (qubits.len() - 1) as nat;
        lemma_sign_sum_low(qubits, (j - 1) as nat);
        lemma_top_bit((j - 1) as nat, p);
        assert(subset_of(qubits, (j - 1) as nat) =~= subset_of(qubits.drop_last(), (j - 1) as nat));
    }
}

proof fn lemma_sign_sum_high(qubits: Seq<Qubit>, j: nat)
    requires
        qubits.len() >= 1,
        j <= two_pow((qubits.len() - 1) as nat),
    ensures
        sign_sum(qubits, two_pow((qubits.len() - 1) as nat) + j) == sign_sum(qubits, two_pow((qubits.len() - 1) as nat))
            - sign_sum(qubits.drop_last(), j),
    decreases j,
{
    if j > 0 {
        let p = (qubits.len() - 1) as nat;
        let h = two_pow(p);
        let rest = qubits.drop_last();
        let i = (j - 1) as nat;
        lemma_sign_sum_high(qubits, i);
        lemma_top_bit(i, p);
        lemma_subset_shift(rest, i, p);
        assert((h + j - 1) as nat == i + two_pow(p));
        assert(subset_of(qubits, (h + j - 1) as nat) =~= subset_of(rest, i).push(qubits.last()));
    }
}

/// Twice the odd-parity sign sum is the parity-term sum plus the sign sum.
proof fn lemma_odd_sign_sum(qubits: Seq<Qubit>, bits: spec_fn(Qubit) -> bool, masks: nat)
    ensures
        2 * odd_sign_sum(qubits, bits, masks) == term_sum(qubits, bits, masks) + sign_sum(qubits, masks),
    decreases masks,
{
    if masks > 0 {
        lemma_odd_sign_sum(qubits, bits, (masks - 1) as nat);
    }
}

/// A parity phase adds its angle when the subset's parity is odd and
/// leaves the basis state as it was.
proof fn lemma_phase_rotation(s: Seq<Qubit>, angle: Angle, bits: spec_fn(Qubit) -> bool, precision: nat)
    requires
        s.len() >= 1,
        !s.drop_last().contains(s.last()),
    ensures
        phase_run(parity_rotation(StandardGate::Phase, s, angle), bits, precision) == ({
            let u = angle.numerator * two_pow((precision - angle.log2_denominator) as nat);
            (bits, if parity(bits, s) { u } else { 0 })
        }),
{
    let rot = crate::circuit::with_params(StandardGate::Phase, seq![s.last()], seq![CircuitParam::Fixed(angle)]);
    let u = angle.numerator * two_pow((precision - angle.log2_denominator) as nat);
    assert(angle_units(rot, precision) == u);
    assert(parity(bits, s) == (parity(bits, s.drop_last()) != bits(s.last())));
    let single = seq![rot];
    assert(single.drop_last() =~= Seq::<OpView>::empty());
    assert(single.last() == rot);
    assert(rot.qubits[0] == s.last());
    let ph = |b: spec_fn(Qubit) -> bool| if b(s.last()) { u } else { 0 };
    assert forall|b: spec_fn(Qubit) -> bool| #[trigger] phase_run(single, b, precision) == (b, ph(b)) by {
        assert(phase_run(single.drop_last(), b, precision) == (b, 0int));
    }
    if s.len() == 1 {
        assert(s.drop_last() =~= Seq::<Qubit>::empty());
        assert(parity_rotation(StandardGate::Phase, s, angle) == single);
        assert(phase_run(single, bits, precision) == (bits, ph(bits)));
    } else {
        let ladder = parity_ladder(s);
        assert(parity_rotation(StandardGate::Phase, s, angle) == ladder + single + ladder.reverse());
        lemma_ladder(s, bits, precision);
        let after = flip_if(bits, s.last(), parity(bits, s.drop_last()));
        assert(after(s.last()) == parity(bits, s));
        lemma_phase_run_concat(ladder, single, bits, precision);
        assert(phase_run(single, after, precision) == (after, ph(after)));
        assert(phase_run(ladder + single, bits, precision) == (after, ph(after)));
        lemma_phase_run_concat(ladder + single, ladder.reverse(), bits, precision);
    }
}

/// The parity phases over the masks `1..masks` add `n` times the odd-parity
/// sign sum, where `pos` and `neg` are `n` and `-n` units of the precision.
proof fn lemma_phase_terms_phase(qubits: Seq<Qubit>, masks: nat, pos: Angle, neg: Angle, bits: spec_fn(Qubit) -> bool, precision: nat)
    requires
        qubits.no_duplicates(),
        1 <= masks <= two_pow(qubits.len()),
        pos.log2_denominator == precision,
        neg.log2_denominator == precision,
        neg.numerator == -pos.numerator,
    ensures
        phase_run(phase_terms(qubits, masks, pos, neg), bits, precision) == (bits, pos.numerator * odd_sign_sum(qubits, bits, masks)),
    decreases masks,
{
    if masks == 1 {
        lemma_subset_zero(qubits);
        assert(subset_of(qubits, 0) =~= Seq::<Qubit>::empty());
        assert(odd_sign_sum(qubits, bits, 0) == 0);
        assert(odd_sign_sum(qubits, bits, 1) == 0);
    } else {
        let mask = (masks - 1) as nat;
        lemma_phase_terms_phase(qubits, mask, pos, neg, bits, precision);
        let subset = subset_of(qubits, mask);
        lemma_subset_nonempty(qubits, mask);
        lemma_subset_distinct(qubits, mask);
        assert(!subset.drop_last().contains(subset.last())) by {
            if subset.drop_last().contains(subset.last()) {
                let k = choose|k: int| 0 <= k < subset.drop_last().len() && subset.drop_last()[k] == subset.last();
                assert(subset[k] == subset[subset.len() - 1]);
            }
        }
        let angle = if subset.len() % 2 == 0 { neg } else { pos };
        assert(((precision - angle.log2_denominator) as nat) == 0);
        lemma_phase_rotation(subset, angle, bits, precision);
        lemma_phase_run_concat(phase_terms(qubits, mask, pos, neg), parity_rotation(StandardGate::Phase, subset, angle), bits, precision);
        let n = pos.numerator as int;
        let before = odd_sign_sum(qubits, bits, mask);
        assert(two_pow(0) == 1);
        let u = angle.numerator * two_pow((precision - angle.log2_denominator) as nat);
        assert(u == subset_sign(subset) * n);
        let added = if parity(bits, subset) { u } else { 0 };
        assert(added == n * (subset_sign(subset) * bit_value(parity(bits, subset)))) by (nonlinear_arith)
            requires
                u == subset_sign(subset) * n,
                added == if parity(bits, subset) { u } else { 0 },
                bit_value(parity(bits, subset)) == if parity(bits, subset) { 1int } else { 0int };
        assert(phase_run(phase_terms(qubits, masks, pos, neg), bits, precision) == (bits, n * before + added));
        assert(pos.numerator * odd_sign_sum(qubits, bits, masks) == n * before + n * (subset_sign(subset) * bit_value(parity(bits, subset)))) by (nonlinear_arith)
            requires
                odd_sign_sum(qubits, bits, masks) == before + subset_sign(subset) * bit_value(parity(bits, subset)),
                n == pos.numerator;
    }
}

/// Law: the ancilla-free controlled phase over `q` qubits (the controls and
/// the target) is a sequence of `CX` and `Phase` operations that maps every
/// basis state to itself with the phase `theta` when all its qubits are set
/// and `0` otherwise, phases counted in units of `theta`'s base over
/// `2^(d + q - 1)`, where `2^d` is `theta`'s denominator: exactly `C^k Phase(theta)`.
pub proof fn lemma_phase_polynomial_is_controlled_phase(qubits: Seq<Qubit>, pos: Angle, neg: Angle, theta: Angle, bits: spec_fn(Qubit) -> bool)
    requires
        qubits.no_duplicates(),
        qubits.len() >= 1,
        pos == crate::circuit::scaled_angle(theta, 1, (qubits.len() - 1) as nat)->Some_0,
        neg == crate::circuit::scaled_angle(theta, -1, (qubits.len() - 1) as nat)->Some_0,
        crate::circuit::scaled_angle(theta, 1, (qubits.len() - 1) as nat) is Some,
        crate::circuit::scaled_angle(theta, -1, (qubits.len() - 1) as nat) is Some,
    ensures
        ({
            let ops = phase_terms(qubits, two_pow(qubits.len()), pos, neg);
            &&& forall|i: int| 0 <= i < ops.len() ==> is_cx_or_phase(#[trigger] ops[i])
            &&& phase_run(ops, bits, pos.log2_denominator as nat) == (bits, theta.numerator * two_pow((qubits.len() - 1) as nat)
                * bit_value(all_set(bits, qubits)))
        }),
{
    let q = qubits.len();
    let p = (q - 1) as nat;
    let h = two_pow(p);
    lemma_two_pow_monotone(0, q);
    lemma_phase_terms_cx_or_phase(qubits, two_pow(q), pos, neg);
    lemma_phase_terms_phase(qubits, two_pow(q), pos, neg, bits, pos.log2_denominator as nat);
    lemma_term_sum_total(qubits, bits);
    lemma_sign_sum_total(qubits);
    lemma_odd_sign_sum(qubits, bits, two_pow(q));
    assert(two_pow(q) == 2 * h);
    let a = bit_value(all_set(bits, qubits));
    let odd = odd_sign_sum(qubits, bits, two_pow(q));
    assert(2 * odd == (2 * h) * a);
    assert(odd == h * a) by (nonlinear_arith)
        requires
            2 * odd == (2 * h) * a;
    assert(pos.numerator == theta.numerator);
    assert(theta.numerator * odd == theta.numerator * h * a) by (nonlinear_arith)
        requires
            odd == h * a;
}

/// Every operation of the parity phases is a `CX` or a `Phase`.
proof fn lemma_phase_terms_cx_or_phase(qubits: Seq<Qubit>, masks: nat, pos: Angle, neg: Angle)
    ensures
        forall|i: int| 0 <= i < phase_terms(qubits, masks, pos, neg).len() ==> is_cx_or_phase(#[trigger] phase_terms(qubits, masks, pos, neg)[i]),
    decreases masks,
{
    if masks > 1 {
        let mask = (masks - 1) as nat;
        lemma_phase_terms_cx_or_phase(qubits, mask, pos, neg);
        let subset = subset_of(qubits, mask);
        let angle = if subset.len() % 2 == 0 { neg } else { pos };
        let prev = phase_terms(qubits, mask, pos, neg);
        let rot = parity_rotation(StandardGate::Phase, subset, angle);
        assert forall|i: int| 0 <= i < rot.len() implies is_cx_or_phase(#[trigger] rot[i]) by {
            if subset.len() > 1 {
                let ladder = parity_ladder(subset);
                let single = seq![crate::circuit::with_params(StandardGate::Phase, seq![subset.last()], seq![CircuitParam::Fixed(angle)])];
                if i < ladder.len() {
                    assert(rot[i] == ladder[i]);
                } else if i == ladder.len() {
                    assert(rot[i] == single[0]);
                } else {
                    assert(rot[i] == ladder.reverse()[i - ladder.len() - 1]);
                }
            }
        }
        assert forall|i: int| 0 <= i < (prev + rot).len() implies is_cx_or_phase(#[trigger] (prev + rot)[i]) by {
            if i < prev.len() {
                assert((prev + rot)[i] == prev[i]);
            } else {
                assert((prev + rot)[i] == rot[i - prev.len()]);
            }
        }
    }
}

/// Whether an operation is an `X`, `CX` or `CCX` on as many operands as its gate has.
pub open spec fn is_flip_op(op: OpView) -> bool {
    ||| op.instruction == Instruction::Standard(StandardGate::X) && op.qubits.len() == 1
    ||| op.instruction == Instruction::Standard(StandardGate::CX) && op.qubits.len() == 2
    ||| op.instruction == Instruction::Standard(StandardGate::CCX) && op.qubits.len() == 3
}

/// On `X`/`CX`/`CCX` sequences the phase semantics is the classical one and
/// adds no phase.
pub proof fn lemma_flip_run(ops: Seq<OpView>, bits: spec_fn(Qubit) -> bool, precision: nat)
    requires
        forall|i: int| 0 <= i < ops.len() ==> is_flip_op(#[trigger] ops[i]),
    ensures
        phase_run(ops, bits, precision) == (crate::semantics::apply_classical(ops, bits), 0int),
    decreases ops.len(),
{
    if ops.len() > 0 {
        let rest = ops.drop_last();
        assert forall|i: int| 0 <= i < rest.len() implies is_flip_op(#[trigger] rest[i]) by {
            assert(rest[i] == ops[i]);
        }
        lemma_flip_run(rest, bits, precision);
        let op = ops.last();
        assert(is_flip_op(ops[ops.len() - 1]));
        let before = crate::semantics::apply_classical(rest, bits);
        if op.instruction == Instruction::Standard(StandardGate::CX) {
            let q0 = op.qubits[0];
            assert(op.qubits.drop_last() =~= seq![q0]);
            assert(seq![q0][0] == q0);
            if before(q0) {
                assert forall|i: int| 0 <= i < 1 implies before(#[trigger] seq![q0][i]) by {}
            }
            assert(all_set(before, seq![q0]) == before(q0));
            assert(flip_if(before, op.qubits[1], before(op.qubits[0])) =~= crate::semantics::apply_classical_op(op, before));
        }
    }
}

/// A sequence, a middle operation and the sequence reversed read the same backwards.
pub proof fn lemma_palindrome(a: Seq<OpView>, middle: OpView)
    ensures
        (a + seq![middle] + a.reverse()).reverse() == a + seq![middle] + a.reverse(),
{
    let v = a + seq![middle] + a.reverse();
    let l = a.len() as int;
    assert forall|i: int| 0 <= i < v.len() implies #[trigger] v.reverse()[i] == v[i] by {
        assert(v.reverse()[i] == v[v.len() - 1 - i]);
        if i < l {
            assert(v[2 * l - i] == a.reverse()[l - 1 - i]);
        } else if i > l {
            assert(v[i] == a.reverse()[i - l - 1]);
        }
    }
    assert(v.reverse() =~= v);
}

/// The controlled-phase pair adds twice its half angle when both qubits are
/// set, nothing otherwise, and leaves the basis state as it was.
pub proof fn lemma_phase_pair_run(control: Qubit, target: Qubit, half: Angle, negative_half: Angle, bits: spec_fn(Qubit) -> bool, precision: nat)
    requires
        control != target,
        negative_half.numerator == -half.numerator,
        negative_half.log2_denominator == half.log2_denominator,
    ensures
        phase_run(crate::decompose::mc_gate::phase_ops::controlled_phase_pair(control, target, half, negative_half), bits, precision) == ({
            let u = half.numerator * two_pow((precision - half.log2_denominator) as nat);
            (bits, 2 * u * bit_value(bits(control) && bits(target)))
        }),
{
    let ops = crate::decompose::mc_gate::phase_ops::controlled_phase_pair(control, target, half, negative_half);
    let u = half.numerator * two_pow((precision - half.log2_denominator) as nat);
    let o1 = ops[0];
    let o2 = ops[1];
    let o3 = ops[2];
    let o4 = ops[3];
    let o5 = ops[4];
    let flipped = flip_if(bits, target, bits(control));
    let w = two_pow((precision - half.log2_denominator) as nat);
    assert(o1 == crate::decompose::mc_gate::phase_ops::phase_op(control, half));
    assert(o2 == crate::decompose::mc_gate::phase_ops::phase_op(target, half));
    assert(o4 == crate::decompose::mc_gate::phase_ops::phase_op(target, negative_half));
    assert(o1.params[0] == CircuitParam::Fixed(half));
    assert(o4.params[0] == CircuitParam::Fixed(negative_half));
    assert(negative_half.numerator * w == -(half.numerator * w)) by (nonlinear_arith)
        requires
            negative_half.numerator == -half.numerator;
    assert(angle_units(o1, precision) == u && angle_units(o2, precision) == u && angle_units(o4, precision) == -u);
    assert(seq![o1].drop_last() =~= Seq::<OpView>::empty());
    assert(seq![o1].last() == o1);
    assert(phase_run(Seq::<OpView>::empty(), bits, precision) == (bits, 0int));
    assert(o1.qubits[0] == control && o2.qubits[0] == target && o4.qubits[0] == target);
    assert(o1.instruction == Instruction::Standard(StandardGate::Phase));
    assert(phase_step(o1, bits, 0, precision) == (bits, if bits(control) { u } else { 0 }));
    assert(phase_run(seq![o1], bits, precision) == (bits, if bits(control) { u } else { 0 }));
    assert(seq![o1, o2].drop_last() =~= seq![o1]);
    assert(phase_run(seq![o1, o2], bits, precision) == (bits, (if bits(control) { u } else { 0 }) + (if bits(target) { u } else { 0 })));
    assert(seq![o1, o2, o3].drop_last() =~= seq![o1, o2]);
    assert(phase_run(seq![o1, o2, o3], bits, precision) == (flipped, (if bits(control) { u } else { 0 }) + (if bits(target) { u } else { 0 })));
    assert(seq![o1, o2, o3, o4].drop_last() =~= seq![o1, o2, o3]);
    assert(phase_run(seq![o1, o2, o3, o4], bits, precision) == (flipped, (if bits(control) { u } else { 0 }) + (if bits(target) { u } else { 0 }) + (if flipped(target) { -u } else { 0 })));
    assert(ops.drop_last() =~= seq![o1, o2, o3, o4]);
    assert(ops.last() == o5);
    assert(flip_if(flipped, target, flipped(control)) =~= bits);
    let c = bit_value(bits(control));
    let t = bit_value(bits(target));
    let ct = bit_value(bits(control) && bits(target));
    let x = bit_value(flipped(target));
    assert(x == c + t - 2 * ct);
    assert(u * c + u * t - u * x == 2 * u * ct) by (nonlinear_arith)
        requires
            x == c + t - 2 * ct;
    assert((if bits(control) { u } else { 0 }) + (if bits(target) { u } else { 0 }) + (if flipped(target) { -u } else { 0 }) == u * c + u * t - u * x) by (nonlinear_arith)
        requires
            c == if bits(control) { 1int } else { 0int },
            t == if bits(target) { 1int } else { 0int },
            x == if flipped(target) { 1int } else { 0int };
}

/// The clean-ancilla MCX is made of `X`, `CX` and `CCX` operations and reads
/// the same backwards.
pub proof fn lemma_clean_mcx_shape(controls: Seq<Qubit>, target: Qubit, used: Seq<Qubit>)
    requires
        used.len() == clean_required(controls.len()),
    ensures
        forall|i: int| 0 <= i < clean_mcx(controls, target, used).len() ==> is_flip_op(#[trigger] clean_mcx(controls, target, used)[i]),
        clean_mcx(controls, target, used).reverse() == clean_mcx(controls, target, used),
{
    let ops = clean_mcx(controls, target, used);
    if controls.len() <= 2 {
        assert(ops.reverse() =~= ops);
    } else {
        let compute = v_chain_compute(controls, used);
        let flip = plain(StandardGate::CCX, seq![used[used.len() - 1], controls[controls.len() - 1], target]);
        lemma_palindrome(compute, flip);
        assert(ops == compute + seq![flip] + compute.reverse());
        assert forall|i: int| 0 <= i < ops.len() implies is_flip_op(#[trigger] ops[i]) by {
            let l = compute.len() as int;
            if i < l {
                assert(ops[i] == compute[i]);
            } else if i > l {
                assert(ops[i] == compute.reverse()[i - l - 1]);
                assert(compute.reverse()[i - l - 1] == compute[l - 1 - (i - l - 1)]);
            }
        }
    }
}

/// The recursive dirty-ancilla MCX is made of `X`, `CX` and `CCX` operations.
pub proof fn lemma_dirty_mcx_shape(controls: Seq<Qubit>, target: Qubit, dirty: Qubit)
    ensures
        forall|i: int| 0 <= i < dirty_mcx(controls, target, dirty).len() ==> is_flip_op(#[trigger] dirty_mcx(controls, target, dirty)[i]),
    decreases controls.len(),
{
    if controls.len() > 2 {
        let inner = dirty_mcx(controls.drop_last(), dirty, target);
        lemma_dirty_mcx_shape(controls.drop_last(), dirty, target);
        let toggle = seq![plain(StandardGate::CCX, seq![dirty, controls.last(), target])];
        let ops = inner + toggle + inner + toggle;
        assert forall|i: int| 0 <= i < ops.len() implies is_flip_op(#[trigger] ops[i]) by {
            let l = inner.len() as int;
            if i < l {
                assert(ops[i] == inner[i]);
            } else if i == l {
                assert(ops[i] == toggle[0]);
            } else if i < 2 * l + 1 {
                assert(ops[i] == inner[i - l - 1]);
            } else {
                assert(ops[i] == toggle[0]);
            }
        }
    }
}

} // verus!
