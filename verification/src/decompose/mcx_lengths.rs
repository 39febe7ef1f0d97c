//! Exact lengths of the ancilla-free phase polynomials.
//!
//! Over `q` qubits the polynomial has one parity rotation per nonempty
//! subset, of `2|S| - 1` operations. The subsets' sizes add up to
//! `q * 2^(q - 1)`, which gives `(q - 1) * 2^q + 1` operations in all; with
//! the two `H` around it, the ancilla-free MCX emits exactly the
//! operations its cost estimate counts.
use crate::circuit::{Angle, Qubit, StandardGate};
use crate::decompose::mcx::{
    bit_set, lemma_subset_nonempty, lemma_two_pow_monotone, no_ancilla_count, no_ancilla_mcx, parity_rotation,
    polynomial_angle, polynomial_terms, subset_of, two_pow,
};
use crate::decompose::mc_gate::phase_ops::phase_terms;
use vstd::arithmetic::div_mod::{lemma_fundamental_div_mod, lemma_fundamental_div_mod_converse, lemma_mod_multiples_vanish};
use vstd::prelude::*;

verus! {

/// Sum of the sizes of the subsets the masks `0..masks` select.
pub open spec fn subset_size_sum(qubits: Seq<Qubit>, masks: nat) -> nat
    decreases masks,
{
    if masks == 0 {
        0
    } else {
        subset_size_sum(qubits, (masks - 1) as nat) + subset_of(qubits, (masks - 1) as nat).len()
    }
}

/// `2^(a + b) = 2^a * 2^b`.
proof fn lemma_two_pow_add(a: nat, b: nat)
    ensures
        two_pow(a + b) == two_pow(a) * two_pow(b),
    decreases b,
{
    if b > 0 {
        let c = (b - 1) as nat;
        lemma_two_pow_add(a, c);
        assert(a + b == (a + c) + 1);
        assert(two_pow(a + b) == 2 * two_pow(a + c));
        assert(two_pow(b) == 2 * two_pow(c));
        let x = two_pow(a);
        let y = two_pow(c);
        assert(x * (2 * y) == 2 * (x * y)) by (nonlinear_arith);
    } else {
        assert(a + b == a);
        assert(two_pow(b) == 1);
    }
}

/// Adding `2^k` to a mask leaves its bits below `k` as they are.
proof fn lemma_bit_shift(m: nat, i: nat, k: nat)
    requires
        i < k,
    ensures
        bit_set(m + two_pow(k), i) == bit_set(m, i),
{
    let d = two_pow(i);
    let half = two_pow((k - i - 1) as nat);
    lemma_two_pow_monotone(0, i);
    lemma_two_pow_add(i, (k - i) as nat);
    assert(i + (k - i) == k);
    assert(two_pow((k - i) as nat) == 2 * half);
    let e = 2 * half;
    assert(two_pow(k) == d * e);
    lemma_fundamental_div_mod(m as int, d as int);
    let q = m as int / d as int;
    let r = m as int % d as int;
    assert(0 <= r < d) by {
        vstd::arithmetic::div_mod::lemma_mod_pos_bound(m as int, d as int);
    }
    assert(m + d * e == (q + e) * d + r) by (nonlinear_arith)
        requires
            m == d * q + r;
    lemma_fundamental_div_mod_converse((m + d * e) as int, d as int, q + e, r);
    lemma_mod_multiples_vanish(half as int, q, 2);
    assert(q + e == 2 * half + q);
}

/// A mask below `2^p` has bit `p` clear; adding `2^p` sets it.
pub proof fn lemma_top_bit(j: nat, p: nat)
    requires
        j < two_pow(p),
    ensures
        !bit_set(j, p),
        bit_set(two_pow(p) + j, p),
{
    let h = two_pow(p);
    lemma_two_pow_monotone(0, p);
    lemma_fundamental_div_mod_converse(j as int, h as int, 0, j as int);
    lemma_fundamental_div_mod_converse((h + j) as int, h as int, 1, j as int);
}

/// The mask zero selects nothing.
pub proof fn lemma_subset_zero(qubits: Seq<Qubit>)
    ensures
        subset_of(qubits, 0).len() == 0,
    decreases qubits.len(),
{
    if qubits.len() > 0 {
        let p = (qubits.len() - 1) as nat;
        lemma_two_pow_monotone(0, p);
        lemma_top_bit(0, p);
        lemma_subset_zero(qubits.drop_last());
    }
}

/// Adding `2^k` to a mask selects the same subset of at most `k` qubits.
pub proof fn lemma_subset_shift(qubits: Seq<Qubit>, m: nat, k: nat)
    requires
        qubits.len() <= k,
    ensures
        subset_of(qubits, m + two_pow(k)) == subset_of(qubits, m),
    decreases qubits.len(),
{
    if qubits.len() > 0 {
        lemma_subset_shift(qubits.drop_last(), m, k);
        lemma_bit_shift(m, (qubits.len() - 1) as nat, k);
    }
}

/// Below `2^p`, the masks select the same subsets of `p + 1` qubits as of
/// the first `p`.
proof fn lemma_sum_low(qubits: Seq<Qubit>, j: nat)
    requires
        qubits.len() >= 1,
        j <= two_pow((qubits.len() - 1) as nat),
    ensures
        subset_size_sum(qubits, j) == subset_size_sum(qubits.drop_last(), j),
    decreases j,
{
    if j > 0 {
        let p = (qubits.len() - 1) as nat;
        lemma_sum_low(qubits, (j - 1) as nat);
        lemma_top_bit((j - 1) as nat, p);
    }
}

/// From `2^p` on, each mask selects one more qubit, the last one.
proof fn lemma_sum_high(qubits: Seq<Qubit>, j: nat)
    requires
        qubits.len() >= 1,
        j <= two_pow((qubits.len() - 1) as nat),
    ensures
        subset_size_sum(qubits, two_pow((qubits.len() - 1) as nat) + j)
            == subset_size_sum(qubits, two_pow((qubits.len() - 1) as nat)) + subset_size_sum(qubits.drop_last(), j) + j,
    decreases j,
{
    if j > 0 {
        let p = (qubits.len() - 1) as nat;
        let h = two_pow(p);
        lemma_sum_high(qubits, (j - 1) as nat);
        lemma_top_bit((j - 1) as nat, p);
        lemma_subset_shift(qubits.drop_last(), (j - 1) as nat, p);
        assert((h + j - 1) as nat == (j - 1) as nat + two_pow(p));
        assert(subset_of(qubits, (h + j - 1) as nat).len() == subset_of(qubits.drop_last(), (j - 1) as nat).len() + 1);
    }
}

/// The subsets of `q` qubits have `q * 2^(q - 1)` elements in all.
proof fn lemma_subset_total(qubits: Seq<Qubit>)
    ensures
        2 * subset_size_sum(qubits, two_pow(qubits.len())) == qubits.len() * two_pow(qubits.len()),
    decreases qubits.len(),
{
    if qubits.len() == 0 {
        lemma_subset_zero(qubits);
        assert(subset_size_sum(qubits, 0) == 0);
        assert(subset_size_sum(qubits, 1) == subset_of(qubits, 0).len());
    } else {
        let p = (qubits.len() - 1) as nat;
        let h = two_pow(p);
        let rest = qubits.drop_last();
        lemma_subset_total(rest);
        lemma_sum_low(qubits, h);
        lemma_sum_high(qubits, h);
        assert(two_pow(qubits.len()) == h + h);
        let low = subset_size_sum(rest, h);
        assert(2 * low == p * h);
        assert(2 * (low + low + h) == (p + 1) * (h + h)) by (nonlinear_arith)
            requires
                2 * low == p * h;
    }
}

/// A parity rotation over a nonempty subset has `2|S| - 1` operations.
proof fn lemma_parity_rotation_length(gate: StandardGate, subset: Seq<Qubit>, angle: Angle)
    requires
        subset.len() >= 1,
    ensures
        parity_rotation(gate, subset, angle).len() == 2 * subset.len() - 1,
{
}

/// The phase polynomial over the masks `1..masks` has `2 * sum - masks + 1`
/// operations.
proof fn lemma_terms_length(qubits: Seq<Qubit>, masks: nat)
    requires
        1 <= masks <= two_pow(qubits.len()),
    ensures
        polynomial_terms(qubits, masks).len() + masks == 2 * subset_size_sum(qubits, masks) + 1,
    decreases masks,
{
    if masks == 1 {
        lemma_subset_zero(qubits);
        assert(subset_size_sum(qubits, 0) == 0);
        assert(subset_size_sum(qubits, 1) == subset_of(qubits, 0).len());
    } else {
        let mask = (masks - 1) as nat;
        lemma_terms_length(qubits, mask);
        lemma_subset_nonempty(qubits, mask);
        let subset = subset_of(qubits, mask);
        lemma_parity_rotation_length(StandardGate::RZ, subset, polynomial_angle(qubits.len(), subset));
    }
}

/// The phase terms of a controlled phase have as many operations as the
/// phase polynomial over the same masks.
pub proof fn lemma_phase_terms_length(qubits: Seq<Qubit>, masks: nat, pos: Angle, neg: Angle)
    requires
        1 <= masks <= two_pow(qubits.len()),
    ensures
        phase_terms(qubits, masks, pos, neg).len() == polynomial_terms(qubits, masks).len(),
    decreases masks,
{
    if masks > 1 {
        let mask = (masks - 1) as nat;
        lemma_phase_terms_length(qubits, mask, pos, neg);
        lemma_subset_nonempty(qubits, mask);
        let subset = subset_of(qubits, mask);
        lemma_parity_rotation_length(StandardGate::RZ, subset, polynomial_angle(qubits.len(), subset));
        lemma_parity_rotation_length(StandardGate::Phase, subset, if subset.len() % 2 == 0 { neg } else { pos });
    }
}

/// The full phase polynomial over `q` qubits has `(q - 1) * 2^q + 1` operations.
pub proof fn lemma_polynomial_length(qubits: Seq<Qubit>)
    requires
        qubits.len() >= 1,
    ensures
        polynomial_terms(qubits, two_pow(qubits.len())).len() + two_pow(qubits.len())
            == qubits.len() * two_pow(qubits.len()) + 1,
{
    lemma_two_pow_monotone(0, qubits.len());
    lemma_terms_length(qubits, two_pow(qubits.len()));
    lemma_subset_total(qubits);
}

/// Law: the ancilla-free MCX emits exactly as many operations as its cost
/// estimate counts.
pub proof fn lemma_no_ancilla_mcx_length(controls: Seq<Qubit>, target: Qubit)
    ensures
        no_ancilla_mcx(controls, target).len() == no_ancilla_count(controls.len()),
{
    let n = controls.len();
    if n > 2 {
        let qubits = controls.push(target);
        let q = qubits.len();
        lemma_polynomial_length(qubits);
        let p = two_pow(q);
        let terms = polynomial_terms(qubits, p).len();
        assert(terms + p == q * p + 1);
        assert(q == n + 1);
        assert(q * p == n * p + p) by (nonlinear_arith)
            requires
                q == n + 1;
        assert(no_ancilla_mcx(controls, target).len() == terms + 2);
    }
}

} // verus!
