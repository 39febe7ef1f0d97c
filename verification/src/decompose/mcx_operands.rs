//! Operand confinement of the MCX primitives: each construction touches only
//! its controls, its target, and the work qubits it consumes.
use crate::circuit::{OpView, Qubit, StandardGate};
use crate::decompose::mcx::{
    clean_mcx, clean_required, dirty_mcx, lemma_subset_nonempty, no_ancilla_mcx, parity_ladder, parity_rotation,
    polynomial_angle, polynomial_terms, subset_of, trivial_mcx, two_pow, v_chain_compute,
};
use vstd::prelude::*;

verus! {

/// Whether every operand of every operation is one of `allowed`.
pub open spec fn confined(ops: Seq<OpView>, allowed: Seq<Qubit>) -> bool {
    forall|i: int, j: int| 0 <= i < ops.len() && 0 <= j < ops[i].qubits.len() ==> allowed.contains(#[trigger] ops[i].qubits[j])
}

/// Concatenating confined sequences keeps them confined.
pub proof fn lemma_confined_concat(a: Seq<OpView>, b: Seq<OpView>, allowed: Seq<Qubit>)
    requires
        confined(a, allowed),
        confined(b, allowed),
    ensures
        confined(a + b, allowed),
{
    assert forall|i: int, j: int| 0 <= i < (a + b).len() && 0 <= j < (a + b)[i].qubits.len() implies allowed.contains(
        #[trigger] (a + b)[i].qubits[j],
    ) by {
        if i < a.len() {
            assert((a + b)[i] == a[i]);
        } else {
            assert((a + b)[i] == b[i - a.len()]);
        }
    }
}

/// Reversing a confined sequence keeps it confined.
pub proof fn lemma_confined_reverse(a: Seq<OpView>, allowed: Seq<Qubit>)
    requires
        confined(a, allowed),
    ensures
        confined(a.reverse(), allowed),
{
    assert forall|i: int, j: int| 0 <= i < a.reverse().len() && 0 <= j < a.reverse()[i].qubits.len() implies allowed.contains(
        #[trigger] a.reverse()[i].qubits[j],
    ) by {
        assert(a.reverse()[i] == a[a.len() - 1 - i]);
    }
}

/// Confinement is kept when the allowed qubits grow.
pub proof fn lemma_confined_widen(a: Seq<OpView>, small: Seq<Qubit>, large: Seq<Qubit>)
    requires
        confined(a, small),
        forall|q: Qubit| small.contains(q) ==> large.contains(q),
    ensures
        confined(a, large),
{
    assert forall|i: int, j: int| 0 <= i < a.len() && 0 <= j < a[i].qubits.len() implies large.contains(#[trigger] a[i].qubits[j]) by {
        assert(small.contains(a[i].qubits[j]));
    }
}

/// A subset selected by a mask holds only elements of the full sequence.
pub proof fn lemma_subset_contained(qubits: Seq<Qubit>, mask: nat)
    ensures
        forall|q: Qubit| subset_of(qubits, mask).contains(q) ==> qubits.contains(q),
    decreases qubits.len(),
{
    if qubits.len() > 0 {
        let rest = qubits.drop_last();
        lemma_subset_contained(rest, mask);
        let tail = if crate::decompose::mcx::bit_set(mask, (qubits.len() - 1) as nat) {
            seq![qubits.last()]
        } else {
            Seq::<Qubit>::empty()
        };
        assert forall|q: Qubit| subset_of(qubits, mask).contains(q) implies qubits.contains(q) by {
            let s = subset_of(rest, mask);
            assert(subset_of(qubits, mask) == s + tail);
            let k = choose|k: int| 0 <= k < (s + tail).len() && (s + tail)[k] == q;
            if k < s.len() {
                assert(s[k] == q);
                assert(s.contains(q));
                assert(rest.contains(q));
                let t = choose|t: int| 0 <= t < rest.len() && rest[t] == q;
                assert(rest[t] == qubits[t]);
                assert(qubits[t] == q);
            } else {
                assert(tail[k - s.len()] == q);
                assert(qubits[qubits.len() - 1] == q);
            }
        }
    }
}

proof fn lemma_trivial_confined(controls: Seq<Qubit>, target: Qubit)
    requires
        controls.len() <= 2,
    ensures
        confined(trivial_mcx(controls, target), controls.push(target)),
{
    let allowed = controls.push(target);
    assert(allowed[controls.len() as int] == target);
    if controls.len() >= 1 {
        assert(allowed[0] == controls[0]);
    }
    if controls.len() == 2 {
        assert(allowed[1] == controls[1]);
    }
}

/// A parity rotation over a nonempty subset of `allowed` stays within `allowed`.
pub proof fn lemma_parity_rotation_confined(gate: StandardGate, subset: Seq<Qubit>, angle: crate::circuit::Angle, allowed: Seq<Qubit>)
    requires
        subset.len() >= 1,
        forall|q: Qubit| subset.contains(q) ==> allowed.contains(q),
    ensures
        confined(parity_rotation(gate, subset, angle), allowed),
{
    assert(subset.contains(subset.last())) by {
        assert(subset[subset.len() - 1] == subset.last());
    }
    let ladder = parity_ladder(subset);
    assert(confined(ladder, allowed)) by {
        assert forall|i: int, j: int| 0 <= i < ladder.len() && 0 <= j < ladder[i].qubits.len() implies allowed.contains(
            #[trigger] ladder[i].qubits[j],
        ) by {
            assert(subset.contains(subset[i]));
        }
    }
    let rotation = seq![
        crate::circuit::with_params(gate, seq![subset.last()], seq![crate::circuit::CircuitParam::Fixed(angle)]),
    ];
    assert(confined(rotation, allowed));
    if subset.len() > 1 {
        lemma_confined_concat(ladder, rotation, allowed);
        lemma_confined_reverse(ladder, allowed);
        lemma_confined_concat(ladder + rotation, ladder.reverse(), allowed);
    }
}

proof fn lemma_polynomial_confined(qubits: Seq<Qubit>, masks: nat)
    requires
        masks <= two_pow(qubits.len()),
    ensures
        confined(polynomial_terms(qubits, masks), qubits),
    decreases masks,
{
    if masks > 1 {
        let mask = (masks - 1) as nat;
        let subset = subset_of(qubits, mask);
        lemma_polynomial_confined(qubits, mask);
        lemma_subset_nonempty(qubits, mask);
        lemma_subset_contained(qubits, mask);
        let angle = polynomial_angle(qubits.len(), subset);
        lemma_parity_rotation_confined(StandardGate::RZ, subset, angle, qubits);
        lemma_confined_concat(polynomial_terms(qubits, mask), parity_rotation(StandardGate::RZ, subset, angle), qubits);
    }
}

/// The ancilla-free MCX touches only its controls and its target.
pub proof fn lemma_no_ancilla_mcx_confined(controls: Seq<Qubit>, target: Qubit)
    ensures
        confined(no_ancilla_mcx(controls, target), controls.push(target)),
{
    let qubits = controls.push(target);
    if controls.len() <= 2 {
        lemma_trivial_confined(controls, target);
    } else {
        let h = seq![crate::circuit::plain(StandardGate::H, seq![target])];
        assert(qubits[controls.len() as int] == target);
        assert(confined(h, qubits));
        lemma_polynomial_confined(qubits, two_pow(qubits.len()));
        lemma_confined_concat(h, polynomial_terms(qubits, two_pow(qubits.len())), qubits);
        lemma_confined_concat(h + polynomial_terms(qubits, two_pow(qubits.len())), h, qubits);
    }
}

/// The recursive dirty-ancilla MCX touches only its controls, its target,
/// and the borrowed qubit.
pub proof fn lemma_dirty_mcx_confined(controls: Seq<Qubit>, target: Qubit, dirty: Qubit)
    ensures
        confined(dirty_mcx(controls, target, dirty), controls + seq![target, dirty]),
    decreases controls.len(),
{
    let allowed = controls + seq![target, dirty];
    if controls.len() <= 2 {
        lemma_trivial_confined(controls, target);
        assert forall|q: Qubit| controls.push(target).contains(q) implies allowed.contains(q) by {
            let k = choose|k: int| 0 <= k < controls.push(target).len() && controls.push(target)[k] == q;
            assert(allowed[k] == q);
        }
        lemma_confined_widen(trivial_mcx(controls, target), controls.push(target), allowed);
    } else {
        let rest = controls.drop_last();
        let inner_allowed = rest + seq![dirty, target];
        lemma_dirty_mcx_confined(rest, dirty, target);
        assert forall|q: Qubit| inner_allowed.contains(q) implies allowed.contains(q) by {
            let k = choose|k: int| 0 <= k < inner_allowed.len() && inner_allowed[k] == q;
            if k < rest.len() {
                assert(allowed[k] == q);
            } else if k == rest.len() {
                assert(allowed[controls.len() as int + 1] == q);
            } else {
                assert(allowed[controls.len() as int] == q);
            }
        }
        let inner = dirty_mcx(rest, dirty, target);
        lemma_confined_widen(inner, inner_allowed, allowed);
        let toggle = seq![crate::circuit::plain(StandardGate::CCX, seq![dirty, controls.last(), target])];
        assert(allowed[controls.len() as int + 1] == dirty);
        assert(allowed[controls.len() - 1] == controls.last());
        assert(allowed[controls.len() as int] == target);
        assert(confined(toggle, allowed));
        lemma_confined_concat(inner, toggle, allowed);
        lemma_confined_concat(inner + toggle, inner, allowed);
        lemma_confined_concat(inner + toggle + inner, toggle, allowed);
    }
}

/// The clean-ancilla MCX touches only its controls, its target, and the
/// clean work qubits it consumes.
pub proof fn lemma_clean_mcx_confined(controls: Seq<Qubit>, target: Qubit, clean: Seq<Qubit>)
    requires
        clean.len() >= clean_required(controls.len()),
    ensures
        ({
            let used = clean.subrange(0, clean_required(controls.len()) as int);
            confined(clean_mcx(controls, target, used), controls + seq![target] + used)
        }),
{
    let used = clean.subrange(0, clean_required(controls.len()) as int);
    let allowed = controls + seq![target] + used;
    if controls.len() <= 2 {
        lemma_trivial_confined(controls, target);
        assert forall|q: Qubit| controls.push(target).contains(q) implies allowed.contains(q) by {
            let k = choose|k: int| 0 <= k < controls.push(target).len() && controls.push(target)[k] == q;
            assert(allowed[k] == q);
        }
        lemma_confined_widen(trivial_mcx(controls, target), controls.push(target), allowed);
    } else {
        let n = controls.len() as int;
        let compute = v_chain_compute(controls, used);
        assert forall|i: int, j: int| 0 <= i < compute.len() && 0 <= j < compute[i].qubits.len() implies allowed.contains(
            #[trigger] compute[i].qubits[j],
        ) by {
            if i == 0 {
                assert(allowed[0] == controls[0]);
                assert(allowed[1] == controls[1]);
                assert(allowed[n + 1] == used[0]);
            } else {
                assert(allowed[n + i] == used[i - 1]);
                assert(allowed[i + 1] == controls[i + 1]);
                assert(allowed[n + 1 + i] == used[i]);
            }
        }
        let flip = seq![
            crate::circuit::plain(StandardGate::CCX, seq![used[used.len() - 1], controls[n - 1], target]),
        ];
        assert(allowed[n + used.len()] == used[used.len() - 1]);
        assert(allowed[n - 1] == controls[n - 1]);
        assert(allowed[n] == target);
        assert(confined(flip, allowed));
        lemma_confined_concat(compute, flip, allowed);
        lemma_confined_reverse(compute, allowed);
        lemma_confined_concat(compute + flip, compute.reverse(), allowed);
    }
}

} // verus!
