//! Shared qubit-list helpers and the classical (basis-state) meaning of
//! `X`, `CX`, and `CCX` sequences.
use crate::circuit::{OpView, Qubit};
use vstd::prelude::*;

verus! {

/// The first element that repeats an earlier element, scanning left to right.
pub open spec fn first_duplicate(s: Seq<Qubit>) -> Option<Qubit>
    decreases s.len(),
{
    if s.len() == 0 {
        None
    } else {
        let prefix = s.drop_last();
        match first_duplicate(prefix) {
            Some(q) => Some(q),
            None => if prefix.contains(s.last()) {
                Some(s.last())
            } else {
                None
            },
        }
    }
}

/// A sequence has no repeated element exactly when it has no first duplicate.
pub proof fn lemma_first_duplicate_none(s: Seq<Qubit>)
    ensures
        first_duplicate(s) is None <==> s.no_duplicates(),
    decreases s.len(),
{
    if s.len() > 0 {
        let prefix = s.drop_last();
        lemma_first_duplicate_none(prefix);
        assert(s == prefix.push(s.last()));
        if first_duplicate(s) is None {
            assert forall|i: int, j: int| 0 <= i < s.len() && 0 <= j < s.len() && i != j implies s[i] != s[j] by {
                if i < s.len() - 1 && j < s.len() - 1 {
                    assert(prefix[i] == s[i] && prefix[j] == s[j]);
                } else if i == s.len() - 1 {
                    if s[i] == s[j] {
                        assert(prefix[j] == s[j]);
                        assert(prefix.contains(s.last()));
                    }
                } else {
                    if s[i] == s[j] {
                        assert(prefix[i] == s[i]);
                        assert(prefix.contains(s.last()));
                    }
                }
            }
        } else {
            if first_duplicate(prefix) is None {
                assert(prefix.contains(s.last()));
                let k = choose|k: int| 0 <= k < prefix.len() && prefix[k] == s.last();
                assert(s[k] == s[s.len() - 1]);
            } else {
                let i0 = choose|i: int, j: int| 0 <= i < prefix.len() && 0 <= j < prefix.len() && i != j && prefix[i] == prefix[j];
                assert(!prefix.no_duplicates());
                let (a, b) = choose|i: int, j: int| 0 <= i < prefix.len() && 0 <= j < prefix.len() && i != j && prefix[i] == prefix[j];
                assert(s[a] == s[b]);
            }
        }
    }
}

/// Returns the first element of `items` that repeats an earlier one.
pub fn find_duplicate(items: &[Qubit]) -> (r: Option<Qubit>)
    ensures
        r == first_duplicate(items@),
{
    let mut i: usize = 0;
    while i < items.len()
        invariant
            i <= items.len(),
            first_duplicate(items@.subrange(0, i as int)) is None,
        decreases items.len() - i,
    {
        let ghost prefix = items@.subrange(0, i as int);
        let mut j: usize = 0;
        let mut found = false;
        while j < i
            invariant
                j <= i < items.len(),
                found <==> exists|k: int| 0 <= k < j && items@[k] == items@[i as int],
            decreases i - j,
        {
            if items[j] == items[i] {
                found = true;
            }
            j = j + 1;
        }
        proof {
            let next = items@.subrange(0, i + 1);
            assert(next.drop_last() =~= prefix);
            assert(next.last() == items@[i as int]);
            if found {
                let k = choose|k: int| 0 <= k < i && items@[k] == items@[i as int];
                assert(prefix[k] == items@[i as int]);
                assert(prefix.contains(next.last()));
            } else {
                assert(!prefix.contains(next.last()));
            }
        }
        if found {
            let q = items[i];
            proof {
                let full = items@;
                lemma_first_duplicate_extends(full, i as int + 1);
            }
            return Some(q);
        }
        i = i + 1;
    }
    proof {
        assert(items@.subrange(0, items@.len() as int) =~= items@);
    }
    None
}

/// Once a prefix has a first duplicate, every longer prefix reports the same one.
pub proof fn lemma_first_duplicate_extends(s: Seq<Qubit>, n: int)
    requires
        0 <= n <= s.len(),
        first_duplicate(s.subrange(0, n)) is Some,
    ensures
        first_duplicate(s) == first_duplicate(s.subrange(0, n)),
    decreases s.len() - n,
{
    if n < s.len() {
        let next = s.subrange(0, n + 1);
        assert(next.drop_last() =~= s.subrange(0, n));
        lemma_first_duplicate_extends(s, n + 1);
    } else {
        assert(s.subrange(0, n) =~= s);
    }
}

/// Concatenation of the qubits in `groups`, in order.
pub fn concat_qubits(first: &[Qubit], second: &[Qubit], third: &[Qubit]) -> (r: Vec<Qubit>)
    ensures
        r@ == first@ + second@ + third@,
{
    let mut r: Vec<Qubit> = Vec::new();
    let mut i: usize = 0;
    while i < first.len()
        invariant
            i <= first.len(),
            r@ == first@.subrange(0, i as int),
        decreases first.len() - i,
    {
        r.push(first[i]);
        i = i + 1;
        proof {
            assert(r@ =~= first@.subrange(0, i as int));
        }
    }
    let mut j: usize = 0;
    while j < second.len()
        invariant
            j <= second.len(),
            r@ == first@ + second@.subrange(0, j as int),
        decreases second.len() - j,
    {
        r.push(second[j]);
        j = j + 1;
        proof {
            assert(r@ =~= first@ + second@.subrange(0, j as int));
        }
    }
    let mut k: usize = 0;
    while k < third.len()
        invariant
            k <= third.len(),
            r@ == first@ + second@ + third@.subrange(0, k as int),
        decreases third.len() - k,
    {
        r.push(third[k]);
        k = k + 1;
        proof {
            assert(r@ =~= first@ + second@ + third@.subrange(0, k as int));
        }
    }
    proof {
        assert(first@.subrange(0, first@.len() as int) =~= first@);
        assert(second@.subrange(0, second@.len() as int) =~= second@);
        assert(third@.subrange(0, third@.len() as int) =~= third@);
    }
    r
}

/// A sequence whose elements are drawn, at pairwise different positions,
/// from a sequence without repeats has no repeats either.
pub proof fn lemma_no_duplicates_by_index(q: Seq<Qubit>, s: Seq<Qubit>, idx: spec_fn(int) -> int)
    requires
        q.no_duplicates(),
        forall|p: int| 0 <= p < s.len() ==> 0 <= #[trigger] idx(p) < q.len() && s[p] == q[idx(p)],
        forall|p: int, r: int| 0 <= p < s.len() && 0 <= r < s.len() && p != r ==> #[trigger] idx(p) != #[trigger] idx(r),
    ensures
        s.no_duplicates(),
{
    assert forall|p: int, r: int| 0 <= p < s.len() && 0 <= r < s.len() && p != r implies s[p] != s[r] by {
        assert(idx(p) != idx(r));
        assert(s[p] == q[idx(p)] && s[r] == q[idx(r)]);
    }
}

/// Copies `items[from..to]`.
pub fn copy_range(items: &[Qubit], from: usize, to: usize) -> (r: Vec<Qubit>)
    requires
        from <= to <= items.len(),
    ensures
        r@ == items@.subrange(from as int, to as int),
{
    let mut r: Vec<Qubit> = Vec::new();
    let mut i: usize = from;
    while i < to
        invariant
            from <= i <= to <= items.len(),
            r@ == items@.subrange(from as int, i as int),
        decreases to - i,
    {
        r.push(items[i]);
        i = i + 1;
        proof {
            assert(r@ =~= items@.subrange(from as int, i as int));
        }
    }
    r
}

/// Every qubit of `s` is set in `state`.
pub open spec fn all_set(state: spec_fn(Qubit) -> bool, s: Seq<Qubit>) -> bool {
    forall|i: int| 0 <= i < s.len() ==> state(s[i])
}

/// The basis state after flipping `target` exactly when all `controls` are set.
pub open spec fn mcx_state(state: spec_fn(Qubit) -> bool, controls: Seq<Qubit>, target: Qubit) -> spec_fn(Qubit) -> bool {
    |q: Qubit| if q == target && all_set(state, controls) { !state(q) } else { state(q) }
}

/// Basis-state action of one `X`/`CX`/`CCX` operation: the last operand is the target.
pub open spec fn apply_classical_op(op: OpView, state: spec_fn(Qubit) -> bool) -> spec_fn(Qubit) -> bool {
    mcx_state(state, op.qubits.drop_last(), op.qubits.last())
}

/// Basis-state action of a sequence of `X`/`CX`/`CCX` operations, first to last.
pub open spec fn apply_classical(ops: Seq<OpView>, state: spec_fn(Qubit) -> bool) -> spec_fn(Qubit) -> bool
    decreases ops.len(),
{
    if ops.len() == 0 {
        state
    } else {
        apply_classical_op(ops.last(), apply_classical(ops.drop_last(), state))
    }
}

/// Applying a concatenation applies the parts in order.
pub proof fn lemma_apply_concat(a: Seq<OpView>, b: Seq<OpView>, state: spec_fn(Qubit) -> bool)
    ensures
        apply_classical(a + b, state) == apply_classical(b, apply_classical(a, state)),
    decreases b.len(),
{
    if b.len() == 0 {
        assert(a + b =~= a);
    } else {
        assert((a + b).drop_last() =~= a + b.drop_last());
        assert((a + b).last() == b.last());
        lemma_apply_concat(a, b.drop_last(), state);
    }
}

} // verus!
