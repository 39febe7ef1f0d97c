//! Shared helpers of the MCX synthesis primitives: gadget ladders and
//! inversion of parameter-free operation sequences.
use crate::circuit::{
    copy_operation, op_view, ops_view, parameter_free_inverse, Instruction, OpView, Operation,
};
use crate::decompose::mcx::{lemma_two_pow_monotone, two_pow};
use crate::error::{CompilerError, McxFailure};
use vstd::prelude::*;

verus! {

/// `f(0) + f(1) + ... + f(k - 1)`.
pub open spec fn ascending(f: spec_fn(int) -> Seq<OpView>, k: nat) -> Seq<OpView>
    decreases k,
{
    if k == 0 {
        seq![]
    } else {
        ascending(f, (k - 1) as nat) + f(k - 1)
    }
}

/// `f(hi - 1) + f(hi - 2) + ... + f(lo)`.
pub open spec fn descending(f: spec_fn(int) -> Seq<OpView>, hi: nat, lo: nat) -> Seq<OpView>
    decreases hi,
{
    if hi <= lo {
        seq![]
    } else {
        f(hi - 1) + descending(f, (hi - 1) as nat, lo)
    }
}

/// Lowering the bottom of a descending ladder appends one more term.
pub proof fn lemma_descending_extend(f: spec_fn(int) -> Seq<OpView>, hi: nat, lo: nat)
    requires
        1 <= lo <= hi,
    ensures
        descending(f, hi, (lo - 1) as nat) == descending(f, hi, lo) + f(lo - 1),
    decreases hi,
{
    if hi == lo {
        assert(descending(f, (hi - 1) as nat, (lo - 1) as nat) =~= Seq::<OpView>::empty());
        assert(descending(f, hi, (lo - 1) as nat) =~= f(lo - 1));
        assert(descending(f, hi, lo) =~= Seq::<OpView>::empty());
        assert(descending(f, hi, lo) + f(lo - 1) =~= f(lo - 1));
    } else {
        lemma_descending_extend(f, (hi - 1) as nat, lo);
        assert(descending(f, hi, (lo - 1) as nat) =~= descending(f, hi, lo) + f(lo - 1));
    }
}

/// Inverse of one parameter-free operation, when it has one.
pub open spec fn inverse_op(op: OpView) -> Option<OpView> {
    match op.instruction {
        Instruction::Standard(gate) => match parameter_free_inverse(gate) {
            Some(inverse) => Some(OpView { instruction: Instruction::Standard(inverse), ..op }),
            None => None,
        },
        _ => None,
    }
}

/// Result of inverting a parameter-free sequence: the inverses in reverse
/// order, or the failure of the last operation that cannot be inverted.
pub open spec fn inverse_result(ops: Seq<OpView>) -> Result<Seq<OpView>, McxFailure>
    decreases ops.len(),
{
    if ops.len() == 0 {
        Ok(seq![])
    } else {
        let op = ops.last();
        if op.params.len() != 0 {
            Err(McxFailure::InversionRequiresParameterFree)
        } else {
            match inverse_op(op) {
                None => Err(McxFailure::InversionUnsupported(op.instruction)),
                Some(inverse) => match inverse_result(ops.drop_last()) {
                    Ok(rest) => Ok(seq![inverse] + rest),
                    Err(e) => Err(e),
                },
            }
        }
    }
}

/// Inverses of `all[i..]`, last operation first.
pub open spec fn inverted_suffix(all: Seq<OpView>, i: int) -> Seq<OpView> {
    Seq::new((all.len() - i) as nat, |k: int| inverse_op(all[all.len() - 1 - k])->0)
}

/// Inverting a sequence whose suffix `all[i..]` is invertible inverts the suffix
/// first and then the prefix.
pub proof fn lemma_inverse_split(all: Seq<OpView>, i: int)
    requires
        0 <= i <= all.len(),
        forall|j: int| i <= j < all.len() ==> inverse_op(#[trigger] all[j]) is Some && all[j].params.len() == 0,
    ensures
        inverse_result(all) == match inverse_result(all.subrange(0, i)) {
            Ok(rest) => Ok(inverted_suffix(all, i) + rest),
            Err(e) => Err::<Seq<OpView>, McxFailure>(e),
        },
    decreases all.len(),
{
    if i == all.len() {
        assert(all.subrange(0, i) =~= all);
        assert(inverted_suffix(all, i) =~= Seq::<OpView>::empty());
        match inverse_result(all) {
            Ok(rest) => {
                assert(inverted_suffix(all, i) + rest =~= rest);
            },
            Err(_) => {},
        }
    } else {
        let prefix = all.drop_last();
        assert forall|j: int| i <= j < prefix.len() implies inverse_op(#[trigger] prefix[j]) is Some && prefix[j].params.len() == 0 by {
            assert(prefix[j] == all[j]);
        }
        lemma_inverse_split(prefix, i);
        assert(prefix.subrange(0, i) =~= all.subrange(0, i));
        assert(all[all.len() - 1] == all.last());
        let head = inverse_op(all.last())->0;
        assert(inverted_suffix(all, i) =~= seq![head] + inverted_suffix(prefix, i));
        match inverse_result(all.subrange(0, i)) {
            Ok(rest) => {
                assert(seq![head] + (inverted_suffix(prefix, i) + rest) =~= inverted_suffix(all, i) + rest);
            },
            Err(_) => {},
        }
    }
}

/// Inverting a concatenation inverts the second part first, then the first part.
pub proof fn lemma_inverse_concat(a: Seq<OpView>, b: Seq<OpView>)
    ensures
        inverse_result(a + b) == match inverse_result(b) {
            Ok(ib) => match inverse_result(a) {
                Ok(ia) => Ok(ib + ia),
                Err(e) => Err::<Seq<OpView>, McxFailure>(e),
            },
            Err(e) => Err(e),
        },
    decreases b.len(),
{
    if b.len() == 0 {
        assert(a + b =~= a);
        match inverse_result(a) {
            Ok(ia) => {
                assert(Seq::<OpView>::empty() + ia =~= ia);
            },
            Err(_) => {},
        }
    } else {
        assert((a + b).drop_last() =~= a + b.drop_last());
        assert((a + b).last() == b.last());
        lemma_inverse_concat(a, b.drop_last());
        match inverse_result(b.drop_last()) {
            Ok(ib) => match inverse_result(a) {
                Ok(ia) => {
                    let op = b.last();
                    if op.params.len() == 0 && inverse_op(op) is Some {
                        let inv = inverse_op(op)->0;
                        assert(seq![inv] + (ib + ia) =~= (seq![inv] + ib) + ia);
                    }
                },
                Err(_) => {},
            },
            Err(_) => {},
        }
    }
}

/// Inversion undoes itself: inverting the inverse of an invertible
/// parameter-free sequence gives back the original sequence.
pub proof fn lemma_inverse_involution(ops: Seq<OpView>)
    requires
        inverse_result(ops) is Ok,
    ensures
        inverse_result(inverse_result(ops)->Ok_0) == Ok::<Seq<OpView>, McxFailure>(ops),
    decreases ops.len(),
{
    if ops.len() > 0 {
        let prefix = ops.drop_last();
        let op = ops.last();
        let inv = inverse_op(op)->0;
        lemma_inverse_involution(prefix);
        let rest = inverse_result(prefix)->Ok_0;
        lemma_inverse_concat(seq![inv], rest);
        assert(seq![inv].drop_last() =~= Seq::<OpView>::empty());
        assert(inverse_op(inv) == Some(op));
        assert(inverse_result(Seq::<OpView>::empty()) == Ok::<Seq<OpView>, McxFailure>(seq![]));
        assert(seq![op] + Seq::<OpView>::empty() =~= seq![op]);
        assert(inverse_result(seq![inv]) == Ok::<Seq<OpView>, McxFailure>(seq![op]));
        assert(prefix + seq![op] =~= ops);
    } else {
        assert(ops =~= Seq::<OpView>::empty());
    }
}

/// A ladder whose steps invert one by one inverts to the descending ladder
/// of the step inverses.
pub proof fn lemma_inverse_ascending(f: spec_fn(int) -> Seq<OpView>, g: spec_fn(int) -> Seq<OpView>, k: nat)
    requires
        forall|i: int| 0 <= i < k ==> inverse_result(#[trigger] f(i)) == Ok::<Seq<OpView>, McxFailure>(g(i)),
    ensures
        inverse_result(ascending(f, k)) == Ok::<Seq<OpView>, McxFailure>(descending(g, k, 0)),
    decreases k,
{
    if k == 0 {
        assert(inverse_result(ascending(f, 0)) == Ok::<Seq<OpView>, McxFailure>(seq![]));
    } else {
        lemma_inverse_ascending(f, g, (k - 1) as nat);
        lemma_inverse_concat(ascending(f, (k - 1) as nat), f(k - 1));
        assert(inverse_result(f(k - 1)) == Ok::<Seq<OpView>, McxFailure>(g(k - 1)));
    }
}

/// A descending ladder whose steps invert one by one inverts to the
/// ascending ladder of the step inverses.
pub proof fn lemma_inverse_descending(f: spec_fn(int) -> Seq<OpView>, g: spec_fn(int) -> Seq<OpView>, k: nat)
    requires
        forall|i: int| 0 <= i < k ==> inverse_result(#[trigger] f(i)) == Ok::<Seq<OpView>, McxFailure>(g(i)),
    ensures
        inverse_result(descending(f, k, 0)) == Ok::<Seq<OpView>, McxFailure>(ascending(g, k)),
    decreases k,
{
    if k == 0 {
        assert(inverse_result(descending(f, 0, 0)) == Ok::<Seq<OpView>, McxFailure>(seq![]));
    } else {
        lemma_inverse_descending(f, g, (k - 1) as nat);
        lemma_inverse_concat(f(k - 1), descending(f, (k - 1) as nat, 0));
        assert(inverse_result(f(k - 1)) == Ok::<Seq<OpView>, McxFailure>(g(k - 1)));
    }
}

/// Inverts a parameter-free operation sequence: reverses it and replaces
/// every gate by its inverse, keeping operands and labels.
pub fn invert_parameter_free_operations(operations: &Vec<Operation>) -> (r: Result<Vec<Operation>, CompilerError>)
    ensures
        match inverse_result(ops_view(operations@)) {
            Ok(expected) => r matches Ok(v) && ops_view(v@) == expected,
            Err(e) => r matches Err(CompilerError::McxFailed(f)) && f == e,
        },
{
    let ghost all = ops_view(operations@);
    let mut inverse_operations: Vec<Operation> = Vec::new();
    let mut i = operations.len();
    while i > 0
        invariant
            i <= operations.len(),
            all == ops_view(operations@),
            all.len() == operations@.len(),
            forall|j: int| i <= j < all.len() ==> inverse_op(#[trigger] all[j]) is Some && all[j].params.len() == 0,
            ops_view(inverse_operations@) == inverted_suffix(all, i as int),
        decreases i,
    {
        let op = &operations[i - 1];
        proof {
            assert(op_view(*op) == all[i - 1]);
            lemma_inverse_split(all, i as int);
            let prefix = all.subrange(0, i as int);
            assert(prefix.last() == all[i - 1]);
        }
        if op.params.len() != 0 {
            return Err(CompilerError::McxFailed(McxFailure::InversionRequiresParameterFree));
        }
        let inverse = match op.instruction {
            Instruction::Standard(gate) => gate.parameter_free_inverse(),
            _ => None,
        };
        match inverse {
            None => {
                return Err(CompilerError::McxFailed(McxFailure::InversionUnsupported(op.instruction)));
            },
            Some(gate) => {
                let copied = copy_operation(op);
                let inverted = Operation {
                    instruction: Instruction::Standard(gate),
                    qubits: copied.qubits,
                    params: copied.params,
                    label: copied.label,
                };
                let ghost before = ops_view(inverse_operations@);
                inverse_operations.push(inverted);
                proof {
                    assert(op_view(inverted) == inverse_op(all[i - 1])->0);
                    assert(ops_view(inverse_operations@) =~= before.push(op_view(inverted)));
                    assert(inverted_suffix(all, i - 1) =~= inverted_suffix(all, i as int).push(inverse_op(all[i - 1])->0));
                }
            },
        }
        i = i - 1;
    }
    proof {
        lemma_inverse_split(all, 0);
        assert(all.subrange(0, 0) =~= Seq::<OpView>::empty());
        assert(inverted_suffix(all, 0) + seq![] =~= inverted_suffix(all, 0));
    }
    Ok(inverse_operations)
}

/// The sum of `2^i` over the even `i` below `w`: the basis state with every
/// even-indexed qubit set.
pub open spec fn alternating_low(w: nat) -> nat
    decreases w,
{
    if w == 0 {
        0
    } else {
        alternating_low((w - 1) as nat) + if (w - 1) % 2 == 0 { two_pow((w - 1) as nat) } else { 0 }
    }
}

/// The alternating state stays below `2^w`.
pub proof fn lemma_alternating_low_bound(w: nat)
    ensures
        alternating_low(w) < two_pow(w),
    decreases w,
{
    if w > 0 {
        lemma_alternating_low_bound((w - 1) as nat);
        assert(two_pow(w) == 2 * two_pow((w - 1) as nat));
    }
}

/// Whether a basis state is one of the probes for `w` qubits: all zeros, the
/// lowest qubit, the highest qubit, all ones, the even-indexed qubits, and
/// the odd-indexed qubits.
pub open spec fn is_probe_state(w: nat, x: int) -> bool {
    x == 0 || x == 1 || x == two_pow((w - 1) as nat) || x == two_pow(w) - 1 || x == alternating_low(w)
        || x == two_pow(w) - 1 - alternating_low(w)
}

/// Whether a sequence is strictly increasing.
pub open spec fn strictly_increasing(s: Seq<usize>) -> bool {
    forall|i: int, j: int| 0 <= i < j < s.len() ==> s[i] < s[j]
}

/// Inserts `x` into a strictly increasing list, unless already present.
fn insert_sorted_unique(s: &mut Vec<usize>, x: usize)
    requires
        strictly_increasing(old(s)@),
    ensures
        strictly_increasing(final(s)@),
        forall|y: usize| final(s)@.contains(y) <==> (old(s)@.contains(y) || y == x),
{
    let mut p: usize = 0;
    while p < s.len() && s[p] < x
        invariant
            p <= s@.len(),
            forall|k: int| 0 <= k < p ==> s@[k] < x,
        decreases s@.len() - p,
    {
        p = p + 1;
    }
    if p < s.len() && s[p] == x {
        return;
    }
    let ghost before = s@;
    proof {
        assert(before == old(s)@);
    }
    s.insert(p, x);
    proof {
        assert(s@ == before.insert(p as int, x));
        assert forall|i: int, j: int| 0 <= i < j < s@.len() implies s@[i] < s@[j] by {
            if j < p {
                assert(s@[i] == before[i] && s@[j] == before[j]);
            } else if j == p {
                assert(s@[i] == before[i]);
            } else if i < p {
                assert(s@[i] == before[i] && s@[j] == before[j - 1]);
                assert(before[p as int] >= x);
                if j - 1 > p {
                    assert(before[p as int] < before[j - 1]);
                }
            } else if i == p {
                assert(s@[j] == before[j - 1]);
                assert(before[p as int] > x);
                if j - 1 > p {
                    assert(before[p as int] < before[j - 1]);
                }
            } else {
                assert(s@[i] == before[i - 1] && s@[j] == before[j - 1]);
            }
        }
        assert forall|y: usize| #[trigger] s@.contains(y) <==> (before.contains(y) || y == x) by {
            if s@.contains(y) {
                let k = choose|k: int| 0 <= k < s@.len() && s@[k] == y;
                if k < p {
                    assert(before[k] == y);
                } else if k > p {
                    assert(before[k - 1] == y);
                }
            }
            if before.contains(y) {
                let k = choose|k: int| 0 <= k < before.len() && before[k] == y;
                if k < p {
                    assert(s@[k] == y);
                } else {
                    assert(s@[k + 1] == y);
                }
            }
            if y == x {
                assert(s@[p as int] == x);
            }
        }
    }
}

/// The probe basis states for `total_width` qubits, strictly increasing and without repeats.
pub fn selected_basis_states(total_width: usize) -> (r: Vec<usize>)
    requires
        1 <= total_width,
        two_pow(total_width as nat) <= usize::MAX,
    ensures
        strictly_increasing(r@),
        forall|x: usize| r@.contains(x) <==> is_probe_state(total_width as nat, x as int),
{
    let mut power: usize = 1;
    let mut alternating: usize = 0;
    let mut i: usize = 0;
    let mut high: usize = 1;
    while i < total_width
        invariant
            i <= total_width,
            two_pow(total_width as nat) <= usize::MAX,
            power == two_pow(i as nat),
            alternating == alternating_low(i as nat),
            i >= 1 ==> high == two_pow((i - 1) as nat),
        decreases total_width - i,
    {
        proof {
            lemma_two_pow_monotone((i + 1) as nat, total_width as nat);
            lemma_alternating_low_bound(i as nat);
        }
        if i % 2 == 0 {
            alternating = alternating + power;
        }
        high = power;
        power = power * 2;
        i = i + 1;
    }
    proof {
        lemma_alternating_low_bound(total_width as nat);
    }
    let mask = power - 1;
    let complement = mask - alternating;
    let mut states: Vec<usize> = Vec::new();
    insert_sorted_unique(&mut states, 0);
    insert_sorted_unique(&mut states, 1);
    insert_sorted_unique(&mut states, high);
    insert_sorted_unique(&mut states, mask);
    insert_sorted_unique(&mut states, alternating);
    insert_sorted_unique(&mut states, complement);
    states
}

} // verus!
