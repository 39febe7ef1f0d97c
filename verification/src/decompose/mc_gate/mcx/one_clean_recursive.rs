//! MCX synthesis using one clean work qubit (Barenco et al.).
//!
//! The controls are split into two groups. Four dirty V-chains are emitted:
//! a relative-phase MCX of the first group into the clean work qubit, an
//! exact MCX of the second group (plus the work qubit) into the target, the
//! inverse of the first segment, and the second segment again. Each sub-MCX
//! borrows controls of the other group as its dirty work qubits.
use crate::circuit::{append_all, extend_with_copies, ops_view, OpView, Operation, Qubit, ValueOperation};
use crate::decompose::mc_gate::mcx::dirty_v_chain::{
    decompose_mcx_n_dirty, decompose_relative_phase_mcx_n_dirty, lemma_dirty_v_chain_invertible, n_dirty_result,
    DirtyVChainMode,
};
use crate::decompose::mc_gate::mcx::trivial::{decompose_mcx_small, lemma_inverse_all, result_matches, small_mcx_result};
use crate::decompose::mcx::trivial_mcx;
use crate::decompose::mc_gate::mcx::utils::{inverse_result, invert_parameter_free_operations};
use crate::error::{CompilerError, McxFailure};
use crate::semantics::{
    concat_qubits, copy_range, find_duplicate, first_duplicate, lemma_first_duplicate_none, lemma_no_duplicates_by_index,
};
use vstd::prelude::*;

verus! {

/// Size of the first control group.
pub open spec fn b95_middle(n: nat) -> nat {
    ((n + 2) / 2) as nat
}

/// Controls of the relative-phase MCX into the work qubit.
pub open spec fn b95_first_controls(controls: Seq<Qubit>) -> Seq<Qubit> {
    controls.subrange(0, b95_middle(controls.len()) as int)
}

/// Borrowed work qubits of the first segment, taken from the second group.
pub open spec fn b95_first_dirty(controls: Seq<Qubit>) -> Seq<Qubit> {
    let middle = b95_middle(controls.len());
    controls.subrange(middle as int, 2 * middle - 2)
}

/// Controls of the exact MCX into the target: the second group and the work qubit.
pub open spec fn b95_second_controls(controls: Seq<Qubit>, clean: Qubit) -> Seq<Qubit> {
    controls.subrange(b95_middle(controls.len()) as int, controls.len() as int) + seq![clean]
}

/// Borrowed work qubits of the second segment, taken from the first group.
pub open spec fn b95_second_dirty(controls: Seq<Qubit>) -> Seq<Qubit> {
    controls.subrange(0, controls.len() - b95_middle(controls.len()) - 1)
}

/// Composition `first + second + inverse(first) + second`, failing with the
/// first error met in that order of construction.
pub open spec fn b95_compose(first: Result<Seq<OpView>, McxFailure>, second: Result<Seq<OpView>, McxFailure>) -> Result<Seq<OpView>, McxFailure> {
    match first {
        Err(e) => Err(e),
        Ok(f) => match second {
            Err(e) => Err(e),
            Ok(s) => match inverse_result(f) {
                Err(e) => Err(e),
                Ok(inverse) => Ok(f + s + inverse + s),
            },
        },
    }
}

/// Result of the one-clean-qubit MCX decomposition.
pub open spec fn b95_result(controls: Seq<Qubit>, target: Qubit, clean: Qubit) -> Result<Seq<OpView>, McxFailure> {
    if controls.len() <= 2 {
        small_mcx_result(controls, target)
    } else {
        let qubits = controls + seq![target] + seq![clean];
        if first_duplicate(qubits) is Some {
            Err(McxFailure::DuplicateQubit(first_duplicate(qubits)->0))
        } else {
            b95_compose(
                n_dirty_result(DirtyVChainMode::RelativePhase, b95_first_controls(controls), clean, b95_first_dirty(controls)),
                n_dirty_result(DirtyVChainMode::Exact, b95_second_controls(controls, clean), target, b95_second_dirty(controls)),
            )
        }
    }
}

/// Decomposes an exact MCX using one clean work qubit.
///
/// For at least three controls, `clean_ancilla` must enter in `|0>` and is
/// restored to `|0>`. At most two controls delegate to the trivial
/// decomposition and neither consume nor validate `clean_ancilla`.
pub fn decompose_mcx_1_clean_b95(controls: &[Qubit], target: Qubit, clean_ancilla: Qubit) -> (r: Result<Vec<ValueOperation>, CompilerError>)
    ensures
        result_matches(r, b95_result(controls@, target, clean_ancilla)),
{
    let n = controls.len();
    if n <= 2 {
        return decompose_mcx_small(controls, target);
    }
    let target_group = [target];
    let clean_group = [clean_ancilla];
    let all = concat_qubits(controls, &target_group, &clean_group);
    proof {
        assert(target_group@ =~= seq![target]);
        assert(clean_group@ =~= seq![clean_ancilla]);
    }
    if let Some(q) = find_duplicate(all.as_slice()) {
        return Err(CompilerError::McxFailed(McxFailure::DuplicateQubit(q)));
    }
    let middle = (n + 2) / 2;
    let first_controls = copy_range(controls, 0, middle);
    let first_dirty = copy_range(controls, middle, middle + middle - 2);
    let mut second_controls = copy_range(controls, middle, n);
    second_controls.push(clean_ancilla);
    let second_dirty = copy_range(controls, 0, second_controls.len() - 2);
    proof {
        assert(first_controls@ == b95_first_controls(controls@));
        assert(first_dirty@ == b95_first_dirty(controls@));
        assert(second_controls@ =~= b95_second_controls(controls@, clean_ancilla));
        assert(second_dirty@ == b95_second_dirty(controls@));
    }
    let first = match decompose_relative_phase_mcx_n_dirty(first_controls.as_slice(), clean_ancilla, first_dirty.as_slice()) {
        Ok(ops) => ops,
        Err(e) => return Err(e),
    };
    let second = match decompose_mcx_n_dirty(second_controls.as_slice(), target, second_dirty.as_slice()) {
        Ok(ops) => ops,
        Err(e) => return Err(e),
    };
    let inverse_first = match invert_parameter_free_operations(&first) {
        Ok(ops) => ops,
        Err(e) => return Err(e),
    };
    let ghost f = ops_view(first@);
    let ghost s = ops_view(second@);
    let ghost inv = ops_view(inverse_first@);
    let mut operations: Vec<Operation> = Vec::new();
    append_all(&mut operations, first);
    let second_len = second.len();
    extend_with_copies(&mut operations, &second, 0, second_len);
    append_all(&mut operations, inverse_first);
    append_all(&mut operations, second);
    proof {
        assert(second@.subrange(0, second_len as int) =~= second@);
        assert(ops_view(operations@) =~= f + s + inv + s);
    }
    Ok(operations)
}

/// The first segment succeeds and can be inverted when its inputs are distinct.
proof fn lemma_b95_first_ok(controls: Seq<Qubit>, target: Qubit, clean: Qubit)
    requires
        controls.len() >= 3,
        (controls + seq![target] + seq![clean]).no_duplicates(),
    ensures
        ({
            let first = n_dirty_result(DirtyVChainMode::RelativePhase, b95_first_controls(controls), clean, b95_first_dirty(controls));
            first matches Ok(f) && inverse_result(f) is Ok
        }),
{
    let n = controls.len() as int;
    let middle = b95_middle(controls.len()) as int;
    let q = controls + seq![target] + seq![clean];
    let fc = b95_first_controls(controls);
    let fd = b95_first_dirty(controls);
    if fc.len() <= 2 {
        let small_first = fc + seq![clean];
        lemma_no_duplicates_by_index(q, small_first, |p: int| if p < middle { p } else { n + 1 });
        lemma_first_duplicate_none(small_first);
        lemma_inverse_all(trivial_mcx(fc, clean));
    } else {
        let first_qubits = fc + seq![clean] + fd;
        assert(fd.subrange(0, fd.len() as int) =~= fd);
        lemma_no_duplicates_by_index(q, first_qubits, |p: int| if p < middle { p } else if p == middle { n + 1 } else { p - 1 });
        lemma_first_duplicate_none(first_qubits);
        lemma_dirty_v_chain_invertible(DirtyVChainMode::RelativePhase, fc, clean, fd);
    }
}

/// The second segment succeeds when its inputs are distinct.
proof fn lemma_b95_second_ok(controls: Seq<Qubit>, target: Qubit, clean: Qubit)
    requires
        controls.len() >= 3,
        (controls + seq![target] + seq![clean]).no_duplicates(),
    ensures
        n_dirty_result(DirtyVChainMode::Exact, b95_second_controls(controls, clean), target, b95_second_dirty(controls)) is Ok,
{
    let n = controls.len() as int;
    let middle = b95_middle(controls.len()) as int;
    let q = controls + seq![target] + seq![clean];
    let sc = b95_second_controls(controls, clean);
    let sd = b95_second_dirty(controls);
    if sc.len() <= 2 {
        let small_second = sc + seq![target];
        lemma_no_duplicates_by_index(q, small_second, |p: int| if p < n - middle { middle + p } else if p == n - middle { n + 1 } else { n });
        lemma_first_duplicate_none(small_second);
    } else {
        let second_qubits = sc + seq![target] + sd;
        assert(sd.subrange(0, sd.len() as int) =~= sd);
        lemma_no_duplicates_by_index(
            q,
            second_qubits,
            |p: int| if p < n - middle { middle + p } else if p == n - middle { n + 1 } else if p == n - middle + 1 { n } else { p - (n - middle + 2) },
        );
        lemma_first_duplicate_none(second_qubits);
    }
}

/// With at least three controls and pairwise distinct controls, target, and
/// work qubit, the construction always succeeds: both sub-chains receive
/// exactly the borrowed qubits they need and the first one can be inverted.
pub proof fn lemma_b95_succeeds(controls: Seq<Qubit>, target: Qubit, clean: Qubit)
    requires
        controls.len() >= 3,
        (controls + seq![target] + seq![clean]).no_duplicates(),
    ensures
        b95_result(controls, target, clean) is Ok,
{
    lemma_first_duplicate_none(controls + seq![target] + seq![clean]);
    lemma_b95_first_ok(controls, target, clean);
    lemma_b95_second_ok(controls, target, clean);
}

} // verus!
