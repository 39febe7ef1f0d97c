//! SWAP-family lowering: a controlled SWAP becomes three controlled-CX
//! blocks, each an MCX over the outer controls plus one SWAP endpoint.
//!
//! Every block restores its own work qubits, so the configured pool is
//! reused by all three.
use crate::circuit::{append_all, ops_view, OpView, Operation, Qubit};
use crate::decompose::mc_gate::decompose::{
    lowered, lowering_config, view_error, view_failure, LoweringConfig, McGateDecomposeConfig, McGateOperandView,
    OperandModel,
};
use crate::decompose::mc_gate::pauli::{estimate_mcx_cost, lower_mcx, mcx_cost, mcx_lowering};
use crate::error::{CompilerError, LoweringFamily, McGateDetail, McGateFailure};
use vstd::prelude::*;

verus! {

/// Result of the SWAP-family lowering.
pub open spec fn swap_family(m: OperandModel, c: LoweringConfig) -> Result<Seq<OpView>, McGateFailure> {
    if m.targets.len() != 2 {
        view_failure(m, c, McGateDetail::WrongTargetCount {
            family: LoweringFamily::Swap,
            base: m.base,
            expected: 2,
            got: m.targets.len() as usize,
        })
    } else {
        let first = m.targets[0];
        let second = m.targets[1];
        match mcx_cost(m, c, LoweringFamily::Swap, m.controls.len() + 1) {
            Err(f) => Err(f),
            Ok(segment) => if 3 * segment > usize::MAX {
                view_failure(m, c, McGateDetail::ExpansionOverflow(LoweringFamily::Swap))
            } else if 3 * segment > c.max_ops {
                view_failure(m, c, McGateDetail::ExceedsBudget { family: LoweringFamily::Swap, count: (3 * segment) as usize, max: c.max_ops })
            } else {
                match mcx_lowering(m, c, LoweringFamily::Swap, m.controls.push(first), second) {
                    Err(f) => Err(f),
                    Ok(x) => match mcx_lowering(m, c, LoweringFamily::Swap, m.controls.push(second), first) {
                        Err(f) => Err(f),
                        Ok(y) => match mcx_lowering(m, c, LoweringFamily::Swap, m.controls.push(first), second) {
                            Err(f) => Err(f),
                            Ok(z) => Ok(x + y + z),
                        },
                    },
                }
            },
        }
    }
}

/// One controlled-CX block: the outer controls plus `cx_control` control an X on `cx_target`.
fn lower_controlled_x(view: &McGateOperandView, config: &McGateDecomposeConfig, cx_control: Qubit, cx_target: Qubit) -> (r: Result<Vec<Operation>, CompilerError>)
    requires
        view@.controls.len() <= 257,
    ensures
        lowered(r, mcx_lowering(view@, lowering_config(*config), LoweringFamily::Swap, view@.controls.push(cx_control), cx_target)),
{
    let mut controls = crate::semantics::copy_range(view.all_controls(), 0, view.total_control_count());
    controls.push(cx_control);
    proof {
        assert(controls@ =~= view@.controls.push(cx_control));
    }
    lower_mcx(view, config, LoweringFamily::Swap, controls.as_slice(), cx_target)
}

/// Lowers a controlled SWAP through three controlled-CX blocks.
pub fn decompose_swap_family(view: &McGateOperandView, config: &McGateDecomposeConfig) -> (r: Result<Vec<Operation>, CompilerError>)
    requires
        view@.controls.len() <= 257,
    ensures
        lowered(r, swap_family(view@, lowering_config(*config))),
{
    let targets = view.targets();
    if targets.len() != 2 {
        return Err(view_error(view, config, McGateDetail::WrongTargetCount {
            family: LoweringFamily::Swap,
            base: view.base_gate(),
            expected: 2,
            got: targets.len(),
        }));
    }
    let first = targets[0];
    let second = targets[1];
    let segment = match estimate_mcx_cost(view, config, LoweringFamily::Swap, view.total_control_count() + 1) {
        Ok(count) => count,
        Err(e) => return Err(e),
    };
    let count = match segment.checked_mul(3) {
        Some(count) => count,
        None => return Err(view_error(view, config, McGateDetail::ExpansionOverflow(LoweringFamily::Swap))),
    };
    if count > config.max_expansion_ops {
        return Err(view_error(view, config, McGateDetail::ExceedsBudget {
            family: LoweringFamily::Swap,
            count,
            max: config.max_expansion_ops,
        }));
    }
    let x = match lower_controlled_x(view, config, first, second) {
        Ok(ops) => ops,
        Err(e) => return Err(e),
    };
    let y = match lower_controlled_x(view, config, second, first) {
        Ok(ops) => ops,
        Err(e) => return Err(e),
    };
    let z = match lower_controlled_x(view, config, first, second) {
        Ok(ops) => ops,
        Err(e) => return Err(e),
    };
    let ghost expected = ops_view(x@) + ops_view(y@) + ops_view(z@);
    let mut operations: Vec<Operation> = Vec::new();
    append_all(&mut operations, x);
    append_all(&mut operations, y);
    append_all(&mut operations, z);
    proof {
        assert(ops_view(operations@) =~= expected);
    }
    Ok(operations)
}

} // verus!
