use vstd::prelude::*;

use crate::ops::{copy_result, output_result, truncate_result};
use crate::plan::Operation;

verus! {

/// One primitive of the executor.
#[derive(Clone, Copy, Debug, PartialEq, Eq)]
pub enum Action {
    /// Read this range of the file and write it to the sink.
    Emit((u64, u64)),
    /// Copy the bytes of `src` onto `dst` inside the file.
    Copy { src: (u64, u64), dst: (u64, u64) },
    /// Shrink the file to this length, removing it at zero.
    Truncate(u64),
}

/// A numbered primitive. Each operation takes three numbers, in order: its
/// emit, its copy (the number is used even when there is nothing to copy)
/// and its truncation. `chunk_no` and `is_middle` are those of the
/// operation the step belongs to.
#[derive(Clone, Copy, Debug, PartialEq, Eq)]
pub struct Step {
    pub step_no: u64,
    pub chunk_no: u64,
    pub is_middle: bool,
    pub action: Action,
}

/// Where the copy of an operation lands. The left middle operation copies
/// the right half of the middle, which is one byte shorter than its own
/// slot when the middle has an odd length: such a middle copy lands on the
/// slot without its last byte. Every other copy is aimed at the whole slot,
/// so that the copy primitive refuses a source of another length.
pub open spec fn copy_target(op: Operation) -> (u64, u64) {
    let src = op.src_chunk->Some_0;
    let data = op.data_chunk;
    if op.is_middle && src.0 <= src.1 && data.0 < data.1 && (data.1 - data.0) - (src.1 - src.0)
        == 1 {
        (data.0, (data.1 - 1) as u64)
    } else {
        data
    }
}

/// The steps of operation `op` at position `i`.
pub open spec fn op_steps(op: Operation, i: int) -> Seq<Step> {
    let emit = seq![
        Step {
            step_no: (3 * i) as u64,
            chunk_no: op.chunk_no,
            is_middle: op.is_middle,
            action: Action::Emit(op.data_chunk),
        },
    ];
    let copy = match op.src_chunk {
        Some(src) => seq![
            Step {
                step_no: (3 * i + 1) as u64,
                chunk_no: op.chunk_no,
                is_middle: op.is_middle,
                action: Action::Copy { src, dst: copy_target(op) },
            },
        ],
        None => Seq::empty(),
    };
    let truncate = seq![
        Step {
            step_no: (3 * i + 2) as u64,
            chunk_no: op.chunk_no,
            is_middle: op.is_middle,
            action: Action::Truncate(op.truncate_to),
        },
    ];
    emit + copy + truncate
}

/// The steps of a list of operations, operation after operation.
pub open spec fn plan_steps(ops: Seq<Operation>) -> Seq<Step>
    decreases ops.len(),
{
    if ops.len() == 0 {
        Seq::empty()
    } else {
        plan_steps(ops.drop_last()) + op_steps(ops.last(), ops.len() - 1)
    }
}

/// Turns a list of operations into the numbered primitives that carry it
/// out: for each operation an emit of its data range, a copy of its source
/// (if any) onto that range (see `copy_target`), and a truncation.
pub fn commit_plan(operations: &[Operation]) -> (r: Vec<Step>)
    requires
        3 * operations@.len() <= u64::MAX,
    ensures
        r@ == plan_steps(operations@),
{
    let mut steps: Vec<Step> = Vec::new();
    let mut i: usize = 0;
    while i < operations.len()
        invariant
            3 * operations@.len() <= u64::MAX,
            i <= operations@.len(),
            steps@ == plan_steps(operations@.take(i as int)),
        decreases operations@.len() - i,
    {
        let op = operations[i];
        let step_no: u64 = 3 * (i as u64);
        let ghost before = steps@;
        steps.push(
            Step {
                step_no,
                chunk_no: op.chunk_no,
                is_middle: op.is_middle,
                action: Action::Emit(op.data_chunk),
            },
        );
        if let Some(src) = op.src_chunk {
            let data = op.data_chunk;
            let middle_short = op.is_middle && src.0 <= src.1 && data.0 < data.1 && src.1 - src.0
                < data.1 - data.0 && (data.1 - data.0) - (src.1 - src.0) == 1;
            let dst = if middle_short {
                (data.0, data.1 - 1)
            } else {
                data
            };
            steps.push(
                Step {
                    step_no: step_no + 1,
                    chunk_no: op.chunk_no,
                    is_middle: op.is_middle,
                    action: Action::Copy { src, dst },
                },
            );
        }
        steps.push(
            Step {
                step_no: step_no + 2,
                chunk_no: op.chunk_no,
                is_middle: op.is_middle,
                action: Action::Truncate(op.truncate_to),
            },
        );
        proof {
            let next = operations@.take(i + 1);
            assert(next.drop_last() =~= operations@.take(i as int));
            assert(steps@ =~= before + op_steps(op, i as int));
        }
        i = i + 1;
    }
    assert(operations@.take(i as int) =~= operations@);
    steps
}

} // verus!
