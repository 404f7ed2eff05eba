use vstd::prelude::*;

use crate::commit::{copy_target, op_steps, plan_steps, Action, Step};
use crate::ops::{copy_result, output_result, truncate_result};
use crate::plan::{
    lemma_op_bounds, lemma_plan_zones, middle_count, op_at, op_count, ops_of, ChunkPlan, Operation,
};

verus! {

/// The bytes of the file and the bytes written to the sink so far, or
/// `None` once a primitive has refused its step.
pub type Disk = Option<(Seq<u8>, Seq<u8>)>;

/// What one primitive does to the file and the sink. Each primitive first
/// runs its own checks against the current file length and refuses the step
/// when they fail.
pub open spec fn apply_action(d: Disk, a: Action) -> Disk {
    match d {
        None => None,
        Some((file, sink)) => {
            let len = file.len() as u64;
            match a {
                Action::Emit(r) => if output_result(len, r) is Ok {
                    Some((file, sink + file.subrange(r.0 as int, r.1 as int)))
                } else {
                    None
                },
                Action::Copy { src, dst } => if copy_result(len, src, dst) is Ok {
                    Some(
                        (
                            file.subrange(0, dst.0 as int) + file.subrange(
                                src.0 as int,
                                src.1 as int,
                            ) + file.subrange(dst.1 as int, file.len() as int),
                            sink,
                        ),
                    )
                } else {
                    None
                },
                Action::Truncate(t) => if truncate_result(len, t) is Ok {
                    Some((file.subrange(0, t as int), sink))
                } else {
                    None
                },
            }
        },
    }
}

/// Runs a list of steps, in order.
pub open spec fn run_steps(d: Disk, steps: Seq<Step>) -> Disk
    decreases steps.len(),
{
    if steps.len() == 0 {
        d
    } else {
        apply_action(run_steps(d, steps.drop_last()), steps.last().action)
    }
}

proof fn lemma_run_append(d: Disk, a: Seq<Step>, b: Seq<Step>)
    ensures
        run_steps(d, a + b) == run_steps(run_steps(d, a), b),
    decreases b.len(),
{
    if b.len() == 0 {
        assert(a + b =~= a);
    } else {
        assert((a + b).drop_last() =~= a + b.drop_last());
        lemma_run_append(d, a, b.drop_last());
    }
}

proof fn lemma_run_single(d: Disk, s: Step)
    ensures
        run_steps(d, seq![s]) == apply_action(d, s.action),
{
    let e = seq![s].drop_last();
    assert(e.len() == 0);
    assert(run_steps(d, e) == d);
}

/// What the steps of one operation do: emit, copy if there is a source,
/// then truncate.
proof fn lemma_run_op(d: Disk, op: Operation, i: int)
    ensures
        run_steps(d, op_steps(op, i)) == ({
            let emitted = apply_action(d, Action::Emit(op.data_chunk));
            let copied = match op.src_chunk {
                Some(src) => apply_action(emitted, Action::Copy { src, dst: copy_target(op) }),
                None => emitted,
            };
            apply_action(copied, Action::Truncate(op.truncate_to))
        }),
{
    let steps = op_steps(op, i);
    let emit = seq![
        Step {
            step_no: (3 * i) as u64,
            chunk_no: op.chunk_no,
            is_middle: op.is_middle,
            action: Action::Emit(op.data_chunk),
        },
    ];
    let truncate = seq![
        Step {
            step_no: (3 * i + 2) as u64,
            chunk_no: op.chunk_no,
            is_middle: op.is_middle,
            action: Action::Truncate(op.truncate_to),
        },
    ];
    lemma_run_single(d, emit[0]);
    match op.src_chunk {
        Some(src) => {
            let copy = seq![
                Step {
                    step_no: (3 * i + 1) as u64,
                    chunk_no: op.chunk_no,
                    is_middle: op.is_middle,
                    action: Action::Copy { src, dst: copy_target(op) },
                },
            ];
            assert(steps == emit + copy + truncate);
            lemma_run_append(d, emit + copy, truncate);
            lemma_run_append(d, emit, copy);
            lemma_run_single(run_steps(d, emit), copy[0]);
            lemma_run_single(run_steps(d, emit + copy), truncate[0]);
        },
        None => {
            assert(steps =~= emit + truncate);
            lemma_run_append(d, emit, truncate);
            lemma_run_single(run_steps(d, emit), truncate[0]);
        },
    }
}

/// The first `j * c` bytes of the file after `j` head operations: the last
/// chunk of `f` in slot zero, the one before it in slot one, and
/// so on.
pub open spec fn swapped_prefix(f: Seq<u8>, c: int, j: int) -> Seq<u8>
    decreases j,
{
    if j <= 0 {
        Seq::empty()
    } else {
        swapped_prefix(f, c, j - 1) + f.subrange(f.len() - j * c, f.len() - (j - 1) * c)
    }
}

proof fn lemma_swapped_prefix_len(f: Seq<u8>, c: int, j: int)
    requires
        c >= 0,
        j >= 0,
        j * c <= f.len(),
    ensures
        swapped_prefix(f, c, j).len() == j * c,
    decreases j,
{
    if j > 0 {
        assert((j - 1) * c + c == j * c && 0 <= (j - 1) * c <= j * c) by (nonlinear_arith)
            requires
                c >= 0,
                j >= 1,
        ;
        lemma_swapped_prefix_len(f, c, j - 1);
        let piece = f.subrange(f.len() - j * c, f.len() - (j - 1) * c);
        assert(piece.len() == c);
        assert(swapped_prefix(f, c, j) == swapped_prefix(f, c, j - 1) + piece);
    } else {
        assert(j * c == 0) by (nonlinear_arith)
            requires
                j == 0,
        ;
    }
}

/// The file and the sink after the first `k` operations of the realization
/// of `p` have run on a file that held `f`.
pub open spec fn expected_disk(p: ChunkPlan, f: Seq<u8>, k: int) -> Disk {
    let c = p.chunk_size as int;
    let n = p.file_size as int;
    let s = p.start_chunks as int;
    let m = p.middle_start();
    let left = p.middle_left_size as int;
    let right = p.middle_right_size as int;
    if k <= s {
        Some((swapped_prefix(f, c, k) + f.subrange(k * c, n - k * c), f.subrange(0, k * c)))
    } else if k == s + 1 && left > 0 && right > 0 {
        Some((swapped_prefix(f, c, s) + f.subrange(m + left, n - m), f.subrange(0, m + left)))
    } else {
        let r = 2 * s + middle_count(p) - k;
        Some((swapped_prefix(f, c, r), f.subrange(0, n - r * c)))
    }
}

proof fn lemma_step_head(p: ChunkPlan, f: Seq<u8>, k: int)
    requires
        p.wf(),
        f.len() == p.file_size,
        0 <= k < op_count(p),
        k < p.start_chunks,
    ensures
        run_steps(expected_disk(p, f, k), op_steps(op_at(p, k), k)) == expected_disk(p, f, k + 1),
{
    let c = p.chunk_size as int;
    let n = p.file_size as int;
    let op = op_at(p, k);
    lemma_plan_zones(p);
    lemma_op_bounds(p, k);
    lemma_run_op(expected_disk(p, f, k), op, k);
    let d0 = expected_disk(p, f, k);
    let d1 = apply_action(d0, Action::Emit(op.data_chunk));
    lemma_swapped_prefix_len(f, c, k);
    lemma_swapped_prefix_len(f, c, k + 1);
    let pre = swapped_prefix(f, c, k);
    let file = pre + f.subrange(k * c, n - k * c);
    assert(file.subrange(k * c, k * c + c) =~= f.subrange(k * c, k * c + c));
    assert(f.subrange(0, k * c) + f.subrange(k * c, k * c + c) =~= f.subrange(
        0,
        (k + 1) * c,
    ));
    assert(d1 == Some((file, f.subrange(0, (k + 1) * c))));
    let src = op.src_chunk->Some_0;
    assert(copy_target(op) == op.data_chunk);
    let copied = file.subrange(0, k * c) + file.subrange(src.0 as int, src.1 as int)
        + file.subrange(k * c + c, file.len() as int);
    let d2 = apply_action(d1, Action::Copy { src, dst: copy_target(op) });
    assert(d2 == Some((copied, f.subrange(0, (k + 1) * c))));
    let pre1 = swapped_prefix(f, c, k + 1);
    assert(pre1 == pre + f.subrange(n - (k + 1) * c, n - k * c));
    assert(copied.subrange(0, op.truncate_to as int) =~= pre1 + f.subrange(
        (k + 1) * c,
        n - (k + 1) * c,
    ));
}

proof fn lemma_step_middle_left(p: ChunkPlan, f: Seq<u8>, k: int)
    requires
        p.wf(),
        f.len() == p.file_size,
        0 <= k < op_count(p),
        k == p.start_chunks && p.middle_left_size > 0,
    ensures
        run_steps(expected_disk(p, f, k), op_steps(op_at(p, k), k)) == expected_disk(p, f, k + 1),
{
    let c = p.chunk_size as int;
    let n = p.file_size as int;
    let s = p.start_chunks as int;
    let m = p.middle_start();
    let left = p.middle_left_size as int;
    let right = p.middle_right_size as int;
    let op = op_at(p, k);
    lemma_plan_zones(p);
    lemma_op_bounds(p, k);
    lemma_run_op(expected_disk(p, f, k), op, k);
    let d0 = expected_disk(p, f, k);
    let d1 = apply_action(d0, Action::Emit(op.data_chunk));
    lemma_swapped_prefix_len(f, c, s);
    let pre = swapped_prefix(f, c, s);
    let file = pre + f.subrange(m, n - m);
    assert(file.subrange(m, m + left) =~= f.subrange(m, m + left));
    assert(f.subrange(0, m) + f.subrange(m, m + left) =~= f.subrange(0, m + left));
    assert(d1 == Some((file, f.subrange(0, m + left))));
    if right > 0 {
        let src = op.src_chunk->Some_0;
        assert(copy_target(op) == (m as u64, (m + right) as u64));
        let copied = file.subrange(0, m) + file.subrange(src.0 as int, src.1 as int)
            + file.subrange(m + right, file.len() as int);
        let d2 = apply_action(d1, Action::Copy { src, dst: copy_target(op) });
        assert(d2 == Some((copied, f.subrange(0, m + left))));
        assert(copied.subrange(0, m + right) =~= pre + f.subrange(m + left, n - m));
    } else {
        assert(file.subrange(0, m) =~= pre);
        assert(expected_disk(p, f, k + 1) == Some((pre, f.subrange(0, n - s * c))));
    }
}

proof fn lemma_step_middle_right(p: ChunkPlan, f: Seq<u8>, k: int)
    requires
        p.wf(),
        f.len() == p.file_size,
        0 <= k < op_count(p),
        k == p.start_chunks + 1 && p.middle_right_size > 0,
    ensures
        run_steps(expected_disk(p, f, k), op_steps(op_at(p, k), k)) == expected_disk(p, f, k + 1),
{
    let c = p.chunk_size as int;
    let n = p.file_size as int;
    let s = p.start_chunks as int;
    let m = p.middle_start();
    let left = p.middle_left_size as int;
    let right = p.middle_right_size as int;
    let op = op_at(p, k);
    lemma_plan_zones(p);
    lemma_op_bounds(p, k);
    lemma_run_op(expected_disk(p, f, k), op, k);
    lemma_swapped_prefix_len(f, c, s);
    let pre = swapped_prefix(f, c, s);
    let file = pre + f.subrange(m + left, n - m);
    assert(file.subrange(m, m + right) =~= f.subrange(m + left, n - m));
    assert(f.subrange(0, m + left) + f.subrange(m + left, n - m) =~= f.subrange(0, n - m));
    assert(file.subrange(0, m) =~= pre);
    assert(expected_disk(p, f, k + 1) == Some((pre, f.subrange(0, n - s * c))));
}

proof fn lemma_step_tail(p: ChunkPlan, f: Seq<u8>, k: int)
    requires
        p.wf(),
        f.len() == p.file_size,
        0 <= k < op_count(p),
        k >= p.start_chunks + middle_count(p),
    ensures
        run_steps(expected_disk(p, f, k), op_steps(op_at(p, k), k)) == expected_disk(p, f, k + 1),
{
    let c = p.chunk_size as int;
    let n = p.file_size as int;
    let s = p.start_chunks as int;
    let op = op_at(p, k);
    lemma_plan_zones(p);
    lemma_op_bounds(p, k);
    lemma_run_op(expected_disk(p, f, k), op, k);
    let r = 2 * s + middle_count(p) - k;
    let t = r - 1;
    assert(t * c + c == r * c);
    lemma_swapped_prefix_len(f, c, t);
    lemma_swapped_prefix_len(f, c, r);
    let pre = swapped_prefix(f, c, t);
    let file = swapped_prefix(f, c, r);
    assert(file == pre + f.subrange(n - r * c, n - t * c));
    assert(file.subrange(t * c, t * c + c) =~= f.subrange(n - r * c, n - t * c));
    assert(f.subrange(0, n - r * c) + f.subrange(n - r * c, n - t * c) =~= f.subrange(
        0,
        n - t * c,
    ));
    assert(file.subrange(0, t * c) =~= pre);
}

proof fn lemma_step(p: ChunkPlan, f: Seq<u8>, k: int)
    requires
        p.wf(),
        f.len() == p.file_size,
        0 <= k < op_count(p),
    ensures
        run_steps(expected_disk(p, f, k), op_steps(op_at(p, k), k)) == expected_disk(p, f, k + 1),
{
    let s = p.start_chunks as int;
    if k < s {
        lemma_step_head(p, f, k);
    } else if k == s && p.middle_left_size > 0 {
        lemma_step_middle_left(p, f, k);
    } else if k == s + 1 && p.middle_right_size > 0 {
        lemma_step_middle_right(p, f, k);
    } else {
        lemma_plan_zones(p);
        lemma_step_tail(p, f, k);
    }
}

proof fn lemma_run_prefix(p: ChunkPlan, f: Seq<u8>, k: int)
    requires
        p.wf(),
        f.len() == p.file_size,
        0 <= k <= op_count(p),
    ensures
        run_steps(Some((f, Seq::empty())), plan_steps(ops_of(p).take(k))) == expected_disk(
            p,
            f,
            k,
        ),
    decreases k,
{
    let ops = ops_of(p);
    if k == 0 {
        assert(ops.take(0).len() == 0);
        assert(0 * (p.chunk_size as int) == 0);
        assert(f.subrange(0, p.file_size as int) =~= f);
        assert(Seq::<u8>::empty() + f =~= f);
        assert(f.subrange(0, 0) =~= Seq::<u8>::empty());
    } else {
        lemma_run_prefix(p, f, k - 1);
        assert(ops.take(k).drop_last() =~= ops.take(k - 1));
        assert(ops.take(k).last() == op_at(p, k - 1));
        lemma_run_append(
            Some((f, Seq::empty())),
            plan_steps(ops.take(k - 1)),
            op_steps(op_at(p, k - 1), k - 1),
        );
        lemma_step(p, f, k - 1);
    }
}

/// Running the steps of a well-formed plan on a file that holds `f` never
/// trips a primitive's checks, writes exactly `f` to the sink, byte for
/// byte and in order, and leaves the file empty.
pub proof fn lemma_plan_reproduces_file(p: ChunkPlan, f: Seq<u8>)
    requires
        p.wf(),
        f.len() == p.file_size,
    ensures
        run_steps(Some((f, Seq::empty())), plan_steps(ops_of(p))) == Some(
            (Seq::<u8>::empty(), f),
        ),
{
    let ops = ops_of(p);
    let count = op_count(p);
    lemma_plan_zones(p);
    lemma_run_prefix(p, f, count);
    assert(ops.take(count) =~= ops);
    assert(0 * (p.chunk_size as int) == 0);
    assert(f.subrange(0, p.file_size as int) =~= f);
}

} // verus!
