use vstd::prelude::*;

use crate::error::ShrinkError;
use crate::ranges::ranges_overlap_spec;

verus! {

/// The split of a file of `file_size` bytes into `start_chunks` head chunks,
/// a middle zone of `middle_left_size + middle_right_size` bytes, and
/// `start_chunks` tail chunks, each chunk `chunk_size` bytes long.
#[derive(Clone, Copy, Debug, PartialEq, Eq)]
pub struct ChunkPlan {
    pub chunk_size: u64,
    pub file_size: u64,
    pub start_chunks: u64,
    pub middle_left_size: u64,
    pub middle_right_size: u64,
}

/// The number of head chunks (and of tail chunks) for chunk size `c` and
/// file size `n`.
pub open spec fn start_chunks_of(c: int, n: int) -> int {
    n / 2 / c
}

/// What is left between the head and the tail zone.
pub open spec fn middle_size_of(c: int, n: int) -> int {
    n - 2 * start_chunks_of(c, n) * c
}

/// The plan that `plan_chunks(c, n)` returns.
pub open spec fn plan_of(c: u64, n: u64) -> ChunkPlan {
    let ms = middle_size_of(c as int, n as int);
    ChunkPlan {
        chunk_size: c,
        file_size: n,
        start_chunks: start_chunks_of(c as int, n as int) as u64,
        middle_left_size: (ms - ms / 2) as u64,
        middle_right_size: (ms / 2) as u64,
    }
}

impl ChunkPlan {
    /// First byte of the middle zone.
    pub open spec fn middle_start(self) -> int {
        self.start_chunks * self.chunk_size
    }

    /// A plan is well formed when it is the plan of its own chunk and file
    /// size, both of them positive.
    pub open spec fn wf(self) -> bool {
        &&& self.chunk_size >= 1
        &&& self.file_size >= 1
        &&& self == plan_of(self.chunk_size, self.file_size)
    }
}

proof fn lemma_plan_arith(c: int, n: int)
    requires
        c >= 1,
        n >= 0,
    ensures
        0 <= start_chunks_of(c, n),
        2 * start_chunks_of(c, n) <= n,
        0 <= start_chunks_of(c, n) * c,
        2 * (start_chunks_of(c, n) * c) == 2 * start_chunks_of(c, n) * c,
        0 <= middle_size_of(c, n) < 2 * c,
{
    let h = n / 2;
    let s = h / c;
    assert(s == start_chunks_of(c, n));
    assert(0 <= h && 2 * h <= n && n <= 2 * h + 1);
    assert(0 <= s && s * c <= h && h < s * c + c) by (nonlinear_arith)
        requires
            c >= 1,
            h >= 0,
            s == h / c,
    ;
    assert(s <= s * c) by (nonlinear_arith)
        requires
            c >= 1,
            s >= 0,
    ;
    assert(2 * (s * c) == 2 * s * c) by (nonlinear_arith);
}

/// The laws of a well-formed plan: the zones cover the file exactly, the
/// left half of the middle is the right half or one byte longer, and the
/// middle is shorter than two chunks.
pub proof fn lemma_plan_zones(p: ChunkPlan)
    requires
        p.wf(),
    ensures
        2 * p.start_chunks * p.chunk_size + p.middle_left_size + p.middle_right_size
            == p.file_size,
        0 <= p.middle_left_size - p.middle_right_size <= 1,
        p.middle_left_size + p.middle_right_size < 2 * p.chunk_size,
        p.middle_start() + p.middle_left_size + p.middle_right_size + p.middle_start()
            == p.file_size,
{
    lemma_plan_arith(p.chunk_size as int, p.file_size as int);
}

/// Splits a file of `file_size` bytes into chunks of `chunk_size` bytes.
/// Fails with `FileSizeZero` exactly when the file is empty, whatever the
/// chunk size.
pub fn plan_chunks(chunk_size: u64, file_size: u64) -> (r: Result<ChunkPlan, ShrinkError>)
    requires
        chunk_size >= 1 || file_size == 0,
    ensures
        r is Ok <==> file_size > 0,
        r is Err ==> r == Err::<ChunkPlan, ShrinkError>(ShrinkError::FileSizeZero),
        r is Ok ==> r->Ok_0 == plan_of(chunk_size, file_size) && r->Ok_0.wf(),
        r is Ok ==> 2 * r->Ok_0.start_chunks * chunk_size + r->Ok_0.middle_left_size
            + r->Ok_0.middle_right_size == file_size,
        r is Ok ==> 0 <= r->Ok_0.middle_left_size - r->Ok_0.middle_right_size <= 1,
        r is Ok ==> r->Ok_0.middle_left_size + r->Ok_0.middle_right_size < 2 * chunk_size,
{
    if file_size == 0 {
        return Err(ShrinkError::FileSizeZero);
    }
    proof {
        lemma_plan_arith(chunk_size as int, file_size as int);
    }
    let start_chunks = file_size / 2 / chunk_size;
    let head = start_chunks * chunk_size;
    let middle_size = file_size - 2 * head;
    let middle_right_size = middle_size / 2;
    let middle_left_size = middle_size - middle_right_size;
    let p = ChunkPlan {
        chunk_size,
        file_size,
        start_chunks,
        middle_left_size,
        middle_right_size,
    };
    proof {
        lemma_plan_zones(p);
    }
    Ok(p)
}

/// The most operations that a realized plan may hold.
pub const OPERATION_LIMIT: u64 = 1000000;

/// One step of a realized plan: emit `data_chunk` to the sink, then, if
/// `src_chunk` is present, copy it to the front of `data_chunk`'s slot, then
/// shrink the file to `truncate_to` bytes. Ranges are half open.
#[derive(Clone, Copy, Debug, PartialEq, Eq)]
pub struct Operation {
    pub chunk_no: u64,
    pub src_chunk: Option<(u64, u64)>,
    pub data_chunk: (u64, u64),
    pub truncate_to: u64,
    pub is_middle: bool,
}

/// How many middle operations a plan holds: one for the left half when it is
/// not empty, one more for the right half when it is not empty.
pub open spec fn middle_count(p: ChunkPlan) -> int {
    if p.middle_right_size > 0 {
        2
    } else if p.middle_left_size > 0 {
        1
    } else {
        0
    }
}

/// How many operations the realization of `p` holds.
pub open spec fn op_count(p: ChunkPlan) -> int {
    2 * p.start_chunks + middle_count(p)
}

/// The operation at position `k` of the realization of `p`. The left middle
/// operation copies the right half of the middle onto its own slot; when
/// the middle has an odd length that source is one byte shorter than the
/// slot, and the executor shrinks that one slot to fit (see
/// `copy_target`).
pub open spec fn op_at(p: ChunkPlan, k: int) -> Operation {
    let c = p.chunk_size as int;
    let n = p.file_size as int;
    let s = p.start_chunks as int;
    let m = p.middle_start();
    let left = p.middle_left_size as int;
    let right = p.middle_right_size as int;
    if k < s {
        Operation {
            chunk_no: k as u64,
            src_chunk: Some(((n - (k + 1) * c) as u64, (n - k * c) as u64)),
            data_chunk: ((k * c) as u64, (k * c + c) as u64),
            truncate_to: (n - (k + 1) * c) as u64,
            is_middle: false,
        }
    } else if k == s && left > 0 {
        Operation {
            chunk_no: k as u64,
            src_chunk: if right > 0 {
                Some(((m + left) as u64, (m + left + right) as u64))
            } else {
                None
            },
            data_chunk: (m as u64, (m + left) as u64),
            truncate_to: (m + right) as u64,
            is_middle: true,
        }
    } else if k == s + 1 && right > 0 {
        Operation {
            chunk_no: k as u64,
            src_chunk: None,
            data_chunk: (m as u64, (m + right) as u64),
            truncate_to: m as u64,
            is_middle: true,
        }
    } else {
        let t = 2 * s + middle_count(p) - 1 - k;
        Operation {
            chunk_no: k as u64,
            src_chunk: None,
            data_chunk: ((t * c) as u64, (t * c + c) as u64),
            truncate_to: (t * c) as u64,
            is_middle: false,
        }
    }
}

/// The realization of `p`: head pass, middle left, middle right, tail pass.
pub open spec fn ops_of(p: ChunkPlan) -> Seq<Operation> {
    Seq::new(op_count(p) as nat, |k: int| op_at(p, k))
}

proof fn lemma_mul_mono(a: int, b: int, c: int)
    requires
        0 <= a <= b,
        c >= 0,
    ensures
        0 <= a * c <= b * c,
{
    assert(0 <= a * c <= b * c) by (nonlinear_arith)
        requires
            0 <= a <= b,
            c >= 0,
    ;
}

proof fn lemma_mul_succ(a: int, c: int)
    ensures
        (a + 1) * c == a * c + c,
{
    assert((a + 1) * c == a * c + c) by (nonlinear_arith);
}

/// Turns a well-formed plan into its ordered list of operations. Fails with
/// `OperationLimitExceeded` exactly when that list would be longer than
/// `OPERATION_LIMIT`.
pub fn plan_into_realization(plan: ChunkPlan) -> (r: Result<Vec<Operation>, ShrinkError>)
    requires
        plan.wf(),
    ensures
        r is Err <==> op_count(plan) > OPERATION_LIMIT,
        r is Err ==> r == Err::<Vec<Operation>, ShrinkError>(ShrinkError::OperationLimitExceeded),
        r is Ok ==> r->Ok_0@ == ops_of(plan),
{
    proof {
        lemma_plan_zones(plan);
    }
    let c = plan.chunk_size;
    let n = plan.file_size;
    let s = plan.start_chunks;
    if s > OPERATION_LIMIT {
        return Err(ShrinkError::OperationLimitExceeded);
    }
    let mut count: u64 = 2 * s;
    if plan.middle_left_size > 0 {
        count = count + 1;
    }
    if plan.middle_right_size > 0 {
        count = count + 1;
    }
    if count > OPERATION_LIMIT {
        return Err(ShrinkError::OperationLimitExceeded);
    }
    let ghost ops_spec = ops_of(plan);
    let mut ops: Vec<Operation> = Vec::new();
    let mut i: u64 = 0;
    while i < s
        invariant
            plan.wf(),
            c == plan.chunk_size,
            n == plan.file_size,
            s == plan.start_chunks,
            2 * s * c <= n,
            c >= 1,
            i <= s,
            ops@.len() == i,
            forall|j: int| 0 <= j < i ==> ops@[j] == op_at(plan, j),
        decreases s - i,
    {
        proof {
            lemma_mul_mono(i as int + 1, s as int, c as int);
            lemma_mul_mono(s as int, 2 * s as int, c as int);
            lemma_mul_succ(i as int, c as int);
            assert(2 * s * c == (2 * s) * c);
        }
        let data_start = i * c;
        let src_start = n - (i + 1) * c;
        ops.push(
            Operation {
                chunk_no: i,
                src_chunk: Some((src_start, src_start + c)),
                data_chunk: (data_start, data_start + c),
                truncate_to: src_start,
                is_middle: false,
            },
        );
        i = i + 1;
    }
    let m = s * c;
    let mut next: u64 = s;
    if plan.middle_left_size > 0 {
        let left_end = m + plan.middle_left_size;
        let src_chunk = if plan.middle_right_size > 0 {
            Some((left_end, left_end + plan.middle_right_size))
        } else {
            None
        };
        ops.push(
            Operation {
                chunk_no: next,
                src_chunk,
                data_chunk: (m, left_end),
                truncate_to: m + plan.middle_right_size,
                is_middle: true,
            },
        );
        next = next + 1;
    }
    if plan.middle_right_size > 0 {
        ops.push(
            Operation {
                chunk_no: next,
                src_chunk: None,
                data_chunk: (m, m + plan.middle_right_size),
                truncate_to: m,
                is_middle: true,
            },
        );
        next = next + 1;
    }
    assert(next == s + middle_count(plan));
    let mut i: u64 = 0;
    while i < s
        invariant
            plan.wf(),
            c == plan.chunk_size,
            s == plan.start_chunks,
            m == s * c,
            m <= n,
            c >= 1,
            i <= s,
            next == s + middle_count(plan) + i,
            count == op_count(plan),
            ops@.len() == next,
            forall|j: int| 0 <= j < next ==> ops@[j] == op_at(plan, j),
        decreases s - i,
    {
        let t = s - i - 1;
        proof {
            lemma_mul_mono(t as int + 1, s as int, c as int);
            lemma_mul_succ(t as int, c as int);
        }
        let start = t * c;
        ops.push(
            Operation {
                chunk_no: next,
                src_chunk: None,
                data_chunk: (start, start + c),
                truncate_to: start,
                is_middle: false,
            },
        );
        next = next + 1;
        i = i + 1;
    }
    assert(ops@ =~= ops_spec);
    Ok(ops)
}


/// The file length just before operation `k` of the realization of `p`
/// runs: the whole file for the first one, else what the one before left.
pub open spec fn length_before(p: ChunkPlan, k: int) -> int {
    if k == 0 {
        p.file_size as int
    } else {
        op_at(p, k - 1).truncate_to as int
    }
}

/// The numbers of operation `k`, with its ranges as integers and without
/// wrap-around: each range lies in `[0, file_size]`.
pub(crate) proof fn lemma_op_bounds(p: ChunkPlan, k: int)
    requires
        p.wf(),
        0 <= k < op_count(p),
    ensures
        ({
            let op = op_at(p, k);
            let c = p.chunk_size as int;
            let n = p.file_size as int;
            let s = p.start_chunks as int;
            let m = p.middle_start();
            let t = 2 * s + middle_count(p) - 1 - k;
            &&& k < s ==> {
                &&& op.data_chunk.0 == k * c
                &&& op.data_chunk.1 == k * c + c
                &&& op.truncate_to == n - (k + 1) * c
                &&& op.src_chunk == Some(((n - (k + 1) * c) as u64, (n - k * c) as u64))
                &&& (k + 1) * c == k * c + c
                &&& 0 <= k * c
                &&& k * c + c <= m
                &&& 2 * ((k + 1) * c) <= 2 * m
            }
            &&& s + middle_count(p) <= k ==> {
                &&& 0 <= t < s
                &&& op.data_chunk.0 == t * c
                &&& op.data_chunk.1 == t * c + c
                &&& op.truncate_to == t * c
                &&& op.src_chunk is None
                &&& 0 <= t * c
                &&& t * c + c <= m
                &&& (t + 1) * c == t * c + c
            }
        }),
{
    lemma_plan_zones(p);
    let c = p.chunk_size as int;
    let s = p.start_chunks as int;
    let t = 2 * s + middle_count(p) - 1 - k;
    if k < s {
        lemma_mul_mono(k + 1, s, c);
        lemma_mul_mono(k, k + 1, c);
        lemma_mul_succ(k, c);
    }
    if s + middle_count(p) <= k {
        lemma_mul_mono(t + 1, s, c);
        lemma_mul_mono(t, t + 1, c);
        lemma_mul_succ(t, c);
    }
}

/// A truncation length never exceeds the one of an operation earlier in the
/// realization: the file only shrinks.
pub proof fn lemma_truncate_non_increasing(p: ChunkPlan, i: int, j: int)
    requires
        p.wf(),
        0 <= i <= j < op_count(p),
    ensures
        ops_of(p)[j].truncate_to <= ops_of(p)[i].truncate_to,
{
    lemma_plan_zones(p);
    lemma_op_bounds(p, i);
    lemma_op_bounds(p, j);
    let c = p.chunk_size as int;
    let s = p.start_chunks as int;
    if i < s && j < s {
        lemma_mul_mono(i + 1, j + 1, c);
    }
    let nm = middle_count(p);
    if s + nm <= i {
        let ti = 2 * s + nm - 1 - i;
        let tj = 2 * s + nm - 1 - j;
        lemma_mul_mono(tj, ti, c);
    }
}

/// Every operation emits a non-empty range that lies inside the file as the
/// operation before left it.
pub proof fn lemma_data_within_length(p: ChunkPlan, k: int)
    requires
        p.wf(),
        0 <= k < op_count(p),
    ensures
        ops_of(p)[k].data_chunk.0 < ops_of(p)[k].data_chunk.1,
        ops_of(p)[k].data_chunk.1 <= length_before(p, k),
{
    lemma_plan_zones(p);
    lemma_op_bounds(p, k);
    if k > 0 {
        lemma_op_bounds(p, k - 1);
    }
    let c = p.chunk_size as int;
    let s = p.start_chunks as int;
    if 0 < k < s {
        lemma_mul_succ(k - 1, c);
    }
    if s + middle_count(p) < k {
        let t = 2 * s + middle_count(p) - 1 - k;
        lemma_mul_succ(t, c);
    }
}

/// Every copy source is disjoint from the range emitted by its operation: it
/// starts at or after that range's end and ends within the file as the
/// operation before left it.
pub proof fn lemma_src_disjoint_and_within(p: ChunkPlan, k: int)
    requires
        p.wf(),
        0 <= k < op_count(p),
        ops_of(p)[k].src_chunk is Some,
    ensures
        ({
            let op = ops_of(p)[k];
            let src = op.src_chunk->Some_0;
            &&& op.data_chunk.1 <= src.0
            &&& src.0 < src.1
            &&& src.1 <= length_before(p, k)
            &&& src.1 - src.0 <= op.data_chunk.1 - op.data_chunk.0
            &&& !ranges_overlap_spec(src, op.data_chunk)
        }),
{
    lemma_plan_zones(p);
    lemma_op_bounds(p, k);
    if k > 0 {
        lemma_op_bounds(p, k - 1);
    }
    let c = p.chunk_size as int;
    if 0 < k < p.start_chunks {
        lemma_mul_succ(k - 1, c);
    }
}

} // verus!
