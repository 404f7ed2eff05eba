use vstd::prelude::*;

use crate::error::ShrinkError;
use crate::ranges::{ranges_overlap, ranges_overlap_spec};

verus! {

/// The most bytes moved by one read or write of a primitive.
pub const BUFFER_SIZE: u64 = 1000000;

/// What shrinking a file to a target length comes down to.
#[derive(Clone, Copy, Debug, PartialEq, Eq)]
pub enum TruncateAction {
    /// The target length is zero: the file is removed.
    Remove,
    /// The file already has the target length.
    Keep,
    /// The file is cut to this many bytes.
    SetLen(u64),
}

/// One buffered step of a copy inside a file: read `len` bytes at `from`,
/// then write them at `to`.
#[derive(Clone, Copy, Debug, PartialEq, Eq)]
pub struct Transfer {
    pub from: u64,
    pub to: u64,
    pub len: u64,
}

/// End of the buffered slice that starts at `pos` in a range ending at `end`.
pub open spec fn slice_end(pos: int, end: int) -> int {
    if end - pos > BUFFER_SIZE {
        pos + BUFFER_SIZE
    } else {
        end
    }
}

/// The half-open slices, at most `BUFFER_SIZE` bytes each, in which the
/// range `[pos, end)` is read, in order.
pub open spec fn read_slices(pos: int, end: int) -> Seq<(u64, u64)>
    decreases end - pos,
{
    if pos >= end {
        Seq::empty()
    } else {
        seq![(pos as u64, slice_end(pos, end) as u64)] + read_slices(slice_end(pos, end), end)
    }
}

/// The transfers that copy `[from, end)` to the range starting at `to`,
/// with both cursors advancing by the bytes moved.
pub open spec fn copy_transfers(from: int, end: int, to: int) -> Seq<Transfer>
    decreases end - from,
{
    if from >= end {
        Seq::empty()
    } else {
        let len = slice_end(from, end) - from;
        seq![Transfer { from: from as u64, to: to as u64, len: len as u64 }] + copy_transfers(
            from + len,
            end,
            to + len,
        )
    }
}

/// The result of checking an emit of `data` from a file of `file_size` bytes.
pub open spec fn output_result(file_size: u64, data: (u64, u64)) -> Result<
    Seq<(u64, u64)>,
    ShrinkError,
> {
    if data.1 <= data.0 {
        Err(ShrinkError::InvalidRange)
    } else if data.1 > file_size {
        Err(ShrinkError::OutOfBounds)
    } else {
        Ok(read_slices(data.0 as int, data.1 as int))
    }
}

/// The result of checking a copy of `src` onto `dst` in a file of
/// `file_size` bytes.
pub open spec fn copy_result(file_size: u64, src: (u64, u64), dst: (u64, u64)) -> Result<
    Seq<Transfer>,
    ShrinkError,
> {
    if src.1 <= src.0 || dst.1 <= dst.0 {
        Err(ShrinkError::InvalidRange)
    } else if src.1 - src.0 != dst.1 - dst.0 {
        Err(ShrinkError::SizeMismatch)
    } else if ranges_overlap_spec(src, dst) {
        Err(ShrinkError::RangeOverlap)
    } else if src.1 > file_size || dst.1 > file_size {
        Err(ShrinkError::OutOfBounds)
    } else {
        Ok(copy_transfers(src.0 as int, src.1 as int, dst.0 as int))
    }
}

/// The result of shrinking a file of `file_size` bytes to `target_size`.
pub open spec fn truncate_result(file_size: u64, target_size: u64) -> Result<
    TruncateAction,
    ShrinkError,
> {
    if target_size == 0 {
        Ok(TruncateAction::Remove)
    } else if file_size < target_size {
        Err(ShrinkError::TruncateUnderflow)
    } else if file_size == target_size {
        Ok(TruncateAction::Keep)
    } else {
        Ok(TruncateAction::SetLen(target_size))
    }
}

/// Decides how a file of `file_size` bytes is shrunk to `target_size`
/// bytes: removed when the target is zero, refused when the file is already
/// shorter, left alone when it already has that length, cut otherwise.
pub fn truncate_file(file_size: u64, target_size: u64) -> (r: Result<TruncateAction, ShrinkError>)
    ensures
        r == truncate_result(file_size, target_size),
{
    if target_size == 0 {
        Ok(TruncateAction::Remove)
    } else if file_size < target_size {
        Err(ShrinkError::TruncateUnderflow)
    } else if file_size == target_size {
        Ok(TruncateAction::Keep)
    } else {
        Ok(TruncateAction::SetLen(target_size))
    }
}

/// Checks an emit of `data` from a file of `file_size` bytes and returns the
/// buffered slices in which it is read: `InvalidRange` for an empty or
/// reversed range, `OutOfBounds` for one past the end of the file.
pub fn output_chunk(file_size: u64, data: (u64, u64)) -> (r: Result<Vec<(u64, u64)>, ShrinkError>)
    ensures
        r is Ok <==> output_result(file_size, data) is Ok,
        r is Err ==> r->Err_0 == output_result(file_size, data)->Err_0,
        r is Ok ==> r->Ok_0@ == output_result(file_size, data)->Ok_0,
{
    if data.1 <= data.0 {
        return Err(ShrinkError::InvalidRange);
    }
    if data.1 > file_size {
        return Err(ShrinkError::OutOfBounds);
    }
    let mut slices: Vec<(u64, u64)> = Vec::new();
    let mut pos: u64 = data.0;
    while pos < data.1
        invariant
            data.0 <= pos <= data.1,
            slices@ + read_slices(pos as int, data.1 as int) == read_slices(
                data.0 as int,
                data.1 as int,
            ),
        decreases data.1 - pos,
    {
        let end = if data.1 - pos > BUFFER_SIZE {
            pos + BUFFER_SIZE
        } else {
            data.1
        };
        let ghost before = slices@;
        slices.push((pos, end));
        assert(slices@ + read_slices(end as int, data.1 as int) =~= before + read_slices(
            pos as int,
            data.1 as int,
        ));
        pos = end;
    }
    assert(slices@ =~= slices@ + read_slices(pos as int, data.1 as int));
    Ok(slices)
}

/// Checks a copy of `src` onto `dst` inside a file of `file_size` bytes and
/// returns its buffered transfers: `InvalidRange` for an empty or reversed
/// range, `SizeMismatch` for ranges of unequal length, `RangeOverlap` for
/// intersecting ones, `OutOfBounds` for one past the end of the file.
pub fn copy_chunk(file_size: u64, src: (u64, u64), dst: (u64, u64)) -> (r: Result<
    Vec<Transfer>,
    ShrinkError,
>)
    ensures
        r is Ok <==> copy_result(file_size, src, dst) is Ok,
        r is Err ==> r->Err_0 == copy_result(file_size, src, dst)->Err_0,
        r is Ok ==> r->Ok_0@ == copy_result(file_size, src, dst)->Ok_0,
{
    if src.1 <= src.0 || dst.1 <= dst.0 {
        return Err(ShrinkError::InvalidRange);
    }
    if src.1 - src.0 != dst.1 - dst.0 {
        return Err(ShrinkError::SizeMismatch);
    }
    if ranges_overlap(src, dst) {
        return Err(ShrinkError::RangeOverlap);
    }
    if src.1 > file_size || dst.1 > file_size {
        return Err(ShrinkError::OutOfBounds);
    }
    let mut transfers: Vec<Transfer> = Vec::new();
    let mut from: u64 = src.0;
    let mut to: u64 = dst.0;
    while from < src.1
        invariant
            src.0 <= from <= src.1,
            to - dst.0 == from - src.0,
            dst.1 - dst.0 == src.1 - src.0,
            dst.0 <= to <= dst.1,
            transfers@ + copy_transfers(from as int, src.1 as int, to as int) == copy_transfers(
                src.0 as int,
                src.1 as int,
                dst.0 as int,
            ),
        decreases src.1 - from,
    {
        let len = if src.1 - from > BUFFER_SIZE {
            BUFFER_SIZE
        } else {
            src.1 - from
        };
        let ghost before = transfers@;
        transfers.push(Transfer { from, to, len });
        assert(transfers@ + copy_transfers((from + len) as int, src.1 as int, (to + len) as int)
            =~= before + copy_transfers(from as int, src.1 as int, to as int));
        from = from + len;
        to = to + len;
    }
    assert(transfers@ =~= transfers@ + copy_transfers(from as int, src.1 as int, to as int));
    Ok(transfers)
}

} // verus!
