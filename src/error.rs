use vstd::prelude::*;

verus! {

/// The ways planning, realizing or checking a step can fail.
#[derive(Clone, Copy, Debug, PartialEq, Eq)]
pub enum ShrinkError {
    /// The file to plan for is empty.
    FileSizeZero,
    /// A range has `end <= start`.
    InvalidRange,
    /// A range reaches past the current end of the file.
    OutOfBounds,
    /// The source and destination of a copy intersect.
    RangeOverlap,
    /// The source and destination of a copy differ in length.
    SizeMismatch,
    /// A truncation would have to grow the file.
    TruncateUnderflow,
    /// The realized plan would hold more operations than allowed.
    OperationLimitExceeded,
}

} // verus!
