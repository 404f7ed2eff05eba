//! Streams a file to a sink while shrinking it in place.
//!
//! The planner splits a file into head, middle and tail zones, the realizer
//! turns that split into an ordered list of operations (emit, relocate,
//! truncate), and the executor model states what those operations do to the
//! file and to the sink.
pub mod commit;
pub mod error;
pub mod fill;
pub mod model;
pub mod ops;
pub mod plan;
pub mod ranges;

pub use commit::{commit_plan, Action, Step};
pub use error::ShrinkError;
pub use fill::{random_block, zero_block};
pub use ops::{copy_chunk, output_chunk, truncate_file, Transfer, TruncateAction, BUFFER_SIZE};
pub use ranges::ranges_overlap;
pub use plan::{
    plan_chunks, plan_into_realization, ChunkPlan, Operation, OPERATION_LIMIT,
};
