//! Planning and bookkeeping for downloading one remote resource as a set of
//! byte ranges that are fetched concurrently and written into one file at
//! their own offsets.
//!
//! The library decides; it does no input or output. It makes the plan from
//! the headers of a probe (`file_info`, `partition`), names the range that
//! each request asks for (`block`), says what to do next for a block as its
//! request and its write succeed or fail (`task`), and sums up the run
//! (`outcome`). `layout` shows that the blocks of a plan, written at their
//! offsets in any order, make up the resource.

pub mod block;
pub mod decimal;
pub mod error;
pub mod file_info;
pub mod file_type;
pub mod headers;
pub mod layout;
pub mod outcome;
pub mod partition;
pub mod task;

pub use crate::block::Block;
pub use crate::file_info::FileInfo;
pub use crate::file_type::FileType;
