//! The ways in which planning a download or handling one block can fail.

use vstd::prelude::*;

verus! {

/// Why no plan could be made. Planning fails before any range is requested
/// and before anything is written.
#[derive(Clone, Copy, Debug, PartialEq, Eq, Structural)]
pub enum PlanError {
    /// The response to the probe carries no length of the resource.
    MissingLength,
    /// The length field does not hold an unsigned decimal number.
    InvalidLength,
    /// The number of blocks asked for is zero, or larger than the resource
    /// has bytes.
    InvalidParallelism,
    /// The resource has no bytes.
    EmptyResource,
}

/// Why one block was not fetched and written.
#[derive(Clone, Copy, Debug, PartialEq, Eq, Structural)]
pub enum BlockError {
    /// The request failed on the connection or protocol level.
    TransportError,
    /// The server answered the ranged request with this status instead of
    /// partial content.
    UnexpectedStatus(u16),
    /// The body could not be written to the destination file.
    IoError,
}

} // verus!
