//! The course of one block: it is fetched, then written, and either step may
//! fail. What to do next is decided here; the request and the write
//! themselves are done by the caller, who reports back what happened.

use crate::block::Block;
use crate::error::BlockError;
use vstd::prelude::*;

verus! {

/// The status with which a server answers a ranged request that it serves.
pub const PARTIAL_CONTENT: u16 = 206;

/// Where a block stands.
#[derive(Clone, Copy, Debug, PartialEq, Eq, Structural)]
pub enum BlockState {
    /// Nothing has been done for the block yet.
    Pending,
    /// The ranged request is under way.
    Fetching,
    /// The body is being written to the destination file.
    Writing,
    /// The block has been fetched and written.
    Completed,
    /// The fetch or the write failed. The block is not tried again.
    Failed,
}

/// What happened to a block.
#[derive(Clone, Copy, Debug, PartialEq, Eq, Structural)]
pub enum BlockEvent {
    /// The task of the block was started.
    Started,
    /// The server answered the ranged request with this status.
    Responded(u16),
    /// The request failed before an answer was complete.
    TransportFailed,
    /// The body was written; this many bytes were placed.
    Written(u64),
    /// The write failed.
    WriteFailed,
}

/// What the caller has to do next for a block.
#[derive(Clone, Copy, Debug, PartialEq, Eq, Structural)]
pub enum BlockAction {
    /// Send the ranged request for the block.
    Fetch,
    /// Write the body of the response into the file, at this offset.
    Write(u64),
    /// Report that the block is done, with the number of bytes written.
    Finish(u64),
    /// Report that the block failed, and why.
    Fail(BlockError),
    /// Nothing: the event does not belong to the state, and is dropped.
    Ignore,
}

/// The state that follows `state` on `event`.
pub open spec fn next_state(state: BlockState, event: BlockEvent) -> BlockState {
    match (state, event) {
        (BlockState::Pending, BlockEvent::Started) => BlockState::Fetching,
        (BlockState::Fetching, BlockEvent::Responded(status)) => if status == PARTIAL_CONTENT {
            BlockState::Writing
        } else {
            BlockState::Failed
        },
        (BlockState::Fetching, BlockEvent::TransportFailed) => BlockState::Failed,
        (BlockState::Writing, BlockEvent::Written(_)) => BlockState::Completed,
        (BlockState::Writing, BlockEvent::WriteFailed) => BlockState::Failed,
        _ => state,
    }
}

/// What is to be done for `block` when `event` arrives in `state`. The body
/// of a block is written at the first offset of the block.
pub open spec fn action_on(block: Block, state: BlockState, event: BlockEvent) -> BlockAction {
    match (state, event) {
        (BlockState::Pending, BlockEvent::Started) => BlockAction::Fetch,
        (BlockState::Fetching, BlockEvent::Responded(status)) => if status == PARTIAL_CONTENT {
            BlockAction::Write(block.start)
        } else {
            BlockAction::Fail(BlockError::UnexpectedStatus(status))
        },
        (BlockState::Fetching, BlockEvent::TransportFailed) => BlockAction::Fail(
            BlockError::TransportError,
        ),
        (BlockState::Writing, BlockEvent::Written(bytes)) => BlockAction::Finish(bytes),
        (BlockState::Writing, BlockEvent::WriteFailed) => BlockAction::Fail(BlockError::IoError),
        _ => BlockAction::Ignore,
    }
}

/// Takes one step in the course of `block`: the state that follows, and
/// what the caller has to do.
///
/// A response is accepted only with the status of partial content; with any
/// other status the block fails and the body is not written.
pub fn step(block: &Block, state: BlockState, event: BlockEvent) -> (next: (
    BlockState,
    BlockAction,
))
    ensures
        next.0 == next_state(state, event),
        next.1 == action_on(*block, state, event),
{
    match state {
        BlockState::Pending => match event {
            BlockEvent::Started => (BlockState::Fetching, BlockAction::Fetch),
            _ => (state, BlockAction::Ignore),
        },
        BlockState::Fetching => match event {
            BlockEvent::Responded(status) => {
                if status == PARTIAL_CONTENT {
                    (BlockState::Writing, BlockAction::Write(block.start))
                } else {
                    (BlockState::Failed, BlockAction::Fail(BlockError::UnexpectedStatus(status)))
                }
            },
            BlockEvent::TransportFailed => (
                BlockState::Failed,
                BlockAction::Fail(BlockError::TransportError),
            ),
            _ => (state, BlockAction::Ignore),
        },
        BlockState::Writing => match event {
            BlockEvent::Written(bytes) => (BlockState::Completed, BlockAction::Finish(bytes)),
            BlockEvent::WriteFailed => (BlockState::Failed, BlockAction::Fail(BlockError::IoError)),
            _ => (state, BlockAction::Ignore),
        },
        BlockState::Completed => (state, BlockAction::Ignore),
        BlockState::Failed => (state, BlockAction::Ignore),
    }
}

/// The state of a block after a run of events, starting from `state`.
pub open spec fn state_after(state: BlockState, events: Seq<BlockEvent>) -> BlockState
    decreases events.len(),
{
    if events.len() == 0 {
        state
    } else {
        next_state(state_after(state, events.drop_last()), events.last())
    }
}

/// A block that is completed or has failed stays as it is, whatever
/// happens, and nothing more is done for it.
pub proof fn lemma_end_states_stay(block: Block, state: BlockState, event: BlockEvent)
    requires
        state == BlockState::Completed || state == BlockState::Failed,
    ensures
        next_state(state, event) == state,
        action_on(block, state, event) == BlockAction::Ignore,
{
}

/// No step leads back to the pending state: a block is not tried again.
pub proof fn lemma_never_pending_again(state: BlockState, event: BlockEvent)
    requires
        state != BlockState::Pending,
    ensures
        next_state(state, event) != BlockState::Pending,
{
}

/// A block fails only while it is fetched or written, and the caller is
/// told to report the failure in exactly those steps. It is completed only
/// by a write that succeeded, and the caller is told to report the success
/// in exactly those steps.
pub proof fn lemma_how_a_block_ends(block: Block, state: BlockState, event: BlockEvent)
    ensures
        next_state(state, event) == BlockState::Failed && state != BlockState::Failed ==> state
            == BlockState::Fetching || state == BlockState::Writing,
        action_on(block, state, event) is Fail <==> next_state(state, event) == BlockState::Failed
            && state != BlockState::Failed,
        next_state(state, event) == BlockState::Completed && state != BlockState::Completed
            ==> state == BlockState::Writing && event is Written,
        action_on(block, state, event) is Finish <==> next_state(state, event)
            == BlockState::Completed && state != BlockState::Completed,
        action_on(block, state, event) is Write ==> action_on(block, state, event)
            == BlockAction::Write(block.start) && state == BlockState::Fetching && event
            == BlockEvent::Responded(PARTIAL_CONTENT),
{
}

/// Whatever happens to a block that is pending, it is completed only if the
/// server answered with the status of partial content.
pub proof fn lemma_completed_after_partial_content(events: Seq<BlockEvent>)
    requires
        state_after(BlockState::Pending, events) == BlockState::Completed,
    ensures
        events.contains(BlockEvent::Responded(PARTIAL_CONTENT)),
{
    lemma_reached_writing(events);
}

/// A pending block gets as far as being written only if the server answered
/// with the status of partial content.
proof fn lemma_reached_writing(events: Seq<BlockEvent>)
    requires
        state_after(BlockState::Pending, events) == BlockState::Writing || state_after(
            BlockState::Pending,
            events,
        ) == BlockState::Completed,
    ensures
        events.contains(BlockEvent::Responded(PARTIAL_CONTENT)),
    decreases events.len(),
{
    if events.len() > 0 {
        let before = state_after(BlockState::Pending, events.drop_last());
        if before == BlockState::Writing || before == BlockState::Completed {
            lemma_reached_writing(events.drop_last());
            let k = choose|k: int|
                0 <= k < events.drop_last().len() && events.drop_last()[k] == BlockEvent::Responded(
                    PARTIAL_CONTENT,
                );
            assert(events[k] == BlockEvent::Responded(PARTIAL_CONTENT));
        } else {
            assert(events.last() == BlockEvent::Responded(PARTIAL_CONTENT));
            assert(events[events.len() - 1] == BlockEvent::Responded(PARTIAL_CONTENT));
        }
    }
}

} // verus!
