use range_fetch::block::Block;
use range_fetch::error::BlockError;
use range_fetch::task::step;
use range_fetch::task::BlockAction;
use range_fetch::task::BlockEvent;
use range_fetch::task::BlockState;
use range_fetch::task::PARTIAL_CONTENT;

fn block() -> Block {
    Block::new(3, 501, 750)
}

fn all_states() -> Vec<BlockState> {
    vec![
        BlockState::Pending,
        BlockState::Fetching,
        BlockState::Writing,
        BlockState::Completed,
        BlockState::Failed,
    ]
}

fn some_events() -> Vec<BlockEvent> {
    vec![
        BlockEvent::Started,
        BlockEvent::Responded(206),
        BlockEvent::Responded(200),
        BlockEvent::Responded(404),
        BlockEvent::TransportFailed,
        BlockEvent::Written(0),
        BlockEvent::Written(250),
        BlockEvent::WriteFailed,
    ]
}

#[test]
fn partial_content_is_status_206() {
    assert_eq!(PARTIAL_CONTENT, 206);
}

#[test]
fn block_that_is_fetched_and_written() {
    let (state, action) = step(&block(), BlockState::Pending, BlockEvent::Started);
    assert_eq!((state, action), (BlockState::Fetching, BlockAction::Fetch));
    let (state, action) = step(&block(), state, BlockEvent::Responded(206));
    assert_eq!((state, action), (BlockState::Writing, BlockAction::Write(501)));
    let (state, action) = step(&block(), state, BlockEvent::Written(250));
    assert_eq!((state, action), (BlockState::Completed, BlockAction::Finish(250)));
}

#[test]
fn body_is_written_at_the_first_offset_of_the_block() {
    assert_eq!(
        step(&Block::new(0, 0, 0), BlockState::Fetching, BlockEvent::Responded(206)),
        (BlockState::Writing, BlockAction::Write(0))
    );
    assert_eq!(
        step(&Block::new(4, 751, 1000), BlockState::Fetching, BlockEvent::Responded(206)),
        (BlockState::Writing, BlockAction::Write(751))
    );
}

#[test]
fn block_whose_request_failed() {
    assert_eq!(
        step(&block(), BlockState::Fetching, BlockEvent::TransportFailed),
        (BlockState::Failed, BlockAction::Fail(BlockError::TransportError))
    );
}

#[test]
fn block_with_an_unexpected_status() {
    for status in [200u16, 301, 404, 416, 500, 0, 205, 207, u16::MAX] {
        assert_eq!(
            step(&block(), BlockState::Fetching, BlockEvent::Responded(status)),
            (
                BlockState::Failed,
                BlockAction::Fail(BlockError::UnexpectedStatus(status))
            )
        );
    }
}

#[test]
fn block_whose_write_failed() {
    assert_eq!(
        step(&block(), BlockState::Writing, BlockEvent::WriteFailed),
        (BlockState::Failed, BlockAction::Fail(BlockError::IoError))
    );
}

#[test]
fn events_out_of_turn_are_dropped() {
    assert_eq!(
        step(&block(), BlockState::Pending, BlockEvent::Responded(206)),
        (BlockState::Pending, BlockAction::Ignore)
    );
    assert_eq!(
        step(&block(), BlockState::Pending, BlockEvent::Written(1)),
        (BlockState::Pending, BlockAction::Ignore)
    );
    assert_eq!(
        step(&block(), BlockState::Fetching, BlockEvent::Started),
        (BlockState::Fetching, BlockAction::Ignore)
    );
    assert_eq!(
        step(&block(), BlockState::Fetching, BlockEvent::Written(1)),
        (BlockState::Fetching, BlockAction::Ignore)
    );
    assert_eq!(
        step(&block(), BlockState::Writing, BlockEvent::Responded(206)),
        (BlockState::Writing, BlockAction::Ignore)
    );
    assert_eq!(
        step(&block(), BlockState::Writing, BlockEvent::TransportFailed),
        (BlockState::Writing, BlockAction::Ignore)
    );
}

#[test]
fn end_states_stay() {
    for event in some_events() {
        assert_eq!(
            step(&block(), BlockState::Completed, event),
            (BlockState::Completed, BlockAction::Ignore)
        );
        assert_eq!(
            step(&block(), BlockState::Failed, event),
            (BlockState::Failed, BlockAction::Ignore)
        );
    }
}

#[test]
fn no_step_leads_back_to_pending() {
    for state in all_states() {
        for event in some_events() {
            let (next, _) = step(&block(), state, event);
            if state != BlockState::Pending {
                assert_ne!(next, BlockState::Pending);
            }
        }
    }
}

#[test]
fn failure_is_reported_in_the_step_that_fails() {
    for state in all_states() {
        for event in some_events() {
            let (next, action) = step(&block(), state, event);
            let fails: bool = next == BlockState::Failed && state != BlockState::Failed;
            assert_eq!(matches!(action, BlockAction::Fail(_)), fails);
            let completes: bool = next == BlockState::Completed && state != BlockState::Completed;
            assert_eq!(matches!(action, BlockAction::Finish(_)), completes);
        }
    }
}
