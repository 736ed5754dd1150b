use range_fetch::block::Block;
use range_fetch::error::BlockError;
use range_fetch::file_info::FileInfo;
use range_fetch::headers::Metadata;
use range_fetch::outcome::BlockFailure;
use range_fetch::outcome::Summary;

fn plan(length: &[u8], thread: u8) -> FileInfo {
    let meta = Metadata {
        content_length: Some(length.to_vec()),
        content_type: Some(b"image/png".to_vec()),
        accept_ranges: Some(b"bytes".to_vec()),
    };
    FileInfo::from_metadata(&meta, "https://example.org/a", "w", thread).unwrap()
}

#[test]
fn run_in_which_every_block_succeeded() {
    let mut info = plan(b"1000", 4);
    let results: Vec<Result<u64, BlockError>> = vec![Ok(1), Ok(250), Ok(250), Ok(250), Ok(249)];
    let outcome = info.settle(&results);
    assert_eq!(outcome, Ok(Summary { path: String::from("w.png"), bytes: 1000 }));
    assert_eq!(info.has_write(), 1000);
    assert!(info.blocks().iter().all(|block| block.is_done));
}

#[test]
fn run_in_which_blocks_failed() {
    let mut info = plan(b"1000", 4);
    let results: Vec<Result<u64, BlockError>> = vec![
        Ok(1),
        Ok(250),
        Err(BlockError::TransportError),
        Ok(250),
        Err(BlockError::UnexpectedStatus(416)),
    ];
    let outcome = info.settle(&results);
    assert_eq!(
        outcome,
        Err(vec![
            BlockFailure { id: 2, error: BlockError::TransportError },
            BlockFailure { id: 4, error: BlockError::UnexpectedStatus(416) },
        ])
    );
    assert_eq!(info.has_write(), 501);
    let done: Vec<bool> = info.blocks().iter().map(|block| block.is_done).collect();
    assert_eq!(done, vec![true, true, false, true, false]);
}

#[test]
fn one_failed_fetch_fails_the_run() {
    let mut info = plan(b"1000", 4);
    let results: Vec<Result<u64, BlockError>> =
        vec![Ok(1), Ok(250), Ok(250), Err(BlockError::TransportError), Ok(249)];
    let outcome = info.settle(&results);
    assert_eq!(
        outcome,
        Err(vec![BlockFailure { id: 3, error: BlockError::TransportError }])
    );
}

#[test]
fn failed_write_is_reported() {
    let mut info = plan(b"7", 1);
    let results: Vec<Result<u64, BlockError>> = vec![Err(BlockError::IoError), Ok(6)];
    let outcome = info.settle(&results);
    assert_eq!(outcome, Err(vec![BlockFailure { id: 0, error: BlockError::IoError }]));
    assert_eq!(info.has_write(), 6);
}

#[test]
fn run_in_which_every_block_failed() {
    let mut info = plan(b"7", 1);
    let results: Vec<Result<u64, BlockError>> =
        vec![Err(BlockError::UnexpectedStatus(200)), Err(BlockError::UnexpectedStatus(500))];
    let outcome = info.settle(&results);
    assert_eq!(
        outcome,
        Err(vec![
            BlockFailure { id: 0, error: BlockError::UnexpectedStatus(200) },
            BlockFailure { id: 1, error: BlockError::UnexpectedStatus(500) },
        ])
    );
    assert_eq!(info.has_write(), 0);
    assert!(info.blocks().iter().all(|block| !block.is_done));
}

#[test]
fn settling_keeps_the_blocks_in_place() {
    let mut info = plan(b"10", 3);
    let results: Vec<Result<u64, BlockError>> =
        vec![Ok(2), Err(BlockError::IoError), Ok(3), Ok(2)];
    let _ = info.settle(&results);
    assert_eq!(
        info.blocks().to_vec(),
        vec![
            Block { id: 0, start: 0, end: 1, is_done: true },
            Block { id: 1, start: 2, end: 4, is_done: false },
            Block { id: 2, start: 5, end: 7, is_done: true },
            Block { id: 3, start: 8, end: 10, is_done: true },
        ]
    );
    assert_eq!(info.len(), 10);
    assert_eq!(info.thread(), 3);
    assert_eq!(info.uri(), "https://example.org/a");
    assert_eq!(info.save_as(), "w.png");
    assert_eq!(info.blocks_count(), 4);
}

#[test]
fn settling_again_adds_to_what_was_done() {
    let mut info = plan(b"7", 1);
    let first: Vec<Result<u64, BlockError>> = vec![Ok(1), Err(BlockError::TransportError)];
    assert!(info.settle(&first).is_err());
    let second: Vec<Result<u64, BlockError>> = vec![Err(BlockError::TransportError), Ok(6)];
    assert!(info.settle(&second).is_err());
    assert_eq!(info.has_write(), 7);
    assert!(info.blocks().iter().all(|block| block.is_done));
}

#[test]
fn count_of_bytes_stops_at_the_largest_number() {
    let mut info = plan(b"7", 1);
    let results: Vec<Result<u64, BlockError>> = vec![Ok(u64::MAX - 1), Ok(5)];
    let outcome = info.settle(&results);
    assert_eq!(outcome, Ok(Summary { path: String::from("w.png"), bytes: u64::MAX }));
    assert_eq!(info.has_write(), u64::MAX);
}
