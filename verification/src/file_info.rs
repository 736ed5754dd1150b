//! The plan of one download: what is fetched, in which blocks, and where it
//! is saved.

use crate::block::Block;
use crate::decimal::parse_decimal;
use crate::decimal::parse_u64;
use crate::error::BlockError;
use crate::error::PlanError;
use crate::file_type::bytes_equal;
use crate::file_type::kind_of;
use crate::file_type::suffix_of;
use crate::file_type::FileType;
use crate::headers::header_fields;
use crate::headers::metadata_of;
use crate::headers::Metadata;
use crate::headers::MetadataView;
use crate::outcome::failures_of;
use crate::outcome::saturated;
use crate::outcome::written_in;
use crate::outcome::BlockFailure;
use crate::outcome::Summary;
use crate::outcome::SummaryView;
use crate::partition::base_size;
use crate::partition::block_at;
use crate::partition::block_count;
use crate::partition::blocks_of;
use crate::partition::can_split;
use crate::partition::head_size;
use crate::partition::lemma_blocks_tile;
use crate::partition::lemma_sizes;
use crate::partition::split;
use crate::partition::split_error;
use crate::partition::tiles;
use hyper::HeaderMap;
use vstd::prelude::*;
use vstd::string::StringExecFns;
use vstd::string::StringSliceAdditionalSpecFns;

verus! {

/// The authoritative description of one download.
#[derive(Debug)]
pub struct FileInfo {
    uri: String,
    len: u64,
    suffix: String,
    save_as: String,
    flag_range: bool,
    thread: u8,
    blocks: Vec<Block>,
    blocks_count: u64,
    block_offset: u64,
    block_offset_head: u64,
    has_write: u64,
}

/// A plan as plain values.
pub struct FileInfoView {
    /// Where the resource is fetched from.
    pub uri: Seq<char>,
    /// The number of bytes of the resource.
    pub len: nat,
    /// The suffix of the destination file, taken from the kind of content.
    pub suffix: Seq<char>,
    /// The path of the destination file.
    pub save_as: Seq<char>,
    /// Whether the server said that it accepts ranges of bytes. The blocks
    /// do not depend on it.
    pub flag_range: bool,
    /// The number of blocks that was asked for.
    pub thread: nat,
    /// The blocks, in the order of their offsets.
    pub blocks: Seq<Block>,
    /// The number of bytes written so far, as far as it was counted.
    pub has_write: nat,
}

/// Whether two blocks have the same number and the same range.
pub open spec fn same_range(left: Block, right: Block) -> bool {
    left.id == right.id && left.start == right.start && left.end == right.end
}

impl FileInfoView {
    /// Whether the blocks are those that the length and the number of blocks
    /// asked for give, whichever of them are done.
    pub open spec fn consistent(self) -> bool {
        &&& can_split(self.len, self.thread)
        &&& self.blocks.len() == block_count(self.len, self.thread)
        &&& forall|i: int|
            0 <= i < self.blocks.len() ==> same_range(
                #[trigger] self.blocks[i],
                block_at(self.len, self.thread, i as nat),
            )
    }
}

/// The blocks of a plan lie one behind the other from offset zero up to and
/// including the offset that is the length of the resource, whichever of
/// them are done.
pub proof fn lemma_consistent_tiles(plan: FileInfoView)
    requires
        plan.consistent(),
        plan.len <= u64::MAX,
        plan.thread <= u8::MAX,
    ensures
        tiles(plan.blocks, plan.len),
{
    let planned = blocks_of(plan.len, plan.thread);
    lemma_blocks_tile(plan.len as u64, plan.thread as u8);
    assert forall|i: int| 0 <= i < plan.blocks.len() implies (#[trigger] plan.blocks[i]).id == i
        && plan.blocks[i].start <= plan.blocks[i].end by {
        assert(same_range(plan.blocks[i], block_at(plan.len, plan.thread, i as nat)));
        assert(planned[i].id == i);
    }
    assert forall|i: int| 0 < i < plan.blocks.len() implies (#[trigger] plan.blocks[i]).start
        == plan.blocks[i - 1].end + 1 by {
        assert(same_range(plan.blocks[i], block_at(plan.len, plan.thread, i as nat)));
        assert(same_range(plan.blocks[i - 1], block_at(plan.len, plan.thread, (i - 1) as nat)));
        assert(planned[i].start == planned[i - 1].end + 1);
    }
    assert(same_range(plan.blocks[0], block_at(plan.len, plan.thread, 0)));
    assert(planned[0].start == 0);
    assert(same_range(
        plan.blocks[plan.blocks.len() - 1],
        block_at(plan.len, plan.thread, (plan.blocks.len() - 1) as nat),
    ));
    assert(planned.last().end == plan.len);
}

/// The reason for which no plan is made from `meta`, if there is one: the
/// length is missing, or it is no number, or the resource cannot be cut as
/// asked.
pub open spec fn plan_error(meta: MetadataView, thread: u8) -> Option<PlanError> {
    match meta.content_length {
        None => Some(PlanError::MissingLength),
        Some(text) => match parse_decimal(text) {
            None => Some(PlanError::InvalidLength),
            Some(len) => split_error(len as nat, thread as nat),
        },
    }
}

/// The kind of content that `meta` announces.
pub open spec fn kind_in(meta: MetadataView) -> FileType {
    match meta.content_type {
        Some(text) => kind_of(text),
        None => FileType::Unknow,
    }
}

/// The plan that is made from `meta` where nothing stands against it.
pub open spec fn planned(
    meta: MetadataView,
    uri: Seq<char>,
    save_as: Seq<char>,
    thread: u8,
) -> FileInfoView
    recommends
        plan_error(meta, thread) is None,
{
    let len = parse_decimal(meta.content_length.unwrap()).unwrap();
    FileInfoView {
        uri,
        len: len as nat,
        suffix: suffix_of(kind_in(meta)),
        save_as: save_as + seq!['.'] + suffix_of(kind_in(meta)),
        flag_range: meta.accept_ranges == Some("bytes".spec_bytes()),
        thread: thread as nat,
        blocks: blocks_of(len as nat, thread as nat),
        has_write: 0,
    }
}

/// The plan after every block has handed back its result: the blocks that
/// succeeded are done, and what they wrote is added to the count of bytes
/// written. The result at position `i` is that of block `i`.
pub open spec fn settled(plan: FileInfoView, results: Seq<Result<u64, BlockError>>) -> FileInfoView
    recommends
        results.len() == plan.blocks.len(),
{
    FileInfoView {
        blocks: Seq::new(
            plan.blocks.len(),
            |i: int|
                Block { is_done: plan.blocks[i].is_done || results[i] is Ok, ..plan.blocks[i] },
        ),
        has_write: saturated(plan.has_write + written_in(results)),
        ..plan
    }
}

impl View for FileInfo {
    type V = FileInfoView;

    closed spec fn view(&self) -> FileInfoView {
        FileInfoView {
            uri: self.uri@,
            len: self.len as nat,
            suffix: self.suffix@,
            save_as: self.save_as@,
            flag_range: self.flag_range,
            thread: self.thread as nat,
            blocks: self.blocks@,
            has_write: self.has_write as nat,
        }
    }
}

impl Clone for FileInfo {
    fn clone(&self) -> (copy: FileInfo)
        ensures
            copy@ == self@,
    {
        proof {
            use_type_invariant(self);
        }
        let blocks = self.blocks.clone();
        assert(blocks@ =~= self.blocks@);
        FileInfo {
            uri: self.uri.clone(),
            len: self.len,
            suffix: self.suffix.clone(),
            save_as: self.save_as.clone(),
            flag_range: self.flag_range,
            thread: self.thread,
            blocks,
            blocks_count: self.blocks_count,
            block_offset: self.block_offset,
            block_offset_head: self.block_offset_head,
            has_write: self.has_write,
        }
    }
}

impl FileInfo {
    #[verifier::type_invariant]
    spec fn inv(self) -> bool {
        &&& self@.consistent()
        &&& self.blocks_count == block_count(self.len as nat, self.thread as nat)
        &&& self.block_offset == base_size(self.len as nat, self.thread as nat)
        &&& self.block_offset_head == head_size(self.len as nat, self.thread as nat)
    }

    /// Makes the plan for the resource at `uri` from the headers of the
    /// response to the probe. The file is saved under `save_as`, a dot and
    /// the suffix of the kind of content; `thread` blocks are asked for.
    pub fn new(headers: &HeaderMap, uri: &str, save_as: &str, thread: u8) -> (plan: Result<
        FileInfo,
        PlanError,
    >)
        ensures
            match plan {
                Ok(info) => plan_error(metadata_of(header_fields(*headers)), thread) is None
                    && info@ == planned(
                    metadata_of(header_fields(*headers)),
                    uri@,
                    save_as@,
                    thread,
                ),
                Err(e) => plan_error(metadata_of(header_fields(*headers)), thread) == Some(e),
            },
            !header_fields(*headers).contains_key("content-length"@) ==> plan == Err::<
                FileInfo,
                PlanError,
            >(PlanError::MissingLength),
    {
        let meta = Metadata::read(headers);
        FileInfo::from_metadata(&meta, uri, save_as, thread)
    }

    /// Makes the plan from the fields of the probe.
    ///
    /// Fails with `MissingLength` where the length field is absent, with
    /// `InvalidLength` where it does not hold an unsigned decimal number
    /// that fits in 64 bits, and otherwise for the reasons for which the
    /// resource cannot be cut into blocks. A content type that is absent or
    /// not known gives the empty suffix. Ranges are planned whether or not
    /// the server announced that it accepts them.
    pub fn from_metadata(meta: &Metadata, uri: &str, save_as: &str, thread: u8) -> (plan: Result<
        FileInfo,
        PlanError,
    >)
        ensures
            match plan {
                Ok(info) => plan_error(meta@, thread) is None && info@ == planned(
                    meta@,
                    uri@,
                    save_as@,
                    thread,
                ),
                Err(e) => plan_error(meta@, thread) == Some(e),
            },
            meta.content_length is None ==> plan == Err::<FileInfo, PlanError>(
                PlanError::MissingLength,
            ),
    {
        let len: u64 = match &meta.content_length {
            None => {
                return Err(PlanError::MissingLength);
            },
            Some(text) => match parse_u64(text.as_slice()) {
                None => {
                    return Err(PlanError::InvalidLength);
                },
                Some(len) => len,
            },
        };
        let blocks = match split(len, thread) {
            Err(e) => {
                return Err(e);
            },
            Ok(blocks) => blocks,
        };
        proof {
            lemma_sizes(len as nat, thread as nat);
            lemma_blocks_tile(len, thread);
        }
        let block_offset: u64 = len / (thread as u64);
        let block_offset_head: u64 = len % block_offset;
        let blocks_count: u64 = len / block_offset + 1;
        let file_type = match &meta.content_type {
            Some(text) => FileType::from_content_type(text.as_slice()),
            None => FileType::Unknow,
        };
        let flag_range = match &meta.accept_ranges {
            None => false,
            Some(text) => bytes_equal(text.as_slice(), "bytes".as_bytes()),
        };
        proof {
            reveal_strlit(".");
        }
        let mut path = String::from_str(save_as);
        path.append(".");
        path.append(file_type.suffix());
        assert(path@ =~= save_as@ + seq!['.'] + suffix_of(file_type));
        let info = FileInfo {
            block_offset,
            block_offset_head,
            blocks,
            blocks_count,
            has_write: 0,
            len,
            save_as: path,
            suffix: file_type.to_string(),
            thread,
            uri: String::from_str(uri),
            flag_range,
        };
        Ok(info)
    }

    /// Takes in the results of all blocks, once every block has been tried.
    ///
    /// Each block that succeeded is marked as done and what it wrote is
    /// counted. The run succeeds only if every block succeeded: then the
    /// path of the file and the bytes counted are reported. Otherwise every
    /// block that failed is reported, with its number and its error; what
    /// the other blocks wrote stays in the file.
    pub fn settle(&mut self, results: &[Result<u64, BlockError>]) -> (outcome: Result<
        Summary,
        Vec<BlockFailure>,
    >)
        requires
            results@.len() == old(self)@.blocks.len(),
        ensures
            final(self)@ == settled(old(self)@, results@),
            match outcome {
                Ok(summary) => failures_of(results@).len() == 0 && summary@ == (SummaryView {
                    path: final(self)@.save_as,
                    bytes: final(self)@.has_write,
                }),
                Err(failures) => failures@.len() > 0 && failures@ == failures_of(results@),
            },
    {
        proof {
            use_type_invariant(&*self);
        }
        let n: usize = results.len();
        let mut failures: Vec<BlockFailure> = Vec::new();
        let mut blocks: Vec<Block> = Vec::with_capacity(n);
        let mut written: u64 = self.has_write;
        let mut i: usize = 0;
        assert(results@.take(0) =~= Seq::<Result<u64, BlockError>>::empty());
        while i < n
            invariant
                i <= n,
                n == results@.len(),
                n == self.blocks@.len(),
                forall|k: int| 0 <= k < n ==> (#[trigger] self.blocks@[k]).id == k,
                blocks@.len() == i,
                forall|k: int|
                    0 <= k < i ==> blocks@[k] == (Block {
                        is_done: self.blocks@[k].is_done || results@[k] is Ok,
                        ..self.blocks@[k]
                    }),
                failures@ == failures_of(results@.take(i as int)),
                written == saturated(self.has_write as nat + written_in(results@.take(i as int))),
            decreases n - i,
        {
            let block: Block = self.blocks[i];
            let result: Result<u64, BlockError> = results[i];
            assert(results@.take(i + 1).drop_last() =~= results@.take(i as int));
            assert(results@.take(i + 1).last() == result);
            match result {
                Ok(bytes) => {
                    written = written.saturating_add(bytes);
                    blocks.push(Block { id: block.id, start: block.start, end: block.end, is_done: true });
                },
                Err(error) => {
                    failures.push(BlockFailure { id: block.id, error });
                    blocks.push(block);
                },
            }
            i += 1;
        }
        assert(results@.take(n as int) =~= results@);
        assert(blocks@ =~= settled(self@, results@).blocks);
        self.blocks = blocks;
        self.has_write = written;
        if failures.len() == 0 {
            Ok(Summary { path: self.save_as.clone(), bytes: self.has_write })
        } else {
            Err(failures)
        }
    }

    /// Where the resource is fetched from.
    pub fn uri(&self) -> (uri: &str)
        ensures
            uri@ == self@.uri,
    {
        self.uri.as_str()
    }

    /// The number of bytes of the resource.
    pub fn len(&self) -> (len: u64)
        ensures
            len == self@.len,
    {
        self.len
    }

    /// The suffix of the destination file.
    pub fn suffix(&self) -> (suffix: &str)
        ensures
            suffix@ == self@.suffix,
    {
        self.suffix.as_str()
    }

    /// The path of the destination file.
    pub fn save_as(&self) -> (path: &str)
        ensures
            path@ == self@.save_as,
    {
        self.save_as.as_str()
    }

    /// Whether the server said that it accepts ranges of bytes.
    pub fn flag_range(&self) -> (flag: bool)
        ensures
            flag == self@.flag_range,
    {
        self.flag_range
    }

    /// The number of blocks that was asked for.
    pub fn thread(&self) -> (thread: u8)
        ensures
            thread == self@.thread,
    {
        self.thread
    }

    /// The blocks, in the order of their offsets. They are always those
    /// that the length and the number of blocks asked for give, and so lie
    /// one behind the other.
    pub fn blocks(&self) -> (blocks: &[Block])
        ensures
            blocks@ == self@.blocks,
            self@.consistent(),
            tiles(blocks@, self@.len),
    {
        proof {
            use_type_invariant(self);
            lemma_consistent_tiles(self@);
        }
        self.blocks.as_slice()
    }

    /// The number of blocks.
    pub fn blocks_count(&self) -> (count: u64)
        ensures
            count == self@.blocks.len(),
            count == block_count(self@.len, self@.thread),
    {
        proof {
            use_type_invariant(self);
        }
        self.blocks_count
    }

    /// The size of every block but the first.
    pub fn block_offset(&self) -> (size: u64)
        ensures
            size == base_size(self@.len, self@.thread),
    {
        proof {
            use_type_invariant(self);
        }
        self.block_offset
    }

    /// The last offset of the first block.
    pub fn block_offset_head(&self) -> (offset: u64)
        ensures
            offset == head_size(self@.len, self@.thread),
    {
        proof {
            use_type_invariant(self);
        }
        self.block_offset_head
    }

    /// The number of bytes written so far, as far as it was counted.
    pub fn has_write(&self) -> (count: u64)
        ensures
            count == self@.has_write,
    {
        self.has_write
    }
}

} // verus!
