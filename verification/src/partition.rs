//! How a resource of known length is cut into blocks.
//!
//! The resource is divided by the number of blocks asked for, which gives the
//! size of an ordinary block. The first block is the short one: it runs from
//! offset zero up to and including the offset given by the remainder of the
//! length by the ordinary size. Every later block has the ordinary size and
//! begins right behind its predecessor.

use crate::block::Block;
use crate::error::PlanError;
use vstd::arithmetic::div_mod::lemma_div_multiples_vanish;
use vstd::arithmetic::div_mod::lemma_div_non_zero;
use vstd::arithmetic::div_mod::lemma_fundamental_div_mod;
use vstd::arithmetic::div_mod::lemma_mod_bound;
use vstd::prelude::*;

verus! {

/// Whether a resource of `len` bytes can be cut for `thread` blocks: at least
/// one block is asked for, and the resource has at least one byte for each.
pub open spec fn can_split(len: nat, thread: nat) -> bool {
    0 < thread <= len
}

/// The reason for which no blocks are made, if there is one.
pub open spec fn split_error(len: nat, thread: nat) -> Option<PlanError> {
    if thread == 0 {
        Some(PlanError::InvalidParallelism)
    } else if len == 0 {
        Some(PlanError::EmptyResource)
    } else if len < thread {
        Some(PlanError::InvalidParallelism)
    } else {
        None
    }
}

/// The size of every block but the first.
pub open spec fn base_size(len: nat, thread: nat) -> nat {
    len / thread
}

/// What is left of the length when it is divided by the size of an
/// ordinary block. The first block ends at this offset.
pub open spec fn head_size(len: nat, thread: nat) -> nat {
    len % base_size(len, thread)
}

/// The number of blocks, the first one included.
pub open spec fn block_count(len: nat, thread: nat) -> nat {
    len / base_size(len, thread) + 1
}

/// The first offset of block `i`.
pub open spec fn block_start(len: nat, thread: nat, i: nat) -> nat {
    if i == 0 {
        0
    } else {
        (head_size(len, thread) + (i - 1) * base_size(len, thread) + 1) as nat
    }
}

/// The last offset of block `i`.
pub open spec fn block_end(len: nat, thread: nat, i: nat) -> nat {
    head_size(len, thread) + i * base_size(len, thread)
}

/// Block `i` as it is planned, not yet fetched.
pub open spec fn block_at(len: nat, thread: nat, i: nat) -> Block {
    Block {
        id: i as u64,
        start: block_start(len, thread, i) as u64,
        end: block_end(len, thread, i) as u64,
        is_done: false,
    }
}

/// All blocks of the resource, in the order of their offsets.
pub open spec fn blocks_of(len: nat, thread: nat) -> Seq<Block> {
    Seq::new(block_count(len, thread), |i: int| block_at(len, thread, i as nat))
}

/// The sizes fit together: the short first block and the ordinary blocks
/// behind it end exactly at offset `len`, and there are more blocks than
/// were asked for, but at most twice as many.
pub proof fn lemma_sizes(len: nat, thread: nat)
    requires
        can_split(len, thread),
    ensures
        base_size(len, thread) >= 1,
        head_size(len, thread) < base_size(len, thread),
        head_size(len, thread) + (block_count(len, thread) - 1) * base_size(len, thread) == len,
        thread + 1 <= block_count(len, thread) <= 2 * thread,
{
    let base = len / thread;
    let rest = len % thread;
    lemma_div_non_zero(len as int, thread as int);
    lemma_fundamental_div_mod(len as int, thread as int);
    lemma_mod_bound(len as int, thread as int);
    let count = len / base;
    let head = len % base;
    lemma_fundamental_div_mod(len as int, base as int);
    lemma_mod_bound(len as int, base as int);
    assert(thread <= count < 2 * thread && head + count * base == len) by (nonlinear_arith)
        requires
            len == base * count + head,
            0 <= head < base,
            len == thread * base + rest,
            0 <= rest < thread,
            base >= 1,
    ;
}

/// No block begins behind its own end, and none ends behind offset `len`.
proof fn lemma_block_bounds(len: nat, thread: nat, i: nat)
    requires
        can_split(len, thread),
        i < block_count(len, thread),
    ensures
        block_start(len, thread, i) <= block_end(len, thread, i) <= len,
        i > 0 ==> block_start(len, thread, i) == block_end(len, thread, (i - 1) as nat) + 1,
        i + 1 == block_count(len, thread) ==> block_end(len, thread, i) == len,
{
    let base = base_size(len, thread);
    let count = block_count(len, thread);
    lemma_sizes(len, thread);
    assert(i * base <= (count - 1) * base && (i - 1) * base + base == i * base)
        by (nonlinear_arith)
        requires
            0 <= i <= count - 1,
            base >= 0,
    ;
}

/// Whether `offset` lies within `block`.
pub open spec fn covers(block: Block, offset: nat) -> bool {
    block.start <= offset <= block.end
}

/// Whether `blocks` lie one behind the other from offset zero up to and
/// including offset `last`: they are numbered from zero in the order of
/// their offsets, none is empty, the first begins at zero, each later one
/// begins right behind its predecessor, and the last one ends at `last`.
pub open spec fn tiles(blocks: Seq<Block>, last: nat) -> bool {
    &&& blocks.len() > 0
    &&& blocks[0].start == 0
    &&& blocks.last().end == last
    &&& forall|i: int|
        0 <= i < blocks.len() ==> (#[trigger] blocks[i]).id == i && blocks[i].start
            <= blocks[i].end
    &&& forall|i: int| 0 < i < blocks.len() ==> (#[trigger] blocks[i]).start == blocks[i - 1].end + 1
}

/// The blocks of a resource lie one behind the other from offset zero up to
/// and including offset `len`, without a gap and without an overlap. The
/// bytes of the resource have the offsets below `len`; the last block
/// reaches one offset further.
pub proof fn lemma_blocks_tile(len: u64, thread: u8)
    requires
        can_split(len as nat, thread as nat),
    ensures
        tiles(blocks_of(len as nat, thread as nat), len as nat),
        blocks_of(len as nat, thread as nat).len() == block_count(len as nat, thread as nat),
        forall|i: int|
            0 <= i < block_count(len as nat, thread as nat) ==> !(#[trigger] blocks_of(
                len as nat,
                thread as nat,
            )[i]).is_done,
{
    let l = len as nat;
    let t = thread as nat;
    let blocks = blocks_of(l, t);
    let count = block_count(l, t);
    lemma_sizes(l, t);
    assert forall|i: int| 0 <= i < blocks.len() implies (#[trigger] blocks[i]).id == i
        && blocks[i].start <= blocks[i].end by {
        assert(blocks[i] == block_at(l, t, i as nat));
        lemma_block_bounds(l, t, i as nat);
    }
    assert forall|i: int| 0 < i < blocks.len() implies (#[trigger] blocks[i]).start == blocks[i
        - 1].end + 1 by {
        assert(blocks[i] == block_at(l, t, i as nat));
        assert(blocks[i - 1] == block_at(l, t, (i - 1) as nat));
        lemma_block_bounds(l, t, i as nat);
        lemma_block_bounds(l, t, (i - 1) as nat);
    }
    assert(blocks.last() == block_at(l, t, (count - 1) as nat));
    lemma_block_bounds(l, t, (count - 1) as nat);
}

/// In a row of blocks that lie one behind the other, an earlier block ends
/// before a later one begins.
pub proof fn lemma_tiles_ordered(blocks: Seq<Block>, last: nat, i: int, j: int)
    requires
        tiles(blocks, last),
        0 <= i < j < blocks.len(),
    ensures
        blocks[i].end < blocks[j].start,
    decreases j - i,
{
    if j > i + 1 {
        lemma_tiles_ordered(blocks, last, i, j - 1);
        assert(blocks[j - 1].start <= blocks[j - 1].end);
    }
    assert(blocks[j].start == blocks[j - 1].end + 1);
}

/// Finds the block that holds `offset`, looking from block `from` on.
proof fn lemma_tiles_find(blocks: Seq<Block>, last: nat, offset: nat, from: int) -> (i: int)
    requires
        tiles(blocks, last),
        0 <= from < blocks.len(),
        blocks[from].start <= offset <= last,
    ensures
        0 <= i < blocks.len(),
        covers(blocks[i], offset),
    decreases blocks.len() - from,
{
    if offset <= blocks[from].end {
        from
    } else {
        assert(blocks[from + 1].start == blocks[from].end + 1);
        lemma_tiles_find(blocks, last, offset, from + 1)
    }
}

/// Every offset from zero up to and including `last` lies in exactly one of
/// the blocks that lie one behind the other over that range.
pub proof fn lemma_offset_in_one_block(blocks: Seq<Block>, last: nat, offset: nat)
    requires
        tiles(blocks, last),
        offset <= last,
    ensures
        exists|i: int| 0 <= i < blocks.len() && covers(#[trigger] blocks[i], offset),
        forall|i: int, j: int|
            0 <= i < blocks.len() && 0 <= j < blocks.len() && covers(#[trigger] blocks[i], offset)
                && covers(#[trigger] blocks[j], offset) ==> i == j,
{
    let found = lemma_tiles_find(blocks, last, offset, 0);
    assert(covers(blocks[found], offset));
    assert forall|i: int, j: int|
        0 <= i < blocks.len() && 0 <= j < blocks.len() && covers(#[trigger] blocks[i], offset)
            && covers(#[trigger] blocks[j], offset) implies i == j by {
        if i < j {
            lemma_tiles_ordered(blocks, last, i, j);
        } else if j < i {
            lemma_tiles_ordered(blocks, last, j, i);
        }
    }
}

/// Every offset from zero up to and including `len` lies in exactly one
/// block of the resource; so does, in particular, every byte of it.
pub proof fn lemma_plan_covers_once(len: u64, thread: u8, offset: u64)
    requires
        can_split(len as nat, thread as nat),
        offset <= len,
    ensures
        exists|i: int|
            0 <= i < block_count(len as nat, thread as nat) && covers(
                #[trigger] blocks_of(len as nat, thread as nat)[i],
                offset as nat,
            ),
        forall|i: int, j: int|
            0 <= i < block_count(len as nat, thread as nat) && 0 <= j < block_count(
                len as nat,
                thread as nat,
            ) && covers(#[trigger] blocks_of(len as nat, thread as nat)[i], offset as nat)
                && covers(#[trigger] blocks_of(len as nat, thread as nat)[j], offset as nat)
                ==> i == j,
{
    lemma_blocks_tile(len, thread);
    lemma_offset_in_one_block(blocks_of(len as nat, thread as nat), len as nat, offset as nat);
}

/// Asked for a single block, the resource is still cut in two: the first
/// block holds offset zero alone, and the second runs from offset one up to
/// and including offset `len`.
pub proof fn lemma_single_thread(len: u64)
    requires
        len >= 1,
    ensures
        blocks_of(len as nat, 1) =~= seq![
            Block { id: 0, start: 0, end: 0, is_done: false },
            Block { id: 1, start: 1, end: len, is_done: false },
        ],
{
    let l = len as nat;
    lemma_even_split(l, 1);
    assert(block_at(l, 1, 1).end == len) by (nonlinear_arith)
        requires
            block_at(l, 1, 1).end == (0 + 1 * l) as u64,
            l == len,
    ;
    assert(block_at(l, 1, 1).start == 1) by (nonlinear_arith)
        requires
            block_at(l, 1, 1).start == ((0 + (1 - 1) * l + 1) as nat) as u64,
    ;
}

/// Where the length is a multiple of the number of blocks asked for, one
/// block more is made than was asked for, and the first block holds offset
/// zero alone.
pub proof fn lemma_even_split(len: nat, thread: nat)
    requires
        can_split(len, thread),
        len % thread == 0,
    ensures
        base_size(len, thread) * thread == len,
        head_size(len, thread) == 0,
        block_count(len, thread) == thread + 1,
        block_start(len, thread, 0) == 0,
        block_end(len, thread, 0) == 0,
{
    let base = len / thread;
    lemma_sizes(len, thread);
    lemma_fundamental_div_mod(len as int, thread as int);
    assert(len == base * thread) by (nonlinear_arith)
        requires
            len == thread * base + 0,
    ;
    lemma_div_multiples_vanish(thread as int, base as int);
    lemma_fundamental_div_mod(len as int, base as int);
    assert(len / base == thread);
    assert(base * (len / base) == base * thread);
    assert(0 * base == 0) by (nonlinear_arith);
}

/// Cuts a resource of `len` bytes into blocks for `thread` concurrent
/// fetches.
///
/// Fails with `InvalidParallelism` when no block is asked for, with
/// `EmptyResource` when the resource has no bytes, and with
/// `InvalidParallelism` again when more blocks are asked for than the
/// resource has bytes, since an ordinary block would then be empty.
pub fn split(len: u64, thread: u8) -> (planned: Result<Vec<Block>, PlanError>)
    ensures
        match planned {
            Ok(blocks) => split_error(len as nat, thread as nat) is None && blocks@ == blocks_of(
                len as nat,
                thread as nat,
            ),
            Err(e) => split_error(len as nat, thread as nat) == Some(e),
        },
        thread == 0 ==> planned == Err::<Vec<Block>, PlanError>(PlanError::InvalidParallelism),
        thread > 0 && len == 0 ==> planned == Err::<Vec<Block>, PlanError>(
            PlanError::EmptyResource,
        ),
        planned is Ok <==> can_split(len as nat, thread as nat),
{
    if thread == 0 {
        return Err(PlanError::InvalidParallelism);
    }
    if len == 0 {
        return Err(PlanError::EmptyResource);
    }
    if len < thread as u64 {
        return Err(PlanError::InvalidParallelism);
    }
    proof {
        lemma_sizes(len as nat, thread as nat);
    }
    let block_offset: u64 = len / (thread as u64);
    let block_offset_head: u64 = len % block_offset;
    let blocks_count: u64 = len / block_offset + 1;
    let mut blocks: Vec<Block> = Vec::with_capacity(blocks_count as usize);
    let mut id: u64 = 0;
    let mut start: u64 = 0;
    let mut end: u64 = block_offset_head;
    blocks.push(Block { id, start, end, is_done: false });
    while id < blocks_count - 1
        invariant
            can_split(len as nat, thread as nat),
            block_offset == base_size(len as nat, thread as nat),
            block_offset >= 1,
            block_offset_head == head_size(len as nat, thread as nat),
            blocks_count == block_count(len as nat, thread as nat),
            block_offset_head + (blocks_count - 1) * block_offset == len,
            id < blocks_count,
            blocks@.len() == id + 1,
            end == block_offset_head + id * block_offset,
            forall|k: int|
                0 <= k < blocks@.len() ==> blocks@[k] == block_at(
                    len as nat,
                    thread as nat,
                    k as nat,
                ),
        decreases blocks_count - 1 - id,
    {
        proof {
            assert((id + 1) * block_offset == id * block_offset + block_offset
                && (id + 1) * block_offset <= (blocks_count - 1) * block_offset)
                by (nonlinear_arith)
                requires
                    id + 1 <= blocks_count - 1,
                    block_offset >= 0,
            ;
        }
        id += 1;
        start = end + 1;
        end += block_offset;
        blocks.push(Block::new(id, start, end));
    }
    assert(blocks@ =~= blocks_of(len as nat, thread as nat));
    Ok(blocks)
}

} // verus!
