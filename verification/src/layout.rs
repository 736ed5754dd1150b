//! Why the destination file ends up holding the resource.
//!
//! Every block is fetched by a ranged request and its body is written into
//! the file at the first offset of the block. The blocks are handled by
//! concurrent tasks, so the writes take place in no particular order. This
//! module describes a write at an offset and a ranged request as functions
//! on sequences of bytes and shows that, in whatever order the writes take
//! place, the file holds the resource once every block has been written.

use crate::block::Block;
use crate::partition::blocks_of;
use crate::partition::can_split;
use crate::partition::covers;
use crate::partition::lemma_blocks_tile;
use crate::partition::lemma_offset_in_one_block;
use crate::partition::tiles;
use vstd::prelude::*;

verus! {

/// The content of a file after `data` has been written at `offset`. The
/// bytes outside the range written stay as they are. A file that is too
/// short is made longer, and what lies between its old end and the range
/// written reads as zero. Writing nothing changes nothing.
pub open spec fn written_at(file: Seq<u8>, offset: nat, data: Seq<u8>) -> Seq<u8> {
    if data.len() == 0 {
        file
    } else {
        Seq::new(
            if file.len() >= offset + data.len() {
                file.len()
            } else {
                offset + data.len()
            },
            |i: int|
                if offset <= i < offset + data.len() {
                    data[i - offset]
                } else if i < file.len() {
                    file[i]
                } else {
                    0u8
                },
        )
    }
}

/// A write leaves every byte outside its range as it was.
pub proof fn lemma_write_leaves_rest(file: Seq<u8>, offset: nat, data: Seq<u8>, p: int)
    requires
        0 <= p < file.len(),
        p < offset || p >= offset + data.len(),
    ensures
        p < written_at(file, offset, data).len(),
        written_at(file, offset, data)[p] == file[p],
        written_at(file, offset, data).len() >= file.len(),
{
}

/// Two writes whose ranges do not overlap give the same file in either
/// order. This is why the tasks need no lock between them.
pub proof fn lemma_disjoint_writes_commute(
    file: Seq<u8>,
    first_offset: nat,
    first: Seq<u8>,
    second_offset: nat,
    second: Seq<u8>,
)
    requires
        first_offset + first.len() <= second_offset || second_offset + second.len()
            <= first_offset,
    ensures
        written_at(written_at(file, first_offset, first), second_offset, second) == written_at(
            written_at(file, second_offset, second),
            first_offset,
            first,
        ),
{
    assert(written_at(written_at(file, first_offset, first), second_offset, second)
        =~= written_at(written_at(file, second_offset, second), first_offset, first));
}

/// The body with which a server answers the ranged request for `block`: the
/// bytes of the resource at the offsets of the block, as far as the
/// resource reaches.
pub open spec fn range_of(resource: Seq<u8>, block: Block) -> Seq<u8> {
    let from = if block.start <= resource.len() {
        block.start as int
    } else {
        resource.len() as int
    };
    let to = if block.end + 1 <= resource.len() {
        block.end + 1
    } else {
        resource.len() as int
    };
    resource.subrange(from, to)
}

/// The file after the blocks that `order` names have been fetched and
/// written one after the other, beginning with no file at all.
pub open spec fn assembled(resource: Seq<u8>, blocks: Seq<Block>, order: Seq<int>) -> Seq<u8>
    decreases order.len(),
{
    if order.len() == 0 {
        Seq::empty()
    } else {
        let block = blocks[order.last()];
        written_at(
            assembled(resource, blocks, order.drop_last()),
            block.start as nat,
            range_of(resource, block),
        )
    }
}

/// Whether `file` has the byte of the resource at offset `p`.
spec fn holds_byte(file: Seq<u8>, resource: Seq<u8>, p: int) -> bool {
    0 <= p < file.len() && p < resource.len() && file[p] == resource[p]
}

/// Whether `file` holds the bytes of the resource at all offsets of `block`
/// that the resource has.
spec fn holds_block(file: Seq<u8>, resource: Seq<u8>, block: Block) -> bool {
    forall|p: int|
        block.start <= p <= block.end && p < resource.len() ==> #[trigger] holds_byte(
            file,
            resource,
            p,
        )
}

/// Writing a block puts its bytes in place and leaves in place the bytes of
/// every block that was there before.
proof fn lemma_write_keeps(file: Seq<u8>, resource: Seq<u8>, block: Block, other: Block)
    requires
        file.len() <= resource.len(),
        block.start <= block.end,
        other == block || holds_block(file, resource, other),
    ensures
        written_at(file, block.start as nat, range_of(resource, block)).len() <= resource.len(),
        holds_block(
            written_at(file, block.start as nat, range_of(resource, block)),
            resource,
            other,
        ),
{
    let data = range_of(resource, block);
    let after = written_at(file, block.start as nat, data);
    assert forall|p: int|
        other.start <= p <= other.end && p < resource.len() implies #[trigger] holds_byte(
        after,
        resource,
        p,
    ) by {
        if data.len() > 0 && block.start <= p < block.start + data.len() {
            assert(after[p] == data[p - block.start]);
        } else if other != block {
            assert(holds_byte(file, resource, p));
        }
    }
}

/// After any run of writes, the file is no longer than the resource and
/// holds every block that was written.
proof fn lemma_assembled_holds(resource: Seq<u8>, blocks: Seq<Block>, last: nat, order: Seq<int>)
    requires
        tiles(blocks, last),
        forall|k: int| 0 <= k < order.len() ==> 0 <= #[trigger] order[k] < blocks.len(),
    ensures
        assembled(resource, blocks, order).len() <= resource.len(),
        forall|k: int|
            0 <= k < order.len() ==> holds_block(
                assembled(resource, blocks, order),
                resource,
                blocks[#[trigger] order[k]],
            ),
    decreases order.len(),
{
    if order.len() > 0 {
        let before = assembled(resource, blocks, order.drop_last());
        let block = blocks[order.last()];
        lemma_assembled_holds(resource, blocks, last, order.drop_last());
        assert(0 <= order[order.len() - 1] < blocks.len());
        assert(block.start <= block.end);
        lemma_write_keeps(before, resource, block, block);
        assert forall|k: int| 0 <= k < order.len() implies holds_block(
            assembled(resource, blocks, order),
            resource,
            blocks[#[trigger] order[k]],
        ) by {
            if k < order.len() - 1 {
                assert(order.drop_last()[k] == order[k]);
            }
            lemma_write_keeps(before, resource, block, blocks[order[k]]);
        }
    }
}

/// In whatever order the blocks are written, and however often one of them
/// is written again, the file holds exactly the resource once each block
/// has been written: it has the length of the resource and the same byte at
/// every offset. This holds of any blocks that lie one behind the other
/// from offset zero to the last byte of the resource or beyond.
pub proof fn lemma_any_order_rebuilds(
    resource: Seq<u8>,
    blocks: Seq<Block>,
    last: nat,
    order: Seq<int>,
)
    requires
        tiles(blocks, last),
        resource.len() <= last + 1,
        forall|k: int| 0 <= k < order.len() ==> 0 <= #[trigger] order[k] < blocks.len(),
        forall|i: int| 0 <= i < blocks.len() ==> order.contains(i),
    ensures
        assembled(resource, blocks, order) == resource,
{
    let file = assembled(resource, blocks, order);
    lemma_assembled_holds(resource, blocks, last, order);
    assert forall|p: int| 0 <= p < resource.len() implies #[trigger] holds_byte(
        file,
        resource,
        p,
    ) by {
        lemma_offset_in_one_block(blocks, last, p as nat);
        let i = choose|i: int| 0 <= i < blocks.len() && covers(#[trigger] blocks[i], p as nat);
        assert(order.contains(i));
        let k = choose|k: int| 0 <= k < order.len() && order[k] == i;
        assert(holds_block(file, resource, blocks[order[k]]));
        assert(holds_byte(file, resource, p));
    }
    if resource.len() > 0 {
        assert(holds_byte(file, resource, resource.len() - 1));
    }
    assert forall|p: int| 0 <= p < resource.len() implies file[p] == resource[p] by {
        assert(holds_byte(file, resource, p));
    }
    assert(file =~= resource);
}

/// The blocks that a plan makes rebuild the resource, in whatever order
/// they are written.
pub proof fn lemma_plan_rebuilds(resource: Seq<u8>, thread: u8, order: Seq<int>)
    requires
        resource.len() <= u64::MAX,
        can_split(resource.len(), thread as nat),
        forall|k: int|
            0 <= k < order.len() ==> 0 <= #[trigger] order[k] < blocks_of(
                resource.len(),
                thread as nat,
            ).len(),
        forall|i: int|
            0 <= i < blocks_of(resource.len(), thread as nat).len() ==> order.contains(i),
    ensures
        assembled(resource, blocks_of(resource.len(), thread as nat), order) == resource,
{
    lemma_blocks_tile(resource.len() as u64, thread);
    lemma_any_order_rebuilds(
        resource,
        blocks_of(resource.len(), thread as nat),
        resource.len(),
        order,
    );
}

} // verus!
