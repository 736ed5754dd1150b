//! One contiguous byte range of the resource.

use crate::decimal::decimal_text;
use crate::decimal::push_decimal;
use vstd::prelude::*;
use vstd::string::StringExecFns;

verus! {

/// A range of the resource that is fetched and written on its own.
///
/// `start` and `end` are offsets into the resource, both inclusive. `id` is
/// the position of the block among the blocks of its resource, counted from
/// zero. `is_done` is set once the block has been fetched and written.
#[derive(Clone, Copy, Debug, PartialEq, Eq, Structural)]
pub struct Block {
    pub id: u64,
    pub start: u64,
    pub end: u64,
    pub is_done: bool,
}

/// The value of the `range` header of a request for the offsets `start` up
/// to and including `end`.
pub open spec fn range_text(start: nat, end: nat) -> Seq<char> {
    "bytes="@ + decimal_text(start) + seq!['-'] + decimal_text(end)
}

impl Block {
    /// A block that has not been fetched yet.
    pub fn new(id: u64, start: u64, end: u64) -> (block: Block)
        ensures
            block == (Block { id, start, end, is_done: false }),
    {
        Block { id, start, end, is_done: false }
    }

    /// The value of the `range` header of the request that fetches this
    /// block.
    pub fn range_header(&self) -> (value: String)
        ensures
            value@ == range_text(self.start as nat, self.end as nat),
    {
        proof {
            reveal_strlit("-");
        }
        let mut value = String::from_str("bytes=");
        push_decimal(&mut value, self.start);
        value.append("-");
        push_decimal(&mut value, self.end);
        assert("-"@ =~= seq!['-']);
        value
    }
}

} // verus!
