//! What is reported when every block has been tried.
//!
//! Each block hands back either the number of bytes it wrote or the reason
//! for which it failed. A run succeeds only if every block succeeded; a run
//! that did not names every block that failed.

use crate::error::BlockError;
use vstd::prelude::*;

verus! {

/// One block that failed, and why.
#[derive(Clone, Copy, Debug, PartialEq, Eq, Structural)]
pub struct BlockFailure {
    pub id: u64,
    pub error: BlockError,
}

/// What a run reports in which every block succeeded.
#[derive(Debug, PartialEq, Eq)]
pub struct Summary {
    /// The path of the file that holds the resource.
    pub path: String,
    /// The number of bytes written into it.
    pub bytes: u64,
}

/// A summary as plain values.
pub struct SummaryView {
    pub path: Seq<char>,
    pub bytes: nat,
}

impl View for Summary {
    type V = SummaryView;

    open spec fn view(&self) -> SummaryView {
        SummaryView { path: self.path@, bytes: self.bytes as nat }
    }
}

/// The blocks that failed, in the order of their numbers, each with its
/// error. The result at position `i` is that of block `i`.
pub open spec fn failures_of(results: Seq<Result<u64, BlockError>>) -> Seq<BlockFailure>
    decreases results.len(),
{
    if results.len() == 0 {
        Seq::empty()
    } else {
        let earlier = failures_of(results.drop_last());
        match results.last() {
            Ok(_) => earlier,
            Err(error) => earlier.push(BlockFailure { id: (results.len() - 1) as u64, error }),
        }
    }
}

/// The number of bytes that the blocks wrote which succeeded.
pub open spec fn written_in(results: Seq<Result<u64, BlockError>>) -> nat
    decreases results.len(),
{
    if results.len() == 0 {
        0
    } else {
        written_in(results.drop_last()) + match results.last() {
            Ok(bytes) => bytes as nat,
            Err(_) => 0nat,
        }
    }
}

/// A count of bytes as far as 64 bits hold it: a larger count is cut down to
/// the largest number that fits.
pub open spec fn saturated(count: nat) -> nat {
    if count <= u64::MAX {
        count
    } else {
        u64::MAX as nat
    }
}

/// A block that failed is named among the failures, with its own number and
/// its own error.
pub proof fn lemma_failure_is_reported(results: Seq<Result<u64, BlockError>>, i: int)
    requires
        0 <= i < results.len(),
        results[i] is Err,
    ensures
        failures_of(results).contains(
            BlockFailure { id: i as u64, error: results[i]->Err_0 },
        ),
    decreases results.len(),
{
    let failure = BlockFailure { id: i as u64, error: results[i]->Err_0 };
    let earlier = failures_of(results.drop_last());
    if i == results.len() - 1 {
        assert(failures_of(results) == earlier.push(failure));
        assert(failures_of(results)[earlier.len() as int] == failure);
    } else {
        lemma_failure_is_reported(results.drop_last(), i);
        let k = choose|k: int| 0 <= k < earlier.len() && earlier[k] == failure;
        assert(failures_of(results)[k] == failure);
    }
}

/// Every failure that is reported is the failure of a block: the block of
/// that number failed, and with that error. The failures stand in the order
/// of their blocks.
pub proof fn lemma_reported_is_failure(results: Seq<Result<u64, BlockError>>, k: int)
    requires
        0 <= k < failures_of(results).len(),
        results.len() <= u64::MAX,
    ensures
        failures_of(results).len() <= results.len(),
        failures_of(results)[k].id < results.len(),
        results[failures_of(results)[k].id as int] == Err::<u64, BlockError>(
            failures_of(results)[k].error,
        ),
        k > 0 ==> failures_of(results)[k - 1].id < failures_of(results)[k].id,
    decreases results.len(),
{
    let earlier = failures_of(results.drop_last());
    if results.len() > 0 {
        if earlier.len() > 0 {
            lemma_reported_is_failure(results.drop_last(), earlier.len() - 1);
        }
        if k < earlier.len() {
            lemma_reported_is_failure(results.drop_last(), k);
        }
    }
}

/// Nothing is reported as failed exactly where every block succeeded.
pub proof fn lemma_success_means_all_succeeded(results: Seq<Result<u64, BlockError>>)
    ensures
        failures_of(results).len() == 0 <==> forall|i: int|
            0 <= i < results.len() ==> (#[trigger] results[i]) is Ok,
    decreases results.len(),
{
    if results.len() > 0 {
        lemma_success_means_all_succeeded(results.drop_last());
        if failures_of(results).len() == 0 {
            assert forall|i: int| 0 <= i < results.len() implies (#[trigger] results[i]) is Ok by {
                if i < results.len() - 1 {
                    assert(results.drop_last()[i] is Ok);
                }
            }
        } else if results.last() is Ok {
            let i = choose|i: int|
                0 <= i < results.drop_last().len() && !((#[trigger] results.drop_last()[i]) is Ok);
            assert(!(results[i] is Ok));
        }
    }
}

} // verus!
