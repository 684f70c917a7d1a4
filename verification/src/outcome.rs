//! Per-endpoint results of one write and the status they add up to.
//!
//! A write is `FullySucceeded` when it was sent to at least one endpoint
//! and every endpoint acknowledged it, `Failed` when no endpoint did, and
//! `PartiallySucceeded` in between. A write that was sent to no endpoint
//! at all is `Failed`: nothing holds it.

use vstd::prelude::*;

verus! {

/// Why a call to one endpoint ended in an error.
#[derive(Clone, Copy, Debug, PartialEq, Eq, Structural)]
pub enum RpcErrorCause {
    /// The payload is larger than the largest message that may be sent; no
    /// call was made.
    MessageTooLarge,
    /// The endpoint's answer could not be read.
    MalformedResponse,
    /// The endpoint, or the way to it, reported an error.
    Upstream,
}

/// What one planned endpoint reported for one write.
#[derive(Clone, Copy, Debug, PartialEq, Eq, Structural)]
pub enum CallResult {
    /// The endpoint acknowledged the write.
    Success,
    /// The call did not settle within the per-call timeout.
    Timeout,
    /// The call ended in an error.
    Error(RpcErrorCause),
}

/// What the results of all planned endpoints add up to.
#[derive(Clone, Copy, Debug, PartialEq, Eq, Structural)]
pub enum AggregatedStatus {
    /// Every planned endpoint acknowledged.
    FullySucceeded,
    /// `succeeded` of `planned` endpoints acknowledged, more than none and
    /// fewer than all.
    PartiallySucceeded { succeeded: usize, planned: usize },
    /// No endpoint acknowledged.
    Failed,
}

/// Number of `Success` entries in `results`.
pub open spec fn success_count(results: Seq<CallResult>) -> nat
    decreases results.len(),
{
    if results.len() == 0 {
        0
    } else {
        success_count(results.drop_last()) + if results.last() == CallResult::Success {
            1nat
        } else {
            0nat
        }
    }
}

/// The status that `results` add up to.
pub open spec fn status_of(results: Seq<CallResult>) -> AggregatedStatus {
    let k = success_count(results);
    if k == 0 {
        AggregatedStatus::Failed
    } else if k == results.len() {
        AggregatedStatus::FullySucceeded
    } else {
        AggregatedStatus::PartiallySucceeded {
            succeeded: k as usize,
            planned: results.len() as usize,
        }
    }
}

/// Whether a write with this status may be found by queries: it reached at
/// least one endpoint.
pub open spec fn potentially_queryable(status: AggregatedStatus) -> bool {
    status != AggregatedStatus::Failed
}

/// The count of successes is at most the number of results; it is the
/// number of results exactly when all are successes, and zero exactly when
/// none is.
pub proof fn lemma_success_count(results: Seq<CallResult>)
    ensures
        success_count(results) <= results.len(),
        success_count(results) == results.len() <==> (forall|i: int|
            0 <= i < results.len() ==> results[i] == CallResult::Success),
        success_count(results) == 0 <==> (forall|i: int|
            0 <= i < results.len() ==> results[i] != CallResult::Success),
    decreases results.len(),
{
    if results.len() > 0 {
        let head = results.drop_last();
        lemma_success_count(head);
        if success_count(results) == results.len() {
            assert forall|i: int| 0 <= i < results.len() implies results[i]
                == CallResult::Success by {
                if i < head.len() {
                    assert(head[i] == results[i]);
                }
            }
        }
        if forall|i: int| 0 <= i < results.len() ==> results[i] == CallResult::Success {
            assert forall|i: int| 0 <= i < head.len() implies head[i] == CallResult::Success by {
                assert(head[i] == results[i]);
            }
        }
        if success_count(results) == 0 {
            assert forall|i: int| 0 <= i < results.len() implies results[i]
                != CallResult::Success by {
                if i < head.len() {
                    assert(head[i] == results[i]);
                }
            }
        }
        if forall|i: int| 0 <= i < results.len() ==> results[i] != CallResult::Success {
            assert forall|i: int| 0 <= i < head.len() implies head[i] != CallResult::Success by {
                assert(head[i] == results[i]);
            }
        }
    }
}

/// The aggregated status is `FullySucceeded` exactly when at least one
/// endpoint was planned and every planned endpoint reports `Success`,
/// `Failed` exactly when none does, and `PartiallySucceeded` with the
/// true counts otherwise.
pub proof fn lemma_status_of(results: Seq<CallResult>)
    requires
        results.len() <= usize::MAX,
    ensures
        status_of(results) == AggregatedStatus::FullySucceeded <==> results.len() > 0 && (
        forall|i: int| 0 <= i < results.len() ==> results[i] == CallResult::Success),
        status_of(results) == AggregatedStatus::Failed <==> (forall|i: int|
            0 <= i < results.len() ==> results[i] != CallResult::Success),
        status_of(results) matches AggregatedStatus::PartiallySucceeded { succeeded, planned }
            ==> 0 < succeeded < planned && succeeded == success_count(results) && planned
            == results.len(),
        0 < success_count(results) < results.len() ==> status_of(results)
            is PartiallySucceeded,
{
    lemma_success_count(results);
}

/// Counts the acknowledgements among `results`.
pub fn count_successes(results: &Vec<CallResult>) -> (k: usize)
    ensures
        k == success_count(results@),
        k <= results.len(),
{
    let mut k: usize = 0;
    let mut i: usize = 0;
    while i < results.len()
        invariant
            i <= results.len(),
            k <= i,
            k == success_count(results@.take(i as int)),
        decreases results.len() - i,
    {
        assert(results@.take(i as int + 1).drop_last() =~= results@.take(i as int));
        if results[i] == CallResult::Success {
            k = k + 1;
        }
        i = i + 1;
    }
    assert(results@.take(i as int) =~= results@);
    k
}

/// Adds the results of all planned endpoints up to one status.
pub fn aggregate(results: &Vec<CallResult>) -> (status: AggregatedStatus)
    ensures
        status == status_of(results@),
{
    let k = count_successes(results);
    if k == 0 {
        AggregatedStatus::Failed
    } else if k == results.len() {
        AggregatedStatus::FullySucceeded
    } else {
        AggregatedStatus::PartiallySucceeded { succeeded: k, planned: results.len() }
    }
}

/// Whether a write with this status may be found by queries.
pub fn is_potentially_queryable(status: AggregatedStatus) -> (b: bool)
    ensures
        b == potentially_queryable(status),
{
    match status {
        AggregatedStatus::Failed => false,
        _ => true,
    }
}

} // verus!
