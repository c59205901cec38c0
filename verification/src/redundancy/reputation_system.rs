//! Node reputation: the kinds of events a node's history records, and the longest run of
//! failures in that history.

use vstd::prelude::*;

verus! {

/// The kinds of event recorded in a node's history.
#[derive(Debug, Clone, Copy, PartialEq, Eq)]
pub enum EventType {
    NodeFailure,
    DataCorruption,
    SlowResponse,
    ExceptionalPerformance,
    SuccessfulRecovery,
    MaintenanceCompleted,
    SecurityIncident,
    NetworkContribution,
}

/// Whether an event is a node failure.
pub open spec fn is_failure(e: EventType) -> bool {
    e is NodeFailure
}

/// The number of consecutive failures ending at position `i` (0 if `i` is not a failure).
pub open spec fn failure_run_at(events: Seq<EventType>, i: int) -> nat
    decreases i + 1,
{
    if i < 0 || i >= events.len() || !is_failure(events[i]) {
        0
    } else {
        failure_run_at(events, i - 1) + 1
    }
}

/// The longest run of consecutive failures among the first `n` events.
pub open spec fn longest_failure_run(events: Seq<EventType>, n: int) -> nat
    decreases n,
{
    if n <= 0 {
        0
    } else {
        let before = longest_failure_run(events, n - 1);
        let here = failure_run_at(events, n - 1);
        if here > before {
            here
        } else {
            before
        }
    }
}

/// A run ending at position `i` is at most `i + 1` events long.
proof fn lemma_run_bound(events: Seq<EventType>, i: int)
    requires
        0 <= i < events.len(),
    ensures
        failure_run_at(events, i) <= i + 1,
    decreases i,
{
    if i > 0 {
        lemma_run_bound(events, i - 1);
    } else {
        assert(failure_run_at(events, -1) == 0);
    }
}

/// The longest run of consecutive node failures in a history of event kinds.
pub fn count_consecutive_failures(events: &[EventType]) -> (n: u32)
    requires
        events@.len() <= u32::MAX,
    ensures
        n == longest_failure_run(events@, events@.len() as int),
{
    let mut consecutive: u32 = 0;
    let mut max_consecutive: u32 = 0;
    let mut i: usize = 0;
    while i < events.len()
        invariant
            i <= events@.len(),
            events@.len() <= u32::MAX,
            consecutive == failure_run_at(events@, i - 1),
            consecutive <= i,
            max_consecutive == longest_failure_run(events@, i as int),
        decreases events@.len() - i,
    {
        if let EventType::NodeFailure = events[i] {
            consecutive = consecutive + 1;
            if consecutive > max_consecutive {
                max_consecutive = consecutive;
            }
        } else {
            consecutive = 0;
        }
        proof {
            lemma_run_bound(events@, i as int);
        }
        i = i + 1;
    }
    max_consecutive
}

} // verus!
