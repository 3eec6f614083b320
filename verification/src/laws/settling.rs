//! Laws on requests that a consumer is through with.
use vstd::prelude::*;

use crate::add::{add_outcome, AddOutcome};
use crate::candidates::{forefront_candidates, is_candidate_order};
use crate::clock::Timestamp;
use crate::ids::request_id_of;
use crate::json::JsonView;
use crate::models::ProcessedView;
use crate::order::order_number;
use crate::request::unique_key_of;
use crate::settle::{all_but, standing, MarkView, ReclaimView, Standing};
use crate::state::{HeldView, QueueView};

verus! {

/// A request that was marked as handled is never fetched again. To mark it again, to return it
/// or to add it again finds it handled.
pub proof fn law_handled_request_stays_handled(
    queue: QueueView,
    mark: MarkView,
    now: int,
    request: JsonView,
    file_exists: bool,
    seen: Set<Seq<char>>,
    forefront: bool,
)
    requires
        unique_key_of(request) == Some(mark.unique_key),
    ensures
        ({
            let after = mark.recorded_in(queue);
            &&& after.is_handled(mark.unique_key)
            &&& !after.is_fetchable(mark.unique_key, now)
            &&& standing(after, request, file_exists) == Standing::Handled(mark.unique_key)
            &&& add_outcome(after, seen, forefront, request, now) == AddOutcome::Reported(
                ProcessedView {
                    request_id: request_id_of(mark.unique_key),
                    unique_key: mark.unique_key,
                    was_already_present: true,
                    was_already_handled: true,
                },
            )
        }),
{
}

/// A consumer can settle a request whether or not it holds the lock, and whether or not that ran
/// out.
pub proof fn law_settling_needs_no_lock(
    queue: QueueView,
    held_locks: Map<Seq<char>, HeldView>,
    order_no: i64,
    request: JsonView,
    file_exists: bool,
)
    requires
        standing(queue, request, file_exists) is Open,
    ensures
        standing(QueueView { held_locks, ..queue }, request, file_exists) == standing(
            queue,
            request,
            file_exists,
        ),
        standing(
            queue.with_order(unique_key_of(request)->0, Some(order_no)),
            request,
            file_exists,
        ) == standing(queue, request, file_exists),
{
}

/// The lock on a settled request is forgotten.
pub proof fn law_settled_request_is_not_held(
    queue: QueueView,
    mark: MarkView,
    reclaim: ReclaimView,
    now: Timestamp,
)
    ensures
        !mark.recorded_in(queue).held_locks.contains_key(request_id_of(mark.unique_key)),
        !reclaim.recorded_in(queue, now).held_locks.contains_key(
            request_id_of(reclaim.unique_key),
        ),
{
}

/// A request that is returned can be fetched at once, and from then on. It keeps its place among
/// requests with the same order number.
pub proof fn law_returned_request_can_be_fetched(
    queue: QueueView,
    reclaim: ReclaimView,
    at: Timestamp,
    recorded: Timestamp,
    later: int,
)
    requires
        reclaim.order_no == order_number(at.spec_millis(), reclaim.forefront),
        0 <= at.spec_millis() <= later,
    ensures
        reclaim.recorded_in(queue, recorded).is_fetchable(reclaim.unique_key, later),
        queue.requests.contains_key(reclaim.unique_key) ==> reclaim.recorded_in(
            queue,
            recorded,
        ).requests[reclaim.unique_key].insertion_seq
            == queue.requests[reclaim.unique_key].insertion_seq,
{
}

/// A request that is returned to the forefront, where it was not before, is the next to be
/// fetched.
pub proof fn law_request_returned_to_the_forefront_is_next(
    queue: QueueView,
    reclaim: ReclaimView,
    at: Timestamp,
    recorded: Timestamp,
    later: int,
    keys: Seq<Seq<char>>,
)
    requires
        reclaim.forefront,
        reclaim.order_no == order_number(at.spec_millis(), true),
        0 <= at.spec_millis() <= later,
        !queue.metadata.forefront.contains(reclaim.unique_key),
        is_candidate_order(reclaim.recorded_in(queue, recorded), later, keys),
    ensures
        keys.len() > 0,
        keys[0] == reclaim.unique_key,
{
    let after = reclaim.recorded_in(queue, recorded);
    law_returned_request_can_be_fetched(queue, reclaim, at, recorded, later);
    assert(after.metadata.forefront.last() == reclaim.unique_key);
    let front = forefront_candidates(after, later);
    assert(front[0] == reclaim.unique_key);
    assert(keys[0] == keys.take(front.len() as int)[0]);
}

/// A handled request leaves the forefront list, and no other does.
pub proof fn law_handled_request_leaves_the_forefront(
    queue: QueueView,
    mark: MarkView,
    other: Seq<char>,
)
    ensures
        mark.recorded_in(queue).metadata.forefront.contains(other) <==> other != mark.unique_key
            && queue.metadata.forefront.contains(other),
{
    lemma_all_but(queue.metadata.forefront, mark.unique_key, other);
}

proof fn lemma_all_but(list: Seq<Seq<char>>, key: Seq<char>, other: Seq<char>)
    ensures
        all_but(list, key).contains(other) <==> other != key && list.contains(other),
    decreases list.len(),
{
    reveal(Seq::filter);
    if list.len() > 0 {
        let shorter = list.drop_last();
        lemma_all_but(shorter, key, other);
        assert(list =~= shorter.push(list.last()));
        broadcast use vstd::seq_lib::group_seq_properties;

        assert(all_but(list, key) == if list.last() != key {
            all_but(shorter, key).push(list.last())
        } else {
            all_but(shorter, key)
        });
    }
}

/// Settling a request leaves every other request as it is.
pub proof fn law_settling_leaves_others_alone(
    queue: QueueView,
    mark: MarkView,
    reclaim: ReclaimView,
    now: Timestamp,
    other: Seq<char>,
)
    requires
        other != mark.unique_key,
        other != reclaim.unique_key,
    ensures
        mark.recorded_in(queue).requests.contains_key(other) <==> queue.requests.contains_key(
            other,
        ),
        mark.recorded_in(queue).requests[other] == queue.requests[other],
        reclaim.recorded_in(queue, now).requests.contains_key(other)
            <==> queue.requests.contains_key(other),
        reclaim.recorded_in(queue, now).requests[other] == queue.requests[other],
{
}

/// Nothing is left of a queue that was purged: it is finished, and nothing can be fetched.
pub proof fn law_purged_queue_is_finished(queue: QueueView, purged_at: Timestamp, now: int)
    ensures
        queue.purged(purged_at).is_finished(),
        !queue.purged(purged_at).has_fetchable(now),
{
}

} // verus!
