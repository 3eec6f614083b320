//! Laws on what each step does to the queue, and on what it leaves alone.
use vstd::prelude::*;

use crate::add::{
    add_outcome, after_step, numbering, queued, AddOutcome, AddStepView, AddView, PendingView,
};
use crate::clock::Timestamp;
use crate::fetch::{after_sighting, is_examined, FetchStep, FetchView, Sighting};
use crate::finish::{after_glance, settled_key};
use crate::ids::request_id_of;
use crate::json::JsonView;
use crate::models::{MetadataView, ProcessedView};
use crate::open::{empty_index, finding, Finding, RebuildView};
use crate::prolong::{ExtensionView, LockState, ProlongView};
use crate::request::{carries_handled_at, unique_key_of};
use crate::settle::{after_standing, settled_report, standing, MarkView, ReclaimView, Standing};
use crate::state::{raised, HeldView, QueueView};

verus! {

/// The maps have the same entries, except perhaps under this key.
pub open spec fn same_except<V>(
    a: Map<Seq<char>, V>,
    b: Map<Seq<char>, V>,
    key: Seq<char>,
) -> bool {
    forall|other: Seq<char>|
        #![trigger a.contains_key(other)]
        #![trigger b.contains_key(other)]
        #![trigger a[other]]
        #![trigger b[other]]
        other != key ==> {
            &&& a.contains_key(other) <==> b.contains_key(other)
            &&& a.contains_key(other) ==> a[other] == b[other]
        }
}

/// Both are records of the same queue.
pub open spec fn same_identity(a: MetadataView, b: MetadataView) -> bool {
    a.id == b.id && a.name == b.name && a.created_at == b.created_at
}

/// Both have the same counts.
pub open spec fn same_counts(a: MetadataView, b: MetadataView) -> bool {
    a.handled == b.handled && a.pending == b.pending && a.total == b.total
}

/// When the index has a request as handled, and when it can be fetched from it: its order number
/// lies no further from zero than the time, on either side.
pub proof fn law_when_a_request_is_handled_or_fetchable(
    queue: QueueView,
    key: Seq<char>,
    now: int,
)
    ensures
        queue.is_handled(key) <==> queue.requests.contains_key(key)
            && queue.requests[key].order_no is None,
        queue.is_fetchable(key, now) <==> queue.requests.contains_key(key)
            && queue.requests[key].order_no is Some && -now <= queue.requests[key].order_no->0
            <= now,
        queue.has_fetchable(now) <==> exists|k: Seq<char>| #[trigger] queue.is_fetchable(k, now),
        queue.is_finished() <==> forall|k: Seq<char>| #[trigger]
            queue.requests.contains_key(k) ==> queue.requests[k].order_no is None,
        queue.has_room() <==> queue.insertion_counter < u64::MAX,
        queue.has_room_for(key) <==> queue.requests.contains_key(key) || queue.insertion_counter
            < u64::MAX,
        queue.counts_fit() <==> queue.metadata.handled < usize::MAX && queue.metadata.pending
            < usize::MAX && queue.metadata.total < usize::MAX,
        queue.lock_fits(now) <==> now + queue.lock_millis <= i64::MAX,
{
}

/// An access is recorded by its time alone, and a modification by both times.
pub proof fn law_recording_a_time_changes_nothing_else(queue: QueueView, now: Timestamp)
    ensures
        ({
            let after = queue.accessed(now);
            &&& after.metadata.accessed_at == now
            &&& after.metadata.modified_at == queue.metadata.modified_at
            &&& after.metadata.forefront == queue.metadata.forefront
            &&& same_identity(after.metadata, queue.metadata)
            &&& same_counts(after.metadata, queue.metadata)
            &&& after.requests == queue.requests
            &&& after.held_locks == queue.held_locks
            &&& after.insertion_counter == queue.insertion_counter
            &&& after.lock_millis == queue.lock_millis
        }),
        ({
            let after = queue.modified(now);
            &&& after.metadata.accessed_at == now
            &&& after.metadata.modified_at == now
            &&& after.metadata.forefront == queue.metadata.forefront
            &&& same_identity(after.metadata, queue.metadata)
            &&& same_counts(after.metadata, queue.metadata)
            &&& after.requests == queue.requests
            &&& after.held_locks == queue.held_locks
            &&& after.insertion_counter == queue.insertion_counter
            &&& after.lock_millis == queue.lock_millis
        }),
{
}

/// To give a request of the index an order number changes that number alone. A request that the
/// index does not have is not put into it.
pub proof fn law_ordering_a_request_changes_nothing_else(
    queue: QueueView,
    key: Seq<char>,
    order_no: Option<i64>,
)
    ensures
        ({
            let after = queue.with_order(key, order_no);
            &&& after.requests.contains_key(key) <==> queue.requests.contains_key(key)
            &&& queue.requests.contains_key(key) ==> {
                &&& after.requests[key].order_no == order_no
                &&& after.requests[key].insertion_seq == queue.requests[key].insertion_seq
            }
            &&& same_except(after.requests, queue.requests, key)
            &&& after.metadata == queue.metadata
            &&& after.held_locks == queue.held_locks
            &&& after.insertion_counter == queue.insertion_counter
            &&& after.lock_millis == queue.lock_millis
        }),
{
}

/// To take a request out of the index changes nothing else.
pub proof fn law_forgetting_a_request_changes_nothing_else(queue: QueueView, key: Seq<char>)
    ensures
        ({
            let after = queue.without_entry(key);
            &&& !after.requests.contains_key(key)
            &&& same_except(after.requests, queue.requests, key)
            &&& after.metadata == queue.metadata
            &&& after.held_locks == queue.held_locks
            &&& after.insertion_counter == queue.insertion_counter
            &&& after.lock_millis == queue.lock_millis
        }),
{
}

/// To take or to give up a lock changes nothing else.
pub proof fn law_holding_a_lock_changes_nothing_else(
    queue: QueueView,
    request_id: Seq<char>,
    lock: HeldView,
)
    ensures
        ({
            let after = queue.holding(request_id, lock);
            &&& after.held_locks.contains_key(request_id)
            &&& after.held_locks[request_id] == lock
            &&& same_except(after.held_locks, queue.held_locks, request_id)
            &&& after.requests == queue.requests
            &&& after.metadata == queue.metadata
            &&& after.insertion_counter == queue.insertion_counter
            &&& after.lock_millis == queue.lock_millis
        }),
        ({
            let after = queue.releasing(request_id);
            &&& !after.held_locks.contains_key(request_id)
            &&& same_except(after.held_locks, queue.held_locks, request_id)
            &&& after.requests == queue.requests
            &&& after.metadata == queue.metadata
            &&& after.insertion_counter == queue.insertion_counter
            &&& after.lock_millis == queue.lock_millis
        }),
{
}

/// What is done with a request that is added. One without a key is refused. One that the queue
/// has as handled is reported, and so is one that the queue or the batch has, unless it is for
/// the forefront. Any other is written: as handled if it carries a handling time, and otherwise
/// under the time, with a minus sign for the forefront.
pub proof fn law_what_is_done_with_an_added_request(
    queue: QueueView,
    seen: Set<Seq<char>>,
    forefront: bool,
    request: JsonView,
    key: Seq<char>,
    now: int,
)
    requires
        -i64::MAX <= now <= i64::MAX,
    ensures
        unique_key_of(request) is None <==> add_outcome(queue, seen, forefront, request, now)
            is Refused,
        unique_key_of(request) == Some(key) ==> {
            let handled = queue.requests.contains_key(key) && queue.requests[key].order_no is None;
            let known = queue.requests.contains_key(key) || seen.contains(key);
            let outcome = add_outcome(queue, seen, forefront, request, now);
            &&& outcome is Reported <==> handled || (known && !forefront)
            &&& outcome matches AddOutcome::Reported(report) ==> {
                &&& report.unique_key == key
                &&& report.request_id == request_id_of(key)
                &&& report.was_already_present
                &&& report.was_already_handled <==> handled
            }
            &&& outcome matches AddOutcome::Stored { unique_key, order_no, already_present } ==> {
                &&& unique_key == key
                &&& already_present <==> known
                &&& order_no is None <==> carries_handled_at(request)
                &&& order_no matches Some(n) ==> n == if forefront {
                    -now
                } else {
                    now
                }
            }
        },
{
}

/// What an added request does to the queue once it is written. It is in the index as it was
/// written. The forefront list changes only for a pending request that is for the forefront: its
/// key goes to the end, and what was there stays in order. A request that was there before is not
/// counted again. All else stays.
pub proof fn law_what_an_added_request_does_to_the_queue(
    queue: QueueView,
    pending: PendingView,
    i: int,
)
    ensures
        ({
            let after = pending.stored_in(queue);
            let key = pending.unique_key;
            let handled = pending.entry.order_no is None;
            let listed = pending.batch.forefront && !handled;
            let before_list = queue.metadata.forefront;
            let after_list = after.metadata.forefront;
            &&& after.requests.contains_key(key)
            &&& after.requests[key] == pending.entry
            &&& same_except(after.requests, queue.requests, key)
            &&& !listed ==> after_list == before_list
            &&& listed ==> {
                &&& after_list.len() == before_list.len() + 1
                &&& after_list[before_list.len() as int] == key
                &&& 0 <= i < before_list.len() ==> after_list[i] == before_list[i]
            }
            &&& pending.already_present ==> same_counts(after.metadata, queue.metadata)
            &&& !pending.already_present ==> {
                &&& after.metadata.total == queue.metadata.total + 1
                &&& handled ==> after.metadata.handled == queue.metadata.handled + 1
                    && after.metadata.pending == queue.metadata.pending
                &&& !handled ==> after.metadata.pending == queue.metadata.pending + 1
                    && after.metadata.handled == queue.metadata.handled
            }
            &&& same_identity(after.metadata, queue.metadata)
            &&& after.metadata.accessed_at == queue.metadata.accessed_at
            &&& after.metadata.modified_at == queue.metadata.modified_at
            &&& after.held_locks == queue.held_locks
            &&& after.insertion_counter == queue.insertion_counter
            &&& after.lock_millis == queue.lock_millis
        }),
{
}

/// What is left of a batch once a request of it is written: the request is seen and reported,
/// last, and the requests that are still to come are the same.
pub proof fn law_what_is_left_of_a_batch(pending: PendingView, key: Seq<char>, i: int)
    ensures
        ({
            let rest = pending.rest();
            let before = pending.batch.processed;
            &&& rest.remaining == pending.batch.remaining
            &&& rest.forefront == pending.batch.forefront
            &&& rest.seen.contains(key) <==> key == pending.unique_key
                || pending.batch.seen.contains(key)
            &&& rest.processed.len() == before.len() + 1
            &&& 0 <= i < before.len() ==> rest.processed[i] == before[i]
            &&& rest.processed[before.len() as int].unique_key == pending.unique_key
            &&& rest.processed[before.len() as int].request_id == request_id_of(pending.unique_key)
            &&& rest.processed[before.len() as int].was_already_present
                == pending.already_present
            &&& !rest.processed[before.len() as int].was_already_handled
        }),
{
}

/// The reports of these requests, each of which the queue or the batch has already.
pub open spec fn are_reports(
    queue: QueueView,
    requests: Seq<JsonView>,
    reports: Seq<ProcessedView>,
) -> bool {
    &&& reports.len() == requests.len()
    &&& forall|i: int|
        #![trigger requests[i]]
        #![trigger reports[i]]
        0 <= i < requests.len() ==> {
            let key = reports[i].unique_key;
            &&& unique_key_of(requests[i]) == Some(key)
            &&& reports[i].request_id == request_id_of(key)
            &&& reports[i].was_already_present
            &&& reports[i].was_already_handled <==> queue.requests.contains_key(key)
                && queue.requests[key].order_no is None
        }
}

/// The queue has the request as handled, or has it and it is not for the forefront.
pub open spec fn needs_no_write(queue: QueueView, batch: AddView, request: JsonView) -> bool {
    &&& unique_key_of(request) matches Some(key)
    &&& {
        ||| queue.requests.contains_key(key) && queue.requests[key].order_no is None
        ||| !batch.forefront && (queue.requests.contains_key(key) || batch.seen.contains(key))
    }
}

/// A step of a batch passes over the requests that need no write, `n` of them, with a report
/// each, and over no other. It ends with the batch, at a request without a key, or at the first
/// that has to be written, which leaves those behind it. That one is written with the queue's
/// id and an order number: none if it carries a handling time, and otherwise the time, with a
/// minus sign for the forefront.
pub proof fn law_how_far_a_step_gets(queue: QueueView, batch: AddView, now: int) -> (n: int)
    requires
        -i64::MAX <= now <= i64::MAX,
    ensures
        0 <= n <= batch.remaining.len(),
        forall|i: int|
            0 <= i < n ==> needs_no_write(queue, batch, #[trigger] batch.remaining[i]),
        n < batch.remaining.len() ==> !needs_no_write(queue, batch, batch.remaining[n]),
        n == batch.remaining.len() ==> (batch.step(queue, now) matches AddStepView::Finished(
            processed,
        ) && processed.len() == batch.processed.len() + n && processed.take(
            batch.processed.len() as int,
        ) == batch.processed && are_reports(
            queue,
            batch.remaining.take(n),
            processed.skip(batch.processed.len() as int),
        )),
        n < batch.remaining.len() && unique_key_of(batch.remaining[n]) is None ==> batch.step(
            queue,
            now,
        ) is Refused,
        n < batch.remaining.len() && unique_key_of(batch.remaining[n]) is Some ==> (batch.step(
            queue,
            now,
        ) matches AddStepView::Write(pending) && Some(pending.unique_key) == unique_key_of(
            batch.remaining[n],
        ) && pending.batch.remaining == batch.remaining.skip(n + 1) && pending.batch.forefront
            == batch.forefront && pending.batch.seen == batch.seen
            && pending.batch.processed.len() == batch.processed.len() + n
            && pending.batch.processed.take(batch.processed.len() as int) == batch.processed
            && are_reports(
            queue,
            batch.remaining.take(n),
            pending.batch.processed.skip(batch.processed.len() as int),
        ) && pending.entry.insertion_seq == queue.insertion_counter as u64
            && pending.already_present == (queue.requests.contains_key(pending.unique_key)
            || batch.seen.contains(pending.unique_key)) && pending.document == queued(
            batch.remaining[n],
            request_id_of(pending.unique_key),
            pending.entry.order_no,
        ) && (pending.entry.order_no is None <==> carries_handled_at(batch.remaining[n])) && (
        pending.entry.order_no matches Some(number) ==> number == if batch.forefront {
            -now
        } else {
            now
        })),
    decreases batch.remaining.len(),
{
    let done = batch.processed.len() as int;
    if batch.remaining.len() == 0 {
        assert(batch.processed.take(done) =~= batch.processed);
        0
    } else {
        match add_outcome(queue, batch.seen, batch.forefront, batch.remaining[0], now) {
            AddOutcome::Reported(report) => {
                let next = batch.reporting(report);
                let rest = batch.remaining.skip(1);
                assert(next.remaining == rest);
                let m = law_how_far_a_step_gets(queue, next, now);
                let n = m + 1;
                assert forall|i: int| 0 <= i < n implies needs_no_write(
                    queue,
                    batch,
                    #[trigger] batch.remaining[i],
                ) by {
                    if i > 0 {
                        assert(rest[i - 1] == batch.remaining[i]);
                        assert(needs_no_write(queue, next, rest[i - 1]));
                    }
                }
                if n < batch.remaining.len() {
                    assert(rest[m] == batch.remaining[n]);
                    assert(rest.skip(m + 1) =~= batch.remaining.skip(n + 1));
                }
                let processed = match next.step(queue, now) {
                    AddStepView::Finished(processed) => processed,
                    AddStepView::Write(pending) => pending.batch.processed,
                    AddStepView::Refused => Seq::empty(),
                };
                if !(next.step(queue, now) is Refused) {
                    assert(processed.take(done + 1) == next.processed);
                    assert(processed[done] == processed.take(done + 1)[done]);
                    assert(processed.take(done) =~= next.processed.take(done));
                    assert(next.processed.take(done) =~= batch.processed);
                    let reports = processed.skip(done);
                    let later = processed.skip(done + 1);
                    let passed = batch.remaining.take(n);
                    assert forall|i: int|
                        #![trigger passed[i]]
                        #![trigger reports[i]]
                        0 <= i < passed.len() implies {
                        let key = reports[i].unique_key;
                        &&& unique_key_of(passed[i]) == Some(key)
                        &&& reports[i].request_id == request_id_of(key)
                        &&& reports[i].was_already_present
                        &&& reports[i].was_already_handled <==> queue.requests.contains_key(key)
                            && queue.requests[key].order_no is None
                    } by {
                        if i > 0 {
                            assert(reports[i] == later[i - 1]);
                            assert(rest.take(m)[i - 1] == passed[i]);
                        } else {
                            assert(reports[0] == report);
                        }
                    }
                }
                n
            },
            _ => {
                assert(batch.processed.take(done) =~= batch.processed);
                0
            },
        }
    }
}

/// What a step of a batch does to the queue: nothing if it is refused, one more number is given
/// out if it writes, and both times are recorded at the end.
pub proof fn law_what_a_step_does_to_the_queue(
    queue: QueueView,
    pending: PendingView,
    processed: Seq<ProcessedView>,
    now: Timestamp,
)
    ensures
        after_step(queue, AddStepView::Refused, now) == queue,
        ({
            let after = after_step(queue, AddStepView::Write(pending), now);
            &&& after.insertion_counter == queue.insertion_counter + 1
            &&& after.requests == queue.requests
            &&& after.held_locks == queue.held_locks
            &&& after.metadata == queue.metadata
            &&& after.lock_millis == queue.lock_millis
            &&& after == numbering(queue)
        }),
        ({
            let after = after_step(queue, AddStepView::Finished(processed), now);
            &&& after.metadata.accessed_at == now
            &&& after.metadata.modified_at == now
            &&& after.metadata.forefront == queue.metadata.forefront
            &&& same_identity(after.metadata, queue.metadata)
            &&& same_counts(after.metadata, queue.metadata)
            &&& after.requests == queue.requests
            &&& after.held_locks == queue.held_locks
            &&& after.insertion_counter == queue.insertion_counter
            &&& after.lock_millis == queue.lock_millis
        }),
{
}

/// What the sight of a candidate's file does to the queue. A request whose file is gone leaves
/// the index, one that is handled or locked on file is so in the index, and nothing else changes.
pub proof fn law_what_a_sighting_does_to_the_queue(
    queue: QueueView,
    key: Seq<char>,
    seen: Sighting,
)
    ensures
        ({
            let after = after_sighting(queue, key, seen);
            &&& same_except(after.requests, queue.requests, key)
            &&& after.metadata == queue.metadata
            &&& after.held_locks == queue.held_locks
            &&& after.insertion_counter == queue.insertion_counter
            &&& after.lock_millis == queue.lock_millis
            &&& match seen {
                Sighting::Vanished => !after.requests.contains_key(key),
                Sighting::Unreadable => after.requests == queue.requests,
                Sighting::Free(_, _) => after.requests == queue.requests,
                Sighting::Handled => {
                    &&& after.requests.contains_key(key) <==> queue.requests.contains_key(key)
                    &&& queue.requests.contains_key(key) ==> {
                        &&& after.requests[key].order_no is None
                        &&& after.requests[key].insertion_seq
                            == queue.requests[key].insertion_seq
                    }
                },
                Sighting::Locked(n) => {
                    &&& after.requests.contains_key(key) <==> queue.requests.contains_key(key)
                    &&& queue.requests.contains_key(key) ==> {
                        &&& after.requests[key].order_no == Some(n)
                        &&& after.requests[key].insertion_seq
                            == queue.requests[key].insertion_seq
                    }
                },
            }
        }),
{
}

/// A scan goes on with the candidates behind the first, in order, at the same time. It stops with
/// a lock on the first exactly if that is free.
pub proof fn law_how_a_scan_goes_on(
    before: QueueView,
    after: QueueView,
    scan: FetchView,
    seen: Sighting,
    step: FetchStep,
    i: int,
)
    requires
        scan.keys.len() > 0,
    ensures
        scan.rest().now == scan.now,
        scan.rest().keys.len() == scan.keys.len() - 1,
        0 <= i < scan.keys.len() - 1 ==> scan.rest().keys[i] == scan.keys[i + 1],
        is_examined(before, after, scan, seen, step) ==> {
            &&& after == after_sighting(before, scan.keys[0], seen)
            &&& step is Lock <==> seen is Free
            &&& step matches FetchStep::Next(rest) ==> rest@.keys == scan.keys.skip(1) && rest@.now
                == scan.now
            &&& step matches FetchStep::Lock(lock) ==> {
                &&& lock@.unique_key == scan.keys[0]
                &&& seen == Sighting::Free(lock@.order_no, lock@.document)
            }
        },
{
    assert(scan.rest().keys =~= scan.keys.skip(1));
}

/// What the sight of a request file does to the queue when it is asked whether it is finished: a
/// request of the index that is settled on file is handled in the index, and nothing else
/// changes.
pub proof fn law_what_a_glance_does_to_the_queue(queue: QueueView, content: Option<Seq<char>>)
    ensures
        ({
            let after = after_glance(queue, content);
            &&& after.metadata == queue.metadata
            &&& after.held_locks == queue.held_locks
            &&& after.insertion_counter == queue.insertion_counter
            &&& after.lock_millis == queue.lock_millis
            &&& match settled_key(content) {
                None => after.requests == queue.requests,
                Some(key) => {
                    &&& same_except(after.requests, queue.requests, key)
                    &&& after.requests.contains_key(key) <==> queue.requests.contains_key(key)
                    &&& queue.requests.contains_key(key) ==> {
                        &&& after.requests[key].order_no is None
                        &&& after.requests[key].insertion_seq
                            == queue.requests[key].insertion_seq
                    }
                },
            }
        }),
{
}

/// What the queue makes of a request that a consumer is through with. It is unknown if neither a
/// file nor the index has it, and handled if the index says so; no lock plays a part.
pub proof fn law_where_a_request_stands(
    queue: QueueView,
    request: JsonView,
    file_exists: bool,
    key: Seq<char>,
)
    ensures
        unique_key_of(request) is None <==> standing(queue, request, file_exists) is Refused,
        unique_key_of(request) == Some(key) ==> {
            let indexed = queue.requests.contains_key(key);
            let handled = indexed && queue.requests[key].order_no is None;
            let found = standing(queue, request, file_exists);
            &&& !file_exists && !indexed ==> found == Standing::Unknown(key)
            &&& handled ==> found == Standing::Handled(key)
            &&& (file_exists || indexed) && !handled ==> found == Standing::Open(key)
        },
{
}

/// A request that needs no write when it is settled loses its lock, and nothing else changes.
pub proof fn law_what_a_standing_does_to_the_queue(queue: QueueView, found: Standing)
    ensures
        ({
            let after = after_standing(queue, found);
            &&& after.requests == queue.requests
            &&& after.metadata == queue.metadata
            &&& after.insertion_counter == queue.insertion_counter
            &&& after.lock_millis == queue.lock_millis
            &&& match found {
                Standing::Refused => after.held_locks == queue.held_locks,
                Standing::Open(_) => after.held_locks == queue.held_locks,
                Standing::Unknown(key) => {
                    &&& !after.held_locks.contains_key(request_id_of(key))
                    &&& same_except(after.held_locks, queue.held_locks, request_id_of(key))
                },
                Standing::Handled(key) => {
                    &&& !after.held_locks.contains_key(request_id_of(key))
                    &&& same_except(after.held_locks, queue.held_locks, request_id_of(key))
                },
            }
        }),
{
}

/// What is reported of a request that is settled.
pub proof fn law_what_is_reported_of_a_settled_request(key: Seq<char>, handled: bool)
    ensures
        settled_report(key, handled).unique_key == key,
        settled_report(key, handled).request_id == request_id_of(key),
        settled_report(key, handled).was_already_present,
        settled_report(key, handled).was_already_handled == handled,
{
}

/// What marking a request does to the queue. It is handled in the index and keeps its place
/// there, its lock is given up, it moves from one count to the other, both times are recorded,
/// and all else stays.
pub proof fn law_what_marking_does_to_the_queue(queue: QueueView, mark: MarkView)
    ensures
        ({
            let after = mark.recorded_in(queue);
            let key = mark.unique_key;
            let id = request_id_of(key);
            &&& after.requests.contains_key(key)
            &&& after.requests[key].order_no is None
            &&& queue.requests.contains_key(key) ==> after.requests[key].insertion_seq
                == queue.requests[key].insertion_seq
            &&& !queue.requests.contains_key(key) ==> after.requests[key].insertion_seq == 0
            &&& same_except(after.requests, queue.requests, key)
            &&& !after.held_locks.contains_key(id)
            &&& same_except(after.held_locks, queue.held_locks, id)
            &&& after.metadata.handled == queue.metadata.handled + 1
            &&& queue.metadata.pending > 0 ==> after.metadata.pending == queue.metadata.pending - 1
            &&& queue.metadata.pending <= 0 ==> after.metadata.pending == 0
            &&& after.metadata.total == queue.metadata.total
            &&& after.metadata.accessed_at == mark.now
            &&& after.metadata.modified_at == mark.now
            &&& same_identity(after.metadata, queue.metadata)
            &&& after.insertion_counter == queue.insertion_counter
            &&& after.lock_millis == queue.lock_millis
        }),
{
}

/// What returning a request does to the queue. It is pending in the index under its new order
/// number and keeps its place there, or is given the next number if it had none. Its lock is
/// given up. The forefront list stays as it is, with the key at the end only where the request is
/// returned to the forefront and was missing. Both times are recorded, and all else stays.
pub proof fn law_what_reclaiming_does_to_the_queue(
    queue: QueueView,
    reclaim: ReclaimView,
    now: Timestamp,
    i: int,
)
    ensures
        ({
            let after = reclaim.recorded_in(queue, now);
            let key = reclaim.unique_key;
            let id = request_id_of(key);
            let indexed = queue.requests.contains_key(key);
            let before_list = queue.metadata.forefront;
            let after_list = after.metadata.forefront;
            let listed = reclaim.forefront && !before_list.contains(key);
            &&& after.requests.contains_key(key)
            &&& after.requests[key].order_no == Some(reclaim.order_no)
            &&& indexed ==> {
                &&& after.requests[key].insertion_seq == queue.requests[key].insertion_seq
                &&& after.insertion_counter == queue.insertion_counter
            }
            &&& !indexed ==> {
                &&& after.requests[key].insertion_seq == queue.insertion_counter as u64
                &&& after.insertion_counter == queue.insertion_counter + 1
            }
            &&& same_except(after.requests, queue.requests, key)
            &&& !after.held_locks.contains_key(id)
            &&& same_except(after.held_locks, queue.held_locks, id)
            &&& !listed ==> after_list == before_list
            &&& listed ==> {
                &&& after_list.len() == before_list.len() + 1
                &&& after_list[before_list.len() as int] == key
                &&& 0 <= i < before_list.len() ==> after_list[i] == before_list[i]
            }
            &&& reclaim.forefront ==> after_list.contains(key)
            &&& same_counts(after.metadata, queue.metadata)
            &&& after.metadata.accessed_at == now
            &&& after.metadata.modified_at == now
            &&& same_identity(after.metadata, queue.metadata)
            &&& after.lock_millis == queue.lock_millis
        }),
{
    let after_list = reclaim.recorded_in(queue, now).metadata.forefront;
    if reclaim.forefront && !queue.metadata.forefront.contains(reclaim.unique_key) {
        assert(after_list[queue.metadata.forefront.len() as int] == reclaim.unique_key);
    }
}

/// What the sight of a held lock's file does to the queue. A lock that is lost is given up, and
/// the index follows the file; otherwise nothing changes.
pub proof fn law_what_seeing_a_lock_does_to_the_queue(
    queue: QueueView,
    scan: ProlongView,
    state: LockState,
)
    ensures
        ({
            let after = scan.after_seeing(queue, state);
            let key = scan.held.unique_key;
            &&& after.metadata == queue.metadata
            &&& after.insertion_counter == queue.insertion_counter
            &&& after.lock_millis == queue.lock_millis
            &&& match state {
                LockState::Vanished => {
                    &&& !after.requests.contains_key(key)
                    &&& same_except(after.requests, queue.requests, key)
                    &&& !after.held_locks.contains_key(scan.request_id)
                    &&& same_except(after.held_locks, queue.held_locks, scan.request_id)
                },
                LockState::Lost(order_no) => {
                    &&& after.requests.contains_key(key) <==> queue.requests.contains_key(key)
                    &&& queue.requests.contains_key(key) ==> {
                        &&& after.requests[key].order_no == order_no
                        &&& after.requests[key].insertion_seq
                            == queue.requests[key].insertion_seq
                    }
                    &&& same_except(after.requests, queue.requests, key)
                    &&& !after.held_locks.contains_key(scan.request_id)
                    &&& same_except(after.held_locks, queue.held_locks, scan.request_id)
                },
                _ => after.requests == queue.requests && after.held_locks == queue.held_locks,
            }
        }),
{
}

/// What extending a lock does to the queue. The index and the held lock have the new order
/// number, the access is recorded, and all else stays.
pub proof fn law_what_prolonging_does_to_the_queue(
    queue: QueueView,
    extension: ExtensionView,
    now: Timestamp,
)
    ensures
        ({
            let after = extension.recorded_in(queue, now);
            let key = extension.held.unique_key;
            &&& after.requests.contains_key(key) <==> queue.requests.contains_key(key)
            &&& queue.requests.contains_key(key) ==> {
                &&& after.requests[key].order_no == Some(extension.held.order_no)
                &&& after.requests[key].insertion_seq == queue.requests[key].insertion_seq
            }
            &&& same_except(after.requests, queue.requests, key)
            &&& after.held_locks.contains_key(extension.request_id)
            &&& after.held_locks[extension.request_id].unique_key == key
            &&& after.held_locks[extension.request_id].order_no == extension.held.order_no
            &&& same_except(after.held_locks, queue.held_locks, extension.request_id)
            &&& after.metadata.accessed_at == now
            &&& after.metadata.modified_at == queue.metadata.modified_at
            &&& after.metadata.forefront == queue.metadata.forefront
            &&& same_identity(after.metadata, queue.metadata)
            &&& same_counts(after.metadata, queue.metadata)
            &&& after.insertion_counter == queue.insertion_counter
            &&& after.lock_millis == queue.lock_millis
        }),
{
}

/// What purging does to the queue: no request, lock, forefront key or count is left, numbers start
/// anew, both times are recorded, and the queue is otherwise the same.
pub proof fn law_what_purging_does_to_the_queue(
    queue: QueueView,
    now: Timestamp,
    key: Seq<char>,
)
    ensures
        ({
            let after = queue.purged(now);
            &&& !after.requests.contains_key(key)
            &&& !after.held_locks.contains_key(key)
            &&& after.metadata.forefront.len() == 0
            &&& after.metadata.handled == 0
            &&& after.metadata.pending == 0
            &&& after.metadata.total == 0
            &&& after.metadata.accessed_at == now
            &&& after.metadata.modified_at == now
            &&& same_identity(after.metadata, queue.metadata)
            &&& after.insertion_counter == 0
            &&& after.lock_millis == queue.lock_millis
        }),
{
}

/// What dropping the storage does to the queue: no request and no lock is left, and all else
/// stays.
pub proof fn law_what_dropping_does_to_the_queue(queue: QueueView, key: Seq<char>)
    ensures
        !queue.dropped().requests.contains_key(key),
        !queue.dropped().held_locks.contains_key(key),
        queue.dropped().metadata == queue.metadata,
        queue.dropped().insertion_counter == queue.insertion_counter,
        queue.dropped().lock_millis == queue.lock_millis,
{
}

/// What a request file does to an index in the making. A request that is found is indexed under
/// the next number, in place of what was there, and counts as handled or as pending. All else
/// stays, and one file less is left.
pub proof fn law_what_a_file_does_to_the_index(
    rebuild: RebuildView,
    content: Option<Seq<char>>,
    i: int,
)
    requires
        rebuild.files.len() > 0,
    ensures
        ({
            let after = rebuild.with_file(content);
            &&& after.files.len() == rebuild.files.len() - 1
            &&& 0 <= i < after.files.len() ==> after.files[i] == rebuild.files[i + 1]
            &&& after.metadata == rebuild.metadata
            &&& after.now == rebuild.now
            &&& after.assume_sole_owner == rebuild.assume_sole_owner
            &&& match finding(content, rebuild.now, rebuild.assume_sole_owner) {
                Finding::Nothing => {
                    &&& after.requests == rebuild.requests
                    &&& after.seq == rebuild.seq
                    &&& after.handled == rebuild.handled
                    &&& after.pending == rebuild.pending
                },
                Finding::Request(key, order_no, _) => {
                    &&& after.requests.contains_key(key)
                    &&& after.requests[key].order_no == order_no
                    &&& after.requests[key].insertion_seq == rebuild.seq as u64
                    &&& same_except(after.requests, rebuild.requests, key)
                    &&& after.seq == rebuild.seq + 1
                    &&& order_no is None ==> after.handled == rebuild.handled + 1 && after.pending
                        == rebuild.pending
                    &&& order_no is Some ==> after.pending == rebuild.pending + 1 && after.handled
                        == rebuild.handled
                },
            }
        }),
{
}

/// An index in the making starts with nothing found, and a queue that is opened has what was
/// found, no lock, and a lock time of three minutes.
pub proof fn law_what_opening_starts_and_ends_with(
    files: Seq<Seq<char>>,
    metadata: MetadataView,
    now: int,
    assume_sole_owner: bool,
    rebuild: RebuildView,
    key: Seq<char>,
)
    ensures
        ({
            let start = empty_index(files, metadata, now, assume_sole_owner);
            &&& start.files == files
            &&& start.metadata == metadata
            &&& !start.requests.contains_key(key)
            &&& start.seq == 0
            &&& start.handled == 0
            &&& start.pending == 0
            &&& start.now == now
            &&& start.assume_sole_owner == assume_sole_owner
        }),
        ({
            let opened = rebuild.finished();
            &&& opened.requests == rebuild.requests
            &&& !opened.held_locks.contains_key(key)
            &&& opened.insertion_counter == rebuild.seq
            &&& opened.lock_millis == 3 * 60 * 1000
            &&& opened.metadata.handled == rebuild.handled
            &&& opened.metadata.pending == rebuild.pending
            &&& opened.metadata.total == rebuild.handled + rebuild.pending
            &&& opened.metadata.accessed_at == rebuild.metadata.accessed_at
            &&& opened.metadata.modified_at == rebuild.metadata.modified_at
            &&& same_identity(opened.metadata, rebuild.metadata)
        }),
{
}

/// The lock time becomes the hint if that is longer, and stays as it is if not.
pub proof fn law_what_a_hint_does_to_the_lock_time(lock_millis: int, hint: int)
    ensures
        hint > lock_millis ==> raised(lock_millis, hint) == hint,
        hint <= lock_millis ==> raised(lock_millis, hint) == lock_millis,
{
}

} // verus!
