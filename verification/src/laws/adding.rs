//! Laws on adding requests.
use vstd::prelude::*;

use crate::add::{
    add_outcome, after_step, numbering, AddOutcome, AddStepView, AddView, PendingView,
};
use crate::candidates::{forefront_candidates, is_candidate_order};
use crate::clock::Timestamp;
use crate::ids::request_id_of;
use crate::json::JsonView;
use crate::laws::documents::lemma_names_differ;
use crate::models::ProcessedView;
use crate::order::order_number;
use crate::request::{order_no_of, unique_key_of};
use crate::state::QueueView;

verus! {

/// The queue after a whole batch at `now`, and what is reported. `None`: the batch was refused,
/// at the first request without a unique key.
pub open spec fn run(queue: QueueView, batch: AddView, now: Timestamp) -> (
    QueueView,
    Option<Seq<ProcessedView>>,
)
    decreases batch.remaining.len(),
{
    if batch.remaining.len() == 0 {
        (queue.modified(now), Some(batch.processed))
    } else {
        match add_outcome(
            queue,
            batch.seen,
            batch.forefront,
            batch.remaining[0],
            now.spec_millis(),
        ) {
            AddOutcome::Refused => (queue, None),
            AddOutcome::Reported(processed) => run(queue, batch.reporting(processed), now),
            AddOutcome::Stored { unique_key, order_no, already_present } => {
                let pending = batch.storing(queue, unique_key, order_no, already_present);
                run(pending.stored_in(numbering(queue)), pending.rest(), now)
            },
        }
    }
}

/// A batch that nothing has been taken from.
pub open spec fn fresh_batch(requests: Seq<JsonView>, forefront: bool) -> AddView {
    AddView { remaining: requests, forefront, seen: Set::empty(), processed: Seq::empty() }
}

/// A batch is the sequence of its steps, with each file written in between.
pub proof fn law_batch_is_its_steps(queue: QueueView, batch: AddView, now: Timestamp)
    ensures
        run(queue, batch, now) == match batch.step(queue, now.spec_millis()) {
            AddStepView::Refused => (queue, None),
            AddStepView::Write(pending) => run(
                pending.stored_in(after_step(queue, AddStepView::Write(pending), now)),
                pending.rest(),
                now,
            ),
            AddStepView::Finished(processed) => (queue.modified(now), Some(processed)),
        },
    decreases batch.remaining.len(),
{
    if batch.remaining.len() > 0 {
        match add_outcome(
            queue,
            batch.seen,
            batch.forefront,
            batch.remaining[0],
            now.spec_millis(),
        ) {
            AddOutcome::Reported(processed) => {
                law_batch_is_its_steps(queue, batch.reporting(processed), now);
            },
            _ => {},
        }
    }
}

/// A batch needs a number for its next step exactly when that step writes a request.
pub proof fn law_only_writing_needs_a_number(queue: QueueView, batch: AddView, now: int)
    ensures
        batch.needs_number(queue) <==> batch.step(queue, now) is Write,
    decreases batch.remaining.len(),
{
    if batch.remaining.len() > 0 {
        match add_outcome(queue, batch.seen, batch.forefront, batch.remaining[0], now) {
            AddOutcome::Reported(processed) => {
                let next = batch.reporting(processed);
                law_only_writing_needs_a_number(queue, next, now);
                lemma_reports_need_no_number(queue, next, batch.processed);
            },
            _ => {},
        }
    }
}

proof fn lemma_reports_need_no_number(
    queue: QueueView,
    batch: AddView,
    processed: Seq<ProcessedView>,
)
    ensures
        batch.needs_number(queue) == (AddView { processed, ..batch }).needs_number(queue),
    decreases batch.remaining.len(),
{
    if batch.remaining.len() > 0 {
        lemma_reports_need_no_number(
            queue,
            AddView { remaining: batch.remaining.skip(1), ..batch },
            processed,
        );
    }
}

/// A batch is refused exactly when one of its requests has no unique key.
pub proof fn law_batch_is_refused_for_a_missing_key(
    queue: QueueView,
    batch: AddView,
    now: Timestamp,
)
    ensures
        run(queue, batch, now).1 is None <==> exists|i: int|
            0 <= i < batch.remaining.len() && unique_key_of(#[trigger] batch.remaining[i]) is None,
    decreases batch.remaining.len(),
{
    if batch.remaining.len() > 0 {
        let rest = batch.remaining.skip(1);
        match add_outcome(
            queue,
            batch.seen,
            batch.forefront,
            batch.remaining[0],
            now.spec_millis(),
        ) {
            AddOutcome::Refused => {
                assert(unique_key_of(batch.remaining[0]) is None);
            },
            AddOutcome::Reported(processed) => {
                law_batch_is_refused_for_a_missing_key(queue, batch.reporting(processed), now);
                assert(batch.reporting(processed).remaining == rest);
                lemma_missing_key_is_further_on(batch.remaining);
            },
            AddOutcome::Stored { unique_key, order_no, already_present } => {
                let pending = batch.storing(queue, unique_key, order_no, already_present);
                law_batch_is_refused_for_a_missing_key(
                    pending.stored_in(numbering(queue)),
                    pending.rest(),
                    now,
                );
                assert(pending.rest().remaining == rest);
                lemma_missing_key_is_further_on(batch.remaining);
            },
        }
    }
}

proof fn lemma_missing_key_is_further_on(requests: Seq<JsonView>)
    requires
        requests.len() > 0,
        unique_key_of(requests[0]) is Some,
    ensures
        (exists|i: int| 0 <= i < requests.len() && unique_key_of(#[trigger] requests[i]) is None)
            <==> (exists|i: int|
            0 <= i < requests.skip(1).len() && unique_key_of(#[trigger] requests.skip(1)[i])
                is None),
{
    let rest = requests.skip(1);
    if exists|i: int| 0 <= i < requests.len() && unique_key_of(#[trigger] requests[i]) is None {
        let i = choose|i: int|
            0 <= i < requests.len() && unique_key_of(#[trigger] requests[i]) is None;
        assert(rest[i - 1] == requests[i]);
    }
    if exists|i: int| 0 <= i < rest.len() && unique_key_of(#[trigger] rest[i]) is None {
        let i = choose|i: int| 0 <= i < rest.len() && unique_key_of(#[trigger] rest[i]) is None;
        assert(requests[i + 1] == rest[i]);
    }
}

proof fn lemma_batch_takes_every_request(queue: QueueView, batch: AddView, now: Timestamp)
    requires
        run(queue, batch, now).1 is Some,
        forall|key: Seq<char>| #[trigger]
            batch.seen.contains(key) ==> queue.requests.contains_key(key),
    ensures
        forall|i: int|
            0 <= i < batch.remaining.len() ==> {
                &&& unique_key_of(#[trigger] batch.remaining[i]) matches Some(key)
                &&& run(queue, batch, now).0.requests.contains_key(key)
                &&& run(queue, batch, now).1->0[batch.processed.len() + i].unique_key == key
                &&& run(queue, batch, now).1->0[batch.processed.len() + i].request_id
                    == request_id_of(key)
            },
        forall|key: Seq<char>|
            queue.requests.contains_key(key) ==> #[trigger] run(
                queue,
                batch,
                now,
            ).0.requests.contains_key(key),
        run(queue, batch, now).1->0.len() == batch.processed.len() + batch.remaining.len(),
        run(queue, batch, now).1->0.take(batch.processed.len() as int) == batch.processed,
    decreases batch.remaining.len(),
{
    let result = run(queue, batch, now);
    if batch.remaining.len() == 0 {
        assert(batch.processed.take(batch.processed.len() as int) =~= batch.processed);
    } else {
        let done = batch.processed.len() as int;
        let (next_queue, next_batch) = match add_outcome(
            queue,
            batch.seen,
            batch.forefront,
            batch.remaining[0],
            now.spec_millis(),
        ) {
            AddOutcome::Refused => (queue, batch),
            AddOutcome::Reported(processed) => (queue, batch.reporting(processed)),
            AddOutcome::Stored { unique_key, order_no, already_present } => {
                let pending = batch.storing(queue, unique_key, order_no, already_present);
                (pending.stored_in(numbering(queue)), pending.rest())
            },
        };
        lemma_batch_takes_every_request(next_queue, next_batch, now);
        let lines = result.1->0;
        assert(lines[done] == lines.take(done + 1)[done]);
        assert(lines.take(done) =~= lines.take(done + 1).take(done));
        assert(next_batch.processed.take(done) =~= batch.processed);
        let first = unique_key_of(batch.remaining[0])->0;
        assert(next_queue.requests.contains_key(first));
        assert forall|i: int| 0 <= i < batch.remaining.len() implies {
            &&& unique_key_of(#[trigger] batch.remaining[i]) matches Some(key)
            &&& result.0.requests.contains_key(key)
            &&& lines[done + i].unique_key == key
            &&& lines[done + i].request_id == request_id_of(key)
        } by {
            if i > 0 {
                assert(batch.remaining[i] == next_batch.remaining[i - 1]);
            }
        }
    }
}

/// After a batch every one of its requests is in the index, next to those that were there. The
/// report has one line for each request, in order.
pub proof fn law_batch_takes_every_request(
    queue: QueueView,
    requests: Seq<JsonView>,
    forefront: bool,
    now: Timestamp,
)
    requires
        run(queue, fresh_batch(requests, forefront), now).1 is Some,
    ensures
        ({
            let (after, report) = run(queue, fresh_batch(requests, forefront), now);
            &&& report->0.len() == requests.len()
            &&& forall|i: int|
                0 <= i < requests.len() ==> {
                    &&& unique_key_of(#[trigger] requests[i]) matches Some(key)
                    &&& after.requests.contains_key(key)
                    &&& report->0[i].unique_key == key
                    &&& report->0[i].request_id == request_id_of(key)
                }
            &&& forall|key: Seq<char>|
                queue.requests.contains_key(key) ==> #[trigger] after.requests.contains_key(key)
        }),
{
    lemma_batch_takes_every_request(queue, fresh_batch(requests, forefront), now);
}

/// What is reported of requests that the queue has.
pub open spec fn present_report(queue: QueueView, requests: Seq<JsonView>) -> Seq<ProcessedView> {
    requests.map_values(
        |request: JsonView|
            {
                let key = unique_key_of(request)->0;
                ProcessedView {
                    request_id: request_id_of(key),
                    unique_key: key,
                    was_already_present: true,
                    was_already_handled: queue.is_handled(key),
                }
            },
    )
}

proof fn lemma_known_batch_is_reported(queue: QueueView, batch: AddView, now: Timestamp)
    requires
        !batch.forefront,
        forall|i: int|
            0 <= i < batch.remaining.len() ==> {
                &&& unique_key_of(#[trigger] batch.remaining[i]) matches Some(key)
                &&& queue.requests.contains_key(key)
            },
    ensures
        run(queue, batch, now) == (
            queue.modified(now),
            Some(batch.processed + present_report(queue, batch.remaining)),
        ),
    decreases batch.remaining.len(),
{
    let reports = present_report(queue, batch.remaining);
    if batch.remaining.len() == 0 {
        assert(batch.processed + reports =~= batch.processed);
    } else {
        let next = batch.reporting(reports[0]);
        assert forall|i: int| 0 <= i < next.remaining.len() implies {
            &&& unique_key_of(#[trigger] next.remaining[i]) matches Some(key)
            &&& queue.requests.contains_key(key)
        } by {
            assert(next.remaining[i] == batch.remaining[i + 1]);
        }
        lemma_known_batch_is_reported(queue, next, now);
        assert(next.processed + present_report(queue, next.remaining) =~= batch.processed
            + reports);
    }
}

/// Adding requests that the queue has, other than to the forefront, changes nothing but the
/// times, and reports each of them as present.
pub proof fn law_adding_again_changes_nothing(
    queue: QueueView,
    requests: Seq<JsonView>,
    now: Timestamp,
)
    requires
        forall|i: int|
            0 <= i < requests.len() ==> {
                &&& unique_key_of(#[trigger] requests[i]) matches Some(key)
                &&& queue.requests.contains_key(key)
            },
    ensures
        run(queue, fresh_batch(requests, false), now) == (
            queue.modified(now),
            Some(present_report(queue, requests)),
        ),
{
    lemma_known_batch_is_reported(queue, fresh_batch(requests, false), now);
    assert(Seq::<ProcessedView>::empty() + present_report(queue, requests) =~= present_report(
        queue,
        requests,
    ));
}

/// A batch that was added can be added again, other than to the forefront, and only the times
/// change.
pub proof fn law_adding_is_idempotent(
    queue: QueueView,
    requests: Seq<JsonView>,
    forefront: bool,
    first: Timestamp,
    second: Timestamp,
)
    requires
        run(queue, fresh_batch(requests, forefront), first).1 is Some,
    ensures
        ({
            let added = run(queue, fresh_batch(requests, forefront), first).0;
            run(added, fresh_batch(requests, false), second) == (
                added.modified(second),
                Some(present_report(added, requests)),
            )
        }),
{
    law_batch_takes_every_request(queue, requests, forefront, first);
    law_adding_again_changes_nothing(
        run(queue, fresh_batch(requests, forefront), first).0,
        requests,
        second,
    );
}

/// The request that a batch is about to write, if any, at `now`.
pub open spec fn about_to_write(
    queue: QueueView,
    batch: AddView,
    now: int,
    pending: PendingView,
) -> bool {
    batch.step(queue, now) == AddStepView::Write(pending)
}

/// What is known of a request that is about to be written.
pub(crate) proof fn lemma_what_is_written(queue: QueueView, batch: AddView, now: int, pending: PendingView)
    requires
        about_to_write(queue, batch, now, pending),
    ensures
        pending.entry.order_no matches Some(n) ==> n == order_number(now, batch.forefront) as i64,
        pending.entry.insertion_seq == queue.insertion_counter as u64,
        pending.batch.forefront == batch.forefront,
        pending.batch.seen == batch.seen,
        !queue.is_handled(pending.unique_key),
        pending.already_present <==> queue.requests.contains_key(pending.unique_key)
            || batch.seen.contains(pending.unique_key),
        unique_key_of(pending.document) == Some(pending.unique_key),
        order_no_of(pending.document) == pending.entry.order_no,
    decreases batch.remaining.len(),
{
    if batch.remaining.len() > 0 {
        match add_outcome(queue, batch.seen, batch.forefront, batch.remaining[0], now) {
            AddOutcome::Reported(processed) => {
                lemma_what_is_written(queue, batch.reporting(processed), now, pending);
            },
            _ => {
                lemma_names_differ();
            },
        }
    }
}

/// A request that was added can be fetched at once, and from then on, unless it was added as
/// handled: then it never can.
pub proof fn law_added_request_can_be_fetched(
    queue: QueueView,
    batch: AddView,
    now: Timestamp,
    later: int,
    pending: PendingView,
)
    requires
        about_to_write(queue, batch, now.spec_millis(), pending),
        0 <= now.spec_millis() <= later,
        now.spec_millis() <= i64::MAX,
    ensures
        pending.stored_in(queue).is_fetchable(pending.unique_key, later)
            <==> pending.entry.order_no is Some,
{
    lemma_what_is_written(queue, batch, now.spec_millis(), pending);
}

/// A request that is added to the forefront is the next to be fetched.
pub proof fn law_forefront_request_is_next(
    queue: QueueView,
    batch: AddView,
    now: Timestamp,
    later: int,
    pending: PendingView,
    keys: Seq<Seq<char>>,
)
    requires
        about_to_write(queue, batch, now.spec_millis(), pending),
        batch.forefront,
        pending.entry.order_no is Some,
        0 <= now.spec_millis() <= later,
        now.spec_millis() <= i64::MAX,
        is_candidate_order(pending.stored_in(queue), later, keys),
    ensures
        keys.len() > 0,
        keys[0] == pending.unique_key,
{
    lemma_what_is_written(queue, batch, now.spec_millis(), pending);
    law_added_request_can_be_fetched(queue, batch, now, later, pending);
    let after = pending.stored_in(queue);
    let list = after.metadata.forefront;
    assert(list.last() == pending.unique_key);
    let front = forefront_candidates(after, later);
    assert(front[0] == pending.unique_key);
    assert(keys[0] == keys.take(front.len() as int)[0]);
}

/// A request that is added as handled does not enter the forefront list.
pub proof fn law_handled_request_never_enters_the_forefront(
    queue: QueueView,
    pending: PendingView,
)
    requires
        pending.entry.order_no is None,
    ensures
        pending.stored_in(queue).metadata.forefront == queue.metadata.forefront,
        pending.stored_in(queue).is_handled(pending.unique_key),
{
}

} // verus!
