//! Laws on sequences of operations.
use vstd::prelude::*;

use crate::add::{add_outcome, numbering, AddOutcome, AddView};
use crate::candidates::is_candidate_order;
use crate::clock::Timestamp;
use crate::fetch::after_sighting;
use crate::finish::after_glance;
use crate::ids::request_id_of;
use crate::json::JsonView;
use crate::laws::adding::{fresh_batch, run};
use crate::laws::fetching::{
    content_of, empty_scan, file_shows, law_candidates_are_the_fetchable, scan,
};
use crate::laws::finishing::finish_scan;
use crate::models::ProcessedView;
use crate::order::order_number;
use crate::prolong::{ExtensionView, LockState, ProlongView};
use crate::request::unique_key_of;
use crate::settle::{
    after_standing, handled_document, returned_document, standing, MarkView, ReclaimView, Standing,
};
use crate::state::{raised, HeldView, QueueView};

verus! {

/// An operation of a client, with what it finds on file and the times at which it is made. A
/// queue that is purged or dropped starts anew, and so neither is among these.
pub enum Operation {
    Add { requests: Seq<JsonView>, forefront: bool, now: Timestamp },
    Get { now: Timestamp },
    Fetch {
        keys: Seq<Seq<char>>,
        at: int,
        files: Map<Seq<char>, Seq<char>>,
        recorded: Timestamp,
    },
    IsEmpty { keys: Seq<Seq<char>>, now: Timestamp, files: Map<Seq<char>, Seq<char>> },
    IsFinished { names: Seq<Seq<char>>, files: Map<Seq<char>, Seq<char>> },
    Mark { request: JsonView, file_exists: bool, now: Timestamp },
    Reclaim {
        request: JsonView,
        forefront: bool,
        file_exists: bool,
        now: Timestamp,
        recorded: Timestamp,
    },
    Prolong {
        request_id: Seq<char>,
        extension: int,
        content: Option<Seq<char>>,
        at: int,
        recorded: Timestamp,
    },
    ExpectProcessingTime { millis: int },
    PersistState,
}

impl Operation {
    /// The operation can be made of this queue: what is tried are its candidates.
    pub open spec fn is_made_of(self, queue: QueueView) -> bool {
        match self {
            Operation::Fetch { keys, at, .. } => is_candidate_order(queue, at, keys),
            Operation::IsEmpty { keys, now, .. } => is_candidate_order(
                queue,
                now.spec_millis(),
                keys,
            ),
            _ => true,
        }
    }

    /// The queue after the operation, once every file that it writes is written.
    pub open spec fn after(self, queue: QueueView) -> QueueView {
        match self {
            Operation::Add { requests, forefront, now } => run(
                queue,
                fresh_batch(requests, forefront),
                now,
            ).0,
            Operation::Get { now } => queue.accessed(now),
            Operation::Fetch { keys, at, files, recorded } => {
                let (seen, found) = scan(queue, keys, at, files);
                match found {
                    None => seen,
                    Some(lock) => seen.with_order(
                        lock.unique_key,
                        Some(lock.order_no),
                    ).accessed(recorded).holding(
                        request_id_of(lock.unique_key),
                        HeldView { unique_key: lock.unique_key, order_no: lock.order_no },
                    ),
                }
            },
            Operation::IsEmpty { keys, now, files } => empty_scan(
                queue.accessed(now),
                keys,
                now.spec_millis(),
                files,
            ).0,
            Operation::IsFinished { names, files } => finish_scan(queue, names, files).0,
            Operation::Mark { request, file_exists, now } => match standing(
                queue,
                request,
                file_exists,
            ) {
                Standing::Open(unique_key) => MarkView {
                    unique_key,
                    now,
                    document: handled_document(request, unique_key, now),
                }.recorded_in(queue),
                found => after_standing(queue, found),
            },
            Operation::Reclaim { request, forefront, file_exists, now, recorded } => match standing(
                queue,
                request,
                file_exists,
            ) {
                Standing::Open(unique_key) => {
                    let order_no = order_number(now.spec_millis(), forefront) as i64;
                    ReclaimView {
                        unique_key,
                        forefront,
                        order_no,
                        document: returned_document(request, unique_key, order_no),
                    }.recorded_in(queue, recorded)
                },
                found => after_standing(queue, found),
            },
            Operation::Prolong { request_id, extension, content, at, recorded } => {
                if extension <= 0 || !queue.held_locks.contains_key(request_id) {
                    queue
                } else {
                    let held = queue.held_locks[request_id];
                    let scan = ProlongView { request_id, held, extension };
                    let state = scan.lock_state(content, at);
                    match state {
                        LockState::Extended(order_no, document) => ExtensionView {
                            request_id,
                            held: HeldView { unique_key: held.unique_key, order_no },
                            document,
                        }.recorded_in(queue, recorded),
                        _ => scan.after_seeing(queue, state),
                    }
                }
            },
            Operation::ExpectProcessingTime { millis } => QueueView {
                lock_millis: raised(queue.lock_millis, millis),
                ..queue
            },
            Operation::PersistState => queue,
        }
    }
}

/// The queue after a sequence of operations.
pub open spec fn after_all(queue: QueueView, operations: Seq<Operation>) -> QueueView
    decreases operations.len(),
{
    if operations.len() == 0 {
        queue
    } else {
        operations.last().after(after_all(queue, operations.drop_last()))
    }
}

/// Each of the operations can be made of the queue that those before it leave.
pub open spec fn are_made_of(queue: QueueView, operations: Seq<Operation>) -> bool
    decreases operations.len(),
{
    operations.len() == 0 || {
        &&& are_made_of(queue, operations.drop_last())
        &&& operations.last().is_made_of(after_all(queue, operations.drop_last()))
    }
}

/// Each lock is held under the id of its request.
pub open spec fn locks_are_filed(queue: QueueView) -> bool {
    forall|id: Seq<char>| #[trigger]
        queue.held_locks.contains_key(id) ==> id == request_id_of(queue.held_locks[id].unique_key)
}

/// The request is handled, and the client holds no lock on it.
pub open spec fn is_done(queue: QueueView, key: Seq<char>) -> bool {
    &&& queue.is_handled(key)
    &&& forall|id: Seq<char>| #[trigger]
        queue.held_locks.contains_key(id) ==> queue.held_locks[id].unique_key != key
}

proof fn lemma_run_spares_the_handled(
    queue: QueueView,
    batch: AddView,
    now: Timestamp,
    key: Seq<char>,
)
    requires
        queue.is_handled(key),
    ensures
        run(queue, batch, now).0.is_handled(key),
    decreases batch.remaining.len(),
{
    if batch.remaining.len() > 0 {
        let millis = now.spec_millis();
        match add_outcome(queue, batch.seen, batch.forefront, batch.remaining[0], millis) {
            AddOutcome::Refused => {},
            AddOutcome::Reported(processed) => {
                lemma_run_spares_the_handled(queue, batch.reporting(processed), now, key);
            },
            AddOutcome::Stored { unique_key, order_no, already_present } => {
                let pending = batch.storing(queue, unique_key, order_no, already_present);
                lemma_run_spares_the_handled(
                    pending.stored_in(numbering(queue)),
                    pending.rest(),
                    now,
                    key,
                );
            },
        }
    }
}

proof fn lemma_run_keeps_the_locks(queue: QueueView, batch: AddView, now: Timestamp)
    ensures
        run(queue, batch, now).0.held_locks == queue.held_locks,
    decreases batch.remaining.len(),
{
    if batch.remaining.len() > 0 {
        let millis = now.spec_millis();
        match add_outcome(queue, batch.seen, batch.forefront, batch.remaining[0], millis) {
            AddOutcome::Refused => {},
            AddOutcome::Reported(processed) => {
                lemma_run_keeps_the_locks(queue, batch.reporting(processed), now);
            },
            AddOutcome::Stored { unique_key, order_no, already_present } => {
                let pending = batch.storing(queue, unique_key, order_no, already_present);
                lemma_run_keeps_the_locks(
                    pending.stored_in(numbering(queue)),
                    pending.rest(),
                    now,
                );
            },
        }
    }
}

proof fn lemma_scan_spares_others(
    queue: QueueView,
    keys: Seq<Seq<char>>,
    now: int,
    files: Map<Seq<char>, Seq<char>>,
    key: Seq<char>,
)
    ensures
        scan(queue, keys, now, files).0.held_locks == queue.held_locks,
        empty_scan(queue, keys, now, files).0.held_locks == queue.held_locks,
        scan(queue, keys, now, files).1 matches Some(lock) ==> keys.contains(lock.unique_key),
        !keys.contains(key) && queue.is_handled(key) ==> {
            &&& scan(queue, keys, now, files).0.is_handled(key)
            &&& empty_scan(queue, keys, now, files).0.is_handled(key)
        },
    decreases keys.len(),
{
    if keys.len() > 0 {
        let seen = file_shows(files, keys[0], now, queue.lock_millis);
        let rest = keys.skip(1);
        lemma_scan_spares_others(after_sighting(queue, keys[0], seen), rest, now, files, key);
        assert(keys.contains(keys[0]));
        assert forall|k: Seq<char>| #[trigger] rest.contains(k) implies keys.contains(k) by {
            let i = choose|i: int| 0 <= i < rest.len() && rest[i] == k;
            assert(keys[i + 1] == k);
        }
    }
}

proof fn lemma_glances_spare_the_handled(
    queue: QueueView,
    names: Seq<Seq<char>>,
    files: Map<Seq<char>, Seq<char>>,
    key: Seq<char>,
)
    ensures
        finish_scan(queue, names, files).0.held_locks == queue.held_locks,
        queue.is_handled(key) ==> finish_scan(queue, names, files).0.is_handled(key),
    decreases names.len(),
{
    if names.len() > 0 {
        lemma_glances_spare_the_handled(
            after_glance(queue, content_of(files, names[0])),
            names.skip(1),
            files,
            key,
        );
    }
}

proof fn lemma_operation_keeps_it_done(queue: QueueView, operation: Operation, key: Seq<char>)
    requires
        is_done(queue, key),
        operation.is_made_of(queue),
    ensures
        is_done(operation.after(queue), key),
{
    match operation {
        Operation::Add { requests, forefront, now } => {
            lemma_run_spares_the_handled(queue, fresh_batch(requests, forefront), now, key);
            lemma_run_keeps_the_locks(queue, fresh_batch(requests, forefront), now);
        },
        Operation::Fetch { keys, at, files, .. } => {
            law_candidates_are_the_fetchable(queue, at, keys);
            assert(!keys.contains(key));
            lemma_scan_spares_others(queue, keys, at, files, key);
        },
        Operation::IsEmpty { keys, now, files } => {
            law_candidates_are_the_fetchable(queue, now.spec_millis(), keys);
            assert(!keys.contains(key));
            lemma_scan_spares_others(
                queue.accessed(now),
                keys,
                now.spec_millis(),
                files,
                key,
            );
        },
        Operation::IsFinished { names, files } => {
            lemma_glances_spare_the_handled(queue, names, files, key);
        },
        _ => {},
    }
}

/// Every operation keeps each lock filed under the id of its request.
pub proof fn law_locks_stay_filed(queue: QueueView, operation: Operation)
    requires
        locks_are_filed(queue),
    ensures
        locks_are_filed(operation.after(queue)),
{
    match operation {
        Operation::Add { requests, forefront, now } => {
            lemma_run_keeps_the_locks(queue, fresh_batch(requests, forefront), now);
        },
        Operation::Fetch { keys, at, files, .. } => {
            lemma_scan_spares_others(queue, keys, at, files, Seq::empty());
        },
        Operation::IsEmpty { keys, now, files } => {
            lemma_scan_spares_others(
                queue.accessed(now),
                keys,
                now.spec_millis(),
                files,
                Seq::empty(),
            );
        },
        Operation::IsFinished { names, files } => {
            lemma_glances_spare_the_handled(queue, names, files, Seq::empty());
        },
        _ => {},
    }
}

/// A request that was marked as handled is done.
pub proof fn law_marked_request_is_done(queue: QueueView, mark: MarkView)
    requires
        locks_are_filed(queue),
    ensures
        is_done(mark.recorded_in(queue), mark.unique_key),
{
}

proof fn lemma_done_for_good(queue: QueueView, operations: Seq<Operation>, key: Seq<char>)
    requires
        is_done(queue, key),
        are_made_of(queue, operations),
    ensures
        is_done(after_all(queue, operations), key),
    decreases operations.len(),
{
    if operations.len() > 0 {
        lemma_done_for_good(queue, operations.drop_last(), key);
        lemma_operation_keeps_it_done(
            after_all(queue, operations.drop_last()),
            operations.last(),
            key,
        );
    }
}

/// A request that is done stays so, whatever operations follow and whatever they find on file.
/// From then on no fetch hands it out, it cannot be returned, adding it again reports it as
/// handled, and no lock on it can be extended.
pub proof fn law_handled_request_stays_handled_for_good(
    queue: QueueView,
    operations: Seq<Operation>,
    key: Seq<char>,
    request: JsonView,
    file_exists: bool,
    seen: Set<Seq<char>>,
    forefront: bool,
    now: int,
    keys: Seq<Seq<char>>,
    files: Map<Seq<char>, Seq<char>>,
)
    requires
        is_done(queue, key),
        are_made_of(queue, operations),
        unique_key_of(request) == Some(key),
        is_candidate_order(after_all(queue, operations), now, keys),
    ensures
        ({
            let after = after_all(queue, operations);
            &&& is_done(after, key)
            &&& !after.is_fetchable(key, now)
            &&& scan(after, keys, now, files).1 matches Some(lock) ==> lock.unique_key != key
            &&& standing(after, request, file_exists) == Standing::Handled(key)
            &&& add_outcome(after, seen, forefront, request, now) == AddOutcome::Reported(
                ProcessedView {
                    request_id: request_id_of(key),
                    unique_key: key,
                    was_already_present: true,
                    was_already_handled: true,
                },
            )
            &&& after.held_locks.contains_key(request_id_of(key))
                ==> after.held_locks[request_id_of(key)].unique_key != key
        }),
{
    let after = after_all(queue, operations);
    lemma_done_for_good(queue, operations, key);
    law_candidates_are_the_fetchable(after, now, keys);
    lemma_scan_spares_others(after, keys, now, files, key);
}

/// Where no other request has the id of one that is done, no lock is held under that id, so that
/// there is none to be extended.
pub proof fn law_handled_request_has_no_lock(
    queue: QueueView,
    operations: Seq<Operation>,
    key: Seq<char>,
)
    requires
        is_done(queue, key),
        locks_are_filed(queue),
        are_made_of(queue, operations),
        forall|other: Seq<char>| #[trigger]
            request_id_of(other) == request_id_of(key) ==> other == key,
    ensures
        !after_all(queue, operations).held_locks.contains_key(request_id_of(key)),
    decreases operations.len(),
{
    lemma_done_for_good(queue, operations, key);
    lemma_all_locks_filed(queue, operations);
}

proof fn lemma_all_locks_filed(queue: QueueView, operations: Seq<Operation>)
    requires
        locks_are_filed(queue),
    ensures
        locks_are_filed(after_all(queue, operations)),
    decreases operations.len(),
{
    if operations.len() > 0 {
        lemma_all_locks_filed(queue, operations.drop_last());
        law_locks_stay_filed(after_all(queue, operations.drop_last()), operations.last());
    }
}

} // verus!
