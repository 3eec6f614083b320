//! Laws on the numbers that the queue keeps: of insertions, and of requests.
use vstd::prelude::*;

use crate::add::{add_outcome, numbering, AddOutcome, AddView, PendingView};
use crate::candidates::{entry_precedes, is_candidate_order};
use crate::clock::Timestamp;
use crate::fetch::{after_sighting, Sighting};
use crate::json::JsonView;
use crate::laws::adding::{about_to_write, fresh_batch, lemma_what_is_written, run};
use crate::laws::fetching::{
    file_shows, law_candidates_are_the_fetchable, ranks_are_distinct, scan,
};
use crate::open::{empty_index, finding, Finding, RebuildView};
use crate::prolong::{ExtensionView, LockState, ProlongView};
use crate::request::{carries_handled_at, unique_key_of};
use crate::settle::{MarkView, ReclaimView};
use crate::state::{QueueView, RequestEntry};

verus! {

/// The index has the request as not handled, be it locked or not.
pub open spec fn is_pending(requests: Map<Seq<char>, RequestEntry>, key: Seq<char>) -> bool {
    requests.contains_key(key) && requests[key].order_no is Some
}

/// The pending requests have different numbers, all of them given out by the counter.
pub open spec fn are_numbered(requests: Map<Seq<char>, RequestEntry>, counter: int) -> bool {
    &&& 0 <= counter <= u64::MAX
    &&& forall|key: Seq<char>| #[trigger]
        is_pending(requests, key) ==> requests[key].insertion_seq < counter
    &&& forall|a: Seq<char>, b: Seq<char>|
        #![trigger is_pending(requests, a), is_pending(requests, b)]
        is_pending(requests, a) && is_pending(requests, b) && a != b
            ==> requests[a].insertion_seq != requests[b].insertion_seq
}

/// The pending requests of a queue are numbered.
pub open spec fn numbered(queue: QueueView) -> bool {
    are_numbered(queue.requests, queue.insertion_counter)
}

/// Numbers tell any two requests apart.
pub proof fn law_numbers_make_ranks_distinct(queue: QueueView, now: int)
    requires
        numbered(queue),
    ensures
        ranks_are_distinct(queue, now),
{
    assert forall|a: Seq<char>, b: Seq<char>|
        #![trigger queue.requests[a], queue.requests[b]]
        {
            &&& queue.is_fetchable(a, now)
            &&& queue.is_fetchable(b, now)
            &&& entry_precedes(queue.requests[a], queue.requests[b])
            &&& entry_precedes(queue.requests[b], queue.requests[a])
        } implies a == b by {
        assert(is_pending(queue.requests, a) && is_pending(queue.requests, b));
    }
}

proof fn lemma_insert_keeps_numbers(
    requests: Map<Seq<char>, RequestEntry>,
    counter: int,
    key: Seq<char>,
    entry: RequestEntry,
)
    requires
        are_numbered(requests, counter),
        entry.order_no is Some ==> entry.insertion_seq < counter,
        entry.order_no is Some ==> forall|other: Seq<char>| #[trigger]
            is_pending(requests, other) && other != key ==> requests[other].insertion_seq
                != entry.insertion_seq,
    ensures
        are_numbered(requests.insert(key, entry), counter),
{
    let after = requests.insert(key, entry);
    assert forall|a: Seq<char>| #[trigger] is_pending(after, a) implies after[a].insertion_seq
        < counter by {
        if a != key {
            assert(is_pending(requests, a));
        }
    }
    assert forall|a: Seq<char>, b: Seq<char>|
        #![trigger is_pending(after, a), is_pending(after, b)]
        is_pending(after, a) && is_pending(after, b) && a != b implies after[a].insertion_seq
        != after[b].insertion_seq by {
        if a != key {
            assert(is_pending(requests, a));
        }
        if b != key {
            assert(is_pending(requests, b));
        }
    }
}

proof fn lemma_order_keeps_numbers(queue: QueueView, key: Seq<char>, order_no: Option<i64>)
    requires
        numbered(queue),
        queue.is_handled(key) ==> order_no is None,
    ensures
        numbered(queue.with_order(key, order_no)),
{
    if queue.requests.contains_key(key) {
        let entry = RequestEntry { order_no, insertion_seq: queue.requests[key].insertion_seq };
        if order_no is Some {
            assert(is_pending(queue.requests, key));
        }
        lemma_insert_keeps_numbers(queue.requests, queue.insertion_counter, key, entry);
    }
}

proof fn lemma_counter_may_grow(requests: Map<Seq<char>, RequestEntry>, counter: int)
    requires
        are_numbered(requests, counter),
        counter < u64::MAX,
    ensures
        are_numbered(requests, counter + 1),
{
}

proof fn lemma_removal_keeps_numbers(
    requests: Map<Seq<char>, RequestEntry>,
    counter: int,
    key: Seq<char>,
)
    requires
        are_numbered(requests, counter),
    ensures
        are_numbered(requests.remove(key), counter),
{
    let after = requests.remove(key);
    assert forall|a: Seq<char>| #[trigger] is_pending(after, a) implies is_pending(requests, a)
        && after[a] == requests[a] by {}
}

/// Adding a request keeps the numbering.
pub proof fn law_adding_keeps_the_numbering(
    queue: QueueView,
    batch: AddView,
    now: int,
    pending: PendingView,
)
    requires
        numbered(queue),
        queue.has_room(),
        about_to_write(queue, batch, now, pending),
    ensures
        numbered(pending.stored_in(numbering(queue))),
{
    lemma_what_is_written(queue, batch, now, pending);
    lemma_counter_may_grow(queue.requests, queue.insertion_counter);
    lemma_insert_keeps_numbers(
        queue.requests,
        queue.insertion_counter + 1,
        pending.unique_key,
        pending.entry,
    );
}

/// A batch keeps the numbering, whether or not it is refused.
pub proof fn law_batch_keeps_the_numbering(queue: QueueView, batch: AddView, now: Timestamp)
    requires
        numbered(queue),
        queue.insertion_counter + batch.remaining.len() <= u64::MAX,
    ensures
        numbered(run(queue, batch, now).0),
    decreases batch.remaining.len(),
{
    if batch.remaining.len() > 0 {
        let millis = now.spec_millis();
        match add_outcome(queue, batch.seen, batch.forefront, batch.remaining[0], millis) {
            AddOutcome::Refused => {},
            AddOutcome::Reported(processed) => {
                law_batch_keeps_the_numbering(queue, batch.reporting(processed), now);
            },
            AddOutcome::Stored { unique_key, order_no, already_present } => {
                let pending = batch.storing(queue, unique_key, order_no, already_present);
                law_adding_keeps_the_numbering(queue, batch, millis, pending);
                law_batch_keeps_the_numbering(
                    pending.stored_in(numbering(queue)),
                    pending.rest(),
                    now,
                );
            },
        }
    }
}

/// Following the file of a request that is not handled keeps the numbering, and so does locking
/// it.
pub proof fn law_fetching_keeps_the_numbering(
    queue: QueueView,
    unique_key: Seq<char>,
    sighting: Sighting,
    locked: i64,
)
    requires
        numbered(queue),
        !queue.is_handled(unique_key),
    ensures
        numbered(after_sighting(queue, unique_key, sighting)),
        numbered(queue.with_order(unique_key, Some(locked))),
{
    lemma_order_keeps_numbers(queue, unique_key, Some(locked));
    lemma_order_keeps_numbers(queue, unique_key, None);
    lemma_removal_keeps_numbers(queue.requests, queue.insertion_counter, unique_key);
    match sighting {
        Sighting::Locked(n) => {
            lemma_order_keeps_numbers(queue, unique_key, Some(n));
        },
        _ => {},
    }
}

proof fn lemma_scan_keeps_numbers(
    queue: QueueView,
    keys: Seq<Seq<char>>,
    now: int,
    files: Map<Seq<char>, Seq<char>>,
)
    requires
        numbered(queue),
        keys.no_duplicates(),
        forall|i: int| 0 <= i < keys.len() ==> !queue.is_handled(#[trigger] keys[i]),
    ensures
        numbered(scan(queue, keys, now, files).0),
    decreases keys.len(),
{
    if keys.len() > 0 {
        let seen = file_shows(files, keys[0], now, queue.lock_millis);
        if !(seen is Free) {
            let next = after_sighting(queue, keys[0], seen);
            let rest = keys.skip(1);
            law_fetching_keeps_the_numbering(queue, keys[0], seen, 0);
            assert forall|i: int| 0 <= i < rest.len() implies !next.is_handled(
                #[trigger] rest[i],
            ) by {
                assert(rest[i] == keys[i + 1]);
                assert(keys[0] != keys[i + 1]);
            }
            lemma_scan_keeps_numbers(next, rest, now, files);
        }
    }
}

/// A scan of the candidates keeps the numbering, whatever the files show.
pub proof fn law_scanning_keeps_the_numbering(
    queue: QueueView,
    keys: Seq<Seq<char>>,
    now: int,
    files: Map<Seq<char>, Seq<char>>,
)
    requires
        numbered(queue),
        is_candidate_order(queue, now, keys),
    ensures
        numbered(scan(queue, keys, now, files).0),
{
    law_candidates_are_the_fetchable(queue, now, keys);
    assert forall|i: int| 0 <= i < keys.len() implies !queue.is_handled(#[trigger] keys[i]) by {
        assert(keys.contains(keys[i]));
    }
    lemma_scan_keeps_numbers(queue, keys, now, files);
}

/// Marking a request as handled keeps the numbering.
pub proof fn law_marking_keeps_the_numbering(queue: QueueView, mark: MarkView)
    requires
        numbered(queue),
    ensures
        numbered(mark.recorded_in(queue)),
{
    let after = mark.recorded_in(queue);
    lemma_insert_keeps_numbers(
        queue.requests,
        queue.insertion_counter,
        mark.unique_key,
        after.requests[mark.unique_key],
    );
}

/// Returning a request that is not handled keeps the numbering.
pub proof fn law_reclaiming_keeps_the_numbering(
    queue: QueueView,
    reclaim: ReclaimView,
    now: Timestamp,
)
    requires
        numbered(queue),
        !queue.is_handled(reclaim.unique_key),
        queue.has_room_for(reclaim.unique_key),
    ensures
        numbered(reclaim.recorded_in(queue, now)),
{
    let key = reclaim.unique_key;
    let after = reclaim.recorded_in(queue, now);
    if queue.requests.contains_key(key) {
        assert(is_pending(queue.requests, key));
    } else {
        lemma_counter_may_grow(queue.requests, queue.insertion_counter);
    }
    lemma_insert_keeps_numbers(
        queue.requests,
        after.insertion_counter,
        key,
        after.requests[key],
    );
}

/// Extending the lock of a request that is not handled keeps the numbering, and so does losing
/// it.
pub proof fn law_prolonging_keeps_the_numbering(
    queue: QueueView,
    scan: ProlongView,
    state: LockState,
    extension: ExtensionView,
    now: Timestamp,
)
    requires
        numbered(queue),
        !queue.is_handled(scan.held.unique_key),
        extension.held.unique_key == scan.held.unique_key,
    ensures
        numbered(scan.after_seeing(queue, state)),
        numbered(extension.recorded_in(queue, now)),
{
    let key = scan.held.unique_key;
    lemma_removal_keeps_numbers(queue.requests, queue.insertion_counter, key);
    match state {
        LockState::Lost(order_no) => {
            lemma_order_keeps_numbers(queue, key, order_no);
        },
        _ => {},
    }
    lemma_order_keeps_numbers(queue, key, Some(extension.held.order_no));
}

/// A queue that was purged is numbered.
pub proof fn law_purging_restarts_the_numbering(queue: QueueView, now: Timestamp)
    ensures
        numbered(queue.purged(now)),
        queue.purged(now).insertion_counter == 0,
{
}

/// An index in the making is numbered from its beginning on, file by file, and so is the queue
/// that comes of it.
pub proof fn law_opening_numbers_the_requests(
    rebuild: RebuildView,
    content: Option<Seq<char>>,
    files: Seq<Seq<char>>,
)
    requires
        are_numbered(rebuild.requests, rebuild.seq),
        rebuild.seq < u64::MAX,
    ensures
        are_numbered(
            empty_index(
                files,
                rebuild.metadata,
                rebuild.now,
                rebuild.assume_sole_owner,
            ).requests,
            0,
        ),
        are_numbered(rebuild.with_file(content).requests, rebuild.with_file(content).seq),
        numbered(rebuild.finished()),
{
    let after = rebuild.with_file(content);
    match finding(content, rebuild.now, rebuild.assume_sole_owner) {
        Finding::Nothing => {},
        Finding::Request(key, order_no, _) => {
            lemma_counter_may_grow(rebuild.requests, rebuild.seq);
            lemma_insert_keeps_numbers(
                rebuild.requests,
                rebuild.seq + 1,
                key,
                after.requests[key],
            );
        },
    }
}

/// A regular request goes behind all that could be fetched when it was added.
pub proof fn law_new_request_goes_last(
    queue: QueueView,
    batch: AddView,
    now: Timestamp,
    pending: PendingView,
    other: Seq<char>,
)
    requires
        numbered(queue),
        queue.has_room(),
        about_to_write(queue, batch, now.spec_millis(), pending),
        !batch.forefront,
        pending.entry.order_no is Some,
        i64::MIN <= now.spec_millis() <= i64::MAX,
        other != pending.unique_key,
        queue.is_fetchable(other, now.spec_millis()),
    ensures
        ({
            let after = pending.stored_in(numbering(queue));
            &&& entry_precedes(after.requests[other], after.requests[pending.unique_key])
            &&& !entry_precedes(after.requests[pending.unique_key], after.requests[other])
        }),
{
    lemma_what_is_written(queue, batch, now.spec_millis(), pending);
    assert(is_pending(queue.requests, other));
}

/// The requests of the index that are handled, or those that are not.
pub open spec fn keys_by_state(
    requests: Map<Seq<char>, RequestEntry>,
    handled: bool,
) -> Set<Seq<char>> {
    requests.dom().filter(|key: Seq<char>| (requests[key].order_no is None) == handled)
}

/// These are the numbers of handled and of pending requests in the index.
pub open spec fn counts_are(
    requests: Map<Seq<char>, RequestEntry>,
    handled: int,
    pending: int,
) -> bool {
    &&& requests.dom().finite()
    &&& handled == keys_by_state(requests, true).len()
    &&& pending == keys_by_state(requests, false).len()
}

/// The counts of the metadata are those of the index.
pub open spec fn counts_agree(queue: QueueView) -> bool {
    &&& counts_are(queue.requests, queue.metadata.handled, queue.metadata.pending)
    &&& queue.metadata.total == queue.metadata.handled + queue.metadata.pending
}

proof fn lemma_insert_counts(
    requests: Map<Seq<char>, RequestEntry>,
    handled: int,
    pending: int,
    key: Seq<char>,
    entry: RequestEntry,
)
    requires
        counts_are(requests, handled, pending),
    ensures
        ({
            let was: int = if !requests.contains_key(key) {
                0
            } else if requests[key].order_no is None {
                1
            } else {
                2
            };
            let is: int = if entry.order_no is None {
                1
            } else {
                2
            };
            counts_are(
                requests.insert(key, entry),
                handled + (if is == 1 {
                    1int
                } else {
                    0
                }) - (if was == 1 {
                    1int
                } else {
                    0
                }),
                pending + (if is == 2 {
                    1int
                } else {
                    0
                }) - (if was == 2 {
                    1int
                } else {
                    0
                }),
            )
        }),
{
    let after = requests.insert(key, entry);
    let handled_before = keys_by_state(requests, true);
    let pending_before = keys_by_state(requests, false);
    let handled_now = entry.order_no is None;
    if handled_now {
        assert(keys_by_state(after, true) =~= handled_before.insert(key));
        assert(keys_by_state(after, false) =~= pending_before.remove(key));
    } else {
        assert(keys_by_state(after, true) =~= handled_before.remove(key));
        assert(keys_by_state(after, false) =~= pending_before.insert(key));
    }
}

/// Adding a request keeps the counts in agreement with the index, except where a pending
/// request is added again, to the forefront, as handled: that changes the index only.
pub proof fn law_adding_keeps_the_counts(
    queue: QueueView,
    batch: AddView,
    now: int,
    pending: PendingView,
)
    requires
        counts_agree(queue),
        about_to_write(queue, batch, now, pending),
        batch.seen.subset_of(queue.requests.dom()),
        !(pending.already_present && pending.entry.order_no is None),
    ensures
        counts_agree(pending.stored_in(numbering(queue))),
        pending.rest().seen.subset_of(pending.stored_in(numbering(queue)).requests.dom()),
{
    lemma_what_is_written(queue, batch, now, pending);
    lemma_insert_counts(
        queue.requests,
        queue.metadata.handled,
        queue.metadata.pending,
        pending.unique_key,
        pending.entry,
    );
}

proof fn lemma_batch_keeps_counts(queue: QueueView, batch: AddView, now: Timestamp)
    requires
        counts_agree(queue),
        !batch.forefront,
        batch.seen.subset_of(queue.requests.dom()),
    ensures
        counts_agree(run(queue, batch, now).0),
    decreases batch.remaining.len(),
{
    if batch.remaining.len() > 0 {
        let millis = now.spec_millis();
        match add_outcome(queue, batch.seen, batch.forefront, batch.remaining[0], millis) {
            AddOutcome::Refused => {},
            AddOutcome::Reported(processed) => {
                lemma_batch_keeps_counts(queue, batch.reporting(processed), now);
            },
            AddOutcome::Stored { unique_key, order_no, already_present } => {
                let pending = batch.storing(queue, unique_key, order_no, already_present);
                law_adding_keeps_the_counts(queue, batch, millis, pending);
                lemma_batch_keeps_counts(
                    pending.stored_in(numbering(queue)),
                    pending.rest(),
                    now,
                );
            },
        }
    }
}

/// A batch that is not for the forefront keeps the counts in agreement with the index, whether
/// or not it is refused: a request that occurs twice, or is there already, counts once.
pub proof fn law_batch_keeps_the_counts(
    queue: QueueView,
    requests: Seq<JsonView>,
    now: Timestamp,
)
    requires
        counts_agree(queue),
    ensures
        counts_agree(run(queue, fresh_batch(requests, false), now).0),
{
    lemma_batch_keeps_counts(queue, fresh_batch(requests, false), now);
}

/// The first of the requests that has this key.
pub open spec fn first_with_key(requests: Seq<JsonView>, key: Seq<char>) -> JsonView
    decreases requests.len(),
{
    if requests.len() == 0 || unique_key_of(requests[0]) == Some(key) {
        requests[0]
    } else {
        first_with_key(requests.skip(1), key)
    }
}

/// Some of the requests has this key.
pub open spec fn has_request(requests: Seq<JsonView>, key: Seq<char>) -> bool {
    exists|i: int| 0 <= i < requests.len() && unique_key_of(#[trigger] requests[i]) == Some(key)
}

/// The keys of the requests that the index does not have.
pub open spec fn new_keys(
    requests: Seq<JsonView>,
    index: Map<Seq<char>, RequestEntry>,
) -> Set<Seq<char>> {
    Set::new(|key: Seq<char>| !index.contains_key(key) && has_request(requests, key))
}

/// The new keys whose first request carries a handling time, or those whose does not.
pub open spec fn new_keys_by_state(
    requests: Seq<JsonView>,
    index: Map<Seq<char>, RequestEntry>,
    handled: bool,
) -> Set<Seq<char>> {
    new_keys(requests, index).filter(
        |key: Seq<char>| carries_handled_at(first_with_key(requests, key)) == handled,
    )
}

proof fn lemma_new_keys_without_first(
    requests: Seq<JsonView>,
    index: Map<Seq<char>, RequestEntry>,
    after: Map<Seq<char>, RequestEntry>,
)
    requires
        requests.len() > 0,
        unique_key_of(requests[0]) is Some,
        after.dom() == index.dom().insert(unique_key_of(requests[0])->0),
    ensures
        ({
            let first = unique_key_of(requests[0])->0;
            let rest = requests.skip(1);
            let known = index.contains_key(first);
            &&& new_keys(requests, index) == if known {
                new_keys(rest, after)
            } else {
                new_keys(rest, after).insert(first)
            }
            &&& forall|handled: bool| #[trigger]
                new_keys_by_state(requests, index, handled) == if !known && carries_handled_at(
                    requests[0],
                ) == handled {
                    new_keys_by_state(rest, after, handled).insert(first)
                } else {
                    new_keys_by_state(rest, after, handled)
                }
            &&& !new_keys(rest, after).contains(first)
        }),
{
    let first = unique_key_of(requests[0])->0;
    let rest = requests.skip(1);
    assert forall|key: Seq<char>| #[trigger] has_request(requests, key) <==> key == first
        || has_request(rest, key) by {
        assert(unique_key_of(requests[0]) == Some(first));
        if has_request(rest, key) {
            let i = choose|i: int|
                0 <= i < rest.len() && unique_key_of(#[trigger] rest[i]) == Some(key);
            assert(requests[i + 1] == rest[i]);
        }
        if has_request(requests, key) && key != first {
            let i = choose|i: int|
                0 <= i < requests.len() && unique_key_of(#[trigger] requests[i]) == Some(key);
            assert(rest[i - 1] == requests[i]);
        }
    }
    assert forall|key: Seq<char>| after.contains_key(key) <==> key == first
        || index.contains_key(key) by {
        assert(after.dom().contains(key) == index.dom().insert(first).contains(key));
    }
    let known = index.contains_key(first);
    assert(new_keys(requests, index) =~= if known {
        new_keys(rest, after)
    } else {
        new_keys(rest, after).insert(first)
    });
    assert forall|handled: bool| #[trigger]
        new_keys_by_state(requests, index, handled) == if !known && carries_handled_at(
            requests[0],
        ) == handled {
            new_keys_by_state(rest, after, handled).insert(first)
        } else {
            new_keys_by_state(rest, after, handled)
        } by {
        assert(new_keys_by_state(requests, index, handled) =~= if !known && carries_handled_at(
            requests[0],
        ) == handled {
            new_keys_by_state(rest, after, handled).insert(first)
        } else {
            new_keys_by_state(rest, after, handled)
        });
    }
}

proof fn lemma_batch_counts(queue: QueueView, batch: AddView, now: Timestamp)
    requires
        run(queue, batch, now).1 is Some,
        batch.seen.subset_of(queue.requests.dom()),
    ensures
        ({
            let after = run(queue, batch, now).0.metadata;
            let index = queue.requests;
            &&& new_keys(batch.remaining, index).finite()
            &&& after.total == queue.metadata.total + new_keys(batch.remaining, index).len()
            &&& after.handled == queue.metadata.handled + new_keys_by_state(
                batch.remaining,
                index,
                true,
            ).len()
            &&& after.pending == queue.metadata.pending + new_keys_by_state(
                batch.remaining,
                index,
                false,
            ).len()
            &&& after.accessed_at == now
            &&& after.modified_at == now
        }),
    decreases batch.remaining.len(),
{
    let index = queue.requests;
    if batch.remaining.len() == 0 {
        assert(new_keys(batch.remaining, index) =~= Set::empty());
        assert(new_keys_by_state(batch.remaining, index, true) =~= Set::empty());
        assert(new_keys_by_state(batch.remaining, index, false) =~= Set::empty());
    } else {
        let rest = batch.remaining.skip(1);
        let millis = now.spec_millis();
        let (next_queue, next_batch) = match add_outcome(
            queue,
            batch.seen,
            batch.forefront,
            batch.remaining[0],
            millis,
        ) {
            AddOutcome::Refused => (queue, batch),
            AddOutcome::Reported(processed) => (queue, batch.reporting(processed)),
            AddOutcome::Stored { unique_key, order_no, already_present } => {
                let pending = batch.storing(queue, unique_key, order_no, already_present);
                (pending.stored_in(numbering(queue)), pending.rest())
            },
        };
        let first = unique_key_of(batch.remaining[0])->0;
        assert(next_queue.requests.dom() =~= index.dom().insert(first));
        lemma_batch_counts(next_queue, next_batch, now);
        lemma_new_keys_without_first(batch.remaining, index, next_queue.requests);
        let left = new_keys(rest, next_queue.requests);
        assert(new_keys_by_state(rest, next_queue.requests, true).subset_of(left));
        assert(new_keys_by_state(rest, next_queue.requests, false).subset_of(left));
        vstd::set_lib::lemma_set_subset_finite(
            left,
            new_keys_by_state(rest, next_queue.requests, true),
        );
        vstd::set_lib::lemma_set_subset_finite(
            left,
            new_keys_by_state(rest, next_queue.requests, false),
        );
    }
}

/// What a batch adds to the counts, be it for the forefront or not: the total grows by the number
/// of new keys, and each of these counts as handled if the first request of the batch that has
/// it carries a handling time, and as pending if not. The batch is an access and a modification.
pub proof fn law_batch_counts_new_keys(
    queue: QueueView,
    requests: Seq<JsonView>,
    forefront: bool,
    now: Timestamp,
)
    requires
        run(queue, fresh_batch(requests, forefront), now).1 is Some,
    ensures
        ({
            let after = run(queue, fresh_batch(requests, forefront), now).0.metadata;
            let new = new_keys(requests, queue.requests);
            let new_handled = new_keys_by_state(requests, queue.requests, true);
            let new_pending = new_keys_by_state(requests, queue.requests, false);
            &&& new.finite()
            &&& after.total == queue.metadata.total + new.len()
            &&& after.handled == queue.metadata.handled + new_handled.len()
            &&& after.pending == queue.metadata.pending + new_pending.len()
            &&& new.len() == new_handled.len() + new_pending.len()
            &&& after.accessed_at == now
            &&& after.modified_at == now
        }),
{
    lemma_batch_counts(queue, fresh_batch(requests, forefront), now);
    let new = new_keys(requests, queue.requests);
    let new_handled = new_keys_by_state(requests, queue.requests, true);
    let new_pending = new_keys_by_state(requests, queue.requests, false);
    vstd::set_lib::lemma_set_subset_finite(new, new_handled);
    vstd::set_lib::lemma_set_subset_finite(new, new_pending);
    assert(new_handled.disjoint(new_pending));
    assert(new =~= new_handled.union(new_pending));
    vstd::set_lib::lemma_set_disjoint_lens(new_handled, new_pending);
}

/// Marking a pending request as handled moves it from one count to the other.
pub proof fn law_marking_keeps_the_counts(queue: QueueView, mark: MarkView)
    requires
        counts_agree(queue),
        is_pending(queue.requests, mark.unique_key),
    ensures
        counts_agree(mark.recorded_in(queue)),
        mark.recorded_in(queue).metadata.total == queue.metadata.total,
{
    let key = mark.unique_key;
    lemma_insert_counts(
        queue.requests,
        queue.metadata.handled,
        queue.metadata.pending,
        key,
        mark.recorded_in(queue).requests[key],
    );
    assert(keys_by_state(queue.requests, false).contains(key));
    assert(queue.metadata.pending > 0);
}

/// Returning a pending request changes no count.
pub proof fn law_reclaiming_keeps_the_counts(
    queue: QueueView,
    reclaim: ReclaimView,
    now: Timestamp,
)
    requires
        counts_agree(queue),
        is_pending(queue.requests, reclaim.unique_key),
    ensures
        counts_agree(reclaim.recorded_in(queue, now)),
{
    let key = reclaim.unique_key;
    lemma_insert_counts(
        queue.requests,
        queue.metadata.handled,
        queue.metadata.pending,
        key,
        reclaim.recorded_in(queue, now).requests[key],
    );
}

/// Locking a pending request changes no count.
pub proof fn law_locking_keeps_the_counts(
    queue: QueueView,
    unique_key: Seq<char>,
    order_no: i64,
)
    requires
        counts_agree(queue),
        is_pending(queue.requests, unique_key),
    ensures
        counts_agree(queue.with_order(unique_key, Some(order_no))),
{
    lemma_insert_counts(
        queue.requests,
        queue.metadata.handled,
        queue.metadata.pending,
        unique_key,
        queue.with_order(unique_key, Some(order_no)).requests[unique_key],
    );
}

/// A queue that was purged counts nothing.
pub proof fn law_purging_resets_the_counts(queue: QueueView, now: Timestamp)
    ensures
        counts_agree(queue.purged(now)),
        queue.purged(now).metadata.total == 0,
{
    assert(keys_by_state(Map::empty(), true) =~= Set::empty());
    assert(keys_by_state(Map::empty(), false) =~= Set::empty());
}

/// The counts of an opened queue are those of its index, as long as no two files hold the same
/// request: this holds of an empty index, and each file keeps it.
pub proof fn law_opening_counts_the_requests(
    rebuild: RebuildView,
    content: Option<Seq<char>>,
    files: Seq<Seq<char>>,
)
    requires
        counts_are(rebuild.requests, rebuild.handled, rebuild.pending),
        match finding(content, rebuild.now, rebuild.assume_sole_owner) {
            Finding::Request(key, _, _) => !rebuild.requests.contains_key(key),
            Finding::Nothing => true,
        },
    ensures
        counts_are(
            empty_index(
                files,
                rebuild.metadata,
                rebuild.now,
                rebuild.assume_sole_owner,
            ).requests,
            0,
            0,
        ),
        ({
            let after = rebuild.with_file(content);
            counts_are(after.requests, after.handled, after.pending)
        }),
        counts_agree(rebuild.finished()),
{
    assert(keys_by_state(Map::empty(), true) =~= Set::empty());
    assert(keys_by_state(Map::empty(), false) =~= Set::empty());
    let after = rebuild.with_file(content);
    match finding(content, rebuild.now, rebuild.assume_sole_owner) {
        Finding::Nothing => {},
        Finding::Request(key, _, _) => {
            lemma_insert_counts(
                rebuild.requests,
                rebuild.handled,
                rebuild.pending,
                key,
                after.requests[key],
            );
        },
    }
}

} // verus!
