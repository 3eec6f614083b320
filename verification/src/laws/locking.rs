//! Laws on locks.
use vstd::prelude::*;

use crate::fetch::{sighting, Sighting};
use crate::json::{holds, json_parse, JsonView};
use crate::laws::documents::{law_queue_fields_survive_the_disk, lemma_names_differ};
use crate::order::{locked_at, on_side_of};
use crate::prolong::{magnitude, LockState, ProlongView};
use crate::request::{order_no_of, recorded_id, unique_key_of, with_order_no};
use crate::state::{raised, QueueView};

verus! {

/// An order number that is put on record is on record, and no other field changes.
pub(crate) proof fn lemma_order_is_on_record(document: JsonView, order_no: i64)
    requires
        document is Object,
    ensures
        order_no_of(with_order_no(document, Some(order_no))) == Some(order_no),
        unique_key_of(with_order_no(document, Some(order_no))) == unique_key_of(document),
        recorded_id(with_order_no(document, Some(order_no))) == recorded_id(document),
{
    lemma_names_differ();
}

/// Once a fetched request's lock is written, whoever reads the file skips the request until the
/// lock runs out, and can fetch it from then on.
pub proof fn law_locked_request_is_skipped(
    content: Seq<char>,
    now: int,
    lock_millis: int,
    order_no: i64,
    document: JsonView,
    text: Seq<char>,
    later: int,
    other_millis: int,
)
    requires
        0 <= now + lock_millis <= i64::MAX,
        sighting(Some(content), now, lock_millis) == Sighting::Free(order_no, document),
        holds(text, document),
        json_parse(text) is Some,
    ensures
        later < now + lock_millis ==> sighting(Some(text), later, other_millis)
            == Sighting::Locked(order_no),
        later >= now + lock_millis ==> sighting(Some(text), later, other_millis) is Free,
{
    lemma_order_is_on_record(json_parse(content)->0, order_no);
    law_queue_fields_survive_the_disk(text, document);
}

/// Once a fetched request's lock is in the index, the request cannot be fetched until the lock
/// runs out, and can from then on.
pub proof fn law_locked_request_is_not_fetched(
    queue: QueueView,
    unique_key: Seq<char>,
    found: i64,
    until: i64,
    later: int,
)
    requires
        queue.requests.contains_key(unique_key),
        0 <= until,
    ensures
        queue.with_order(
            unique_key,
            Some(on_side_of(found as int, until as int) as i64),
        ).is_fetchable(unique_key, later) <==> later >= until,
{
}

/// The consumer that fetched a request can extend its lock while it is live.
pub proof fn law_holder_can_prolong(
    content: Seq<char>,
    now: int,
    lock_millis: int,
    order_no: i64,
    document: JsonView,
    text: Seq<char>,
    scan: ProlongView,
    later: int,
)
    requires
        0 <= now + lock_millis <= i64::MAX,
        sighting(Some(content), now, lock_millis) == Sighting::Free(order_no, document),
        holds(text, document),
        json_parse(text) is Some,
        unique_key_of(json_parse(content)->0) == Some(scan.held.unique_key),
        recorded_id(json_parse(content)->0) == Some(scan.request_id),
        scan.held.order_no == order_no,
        now + lock_millis + scan.extension <= i64::MAX,
        later < now + lock_millis,
    ensures
        scan.lock_state(Some(text), later) is Extended,
{
    lemma_order_is_on_record(json_parse(content)->0, order_no);
    law_queue_fields_survive_the_disk(text, document);
}

/// An extended lock expires later by exactly the extension, and the request stays regular or
/// forefront, whichever it was.
pub proof fn law_prolonged_lock_expires_later(
    scan: ProlongView,
    content: Seq<char>,
    now: int,
    order_no: i64,
    document: JsonView,
    at: int,
)
    requires
        scan.extension > 0,
        scan.lock_state(Some(content), now) == LockState::Extended(order_no, document),
    ensures
        magnitude(order_no as int) == magnitude(scan.held.order_no as int) + scan.extension,
        order_no > 0 <==> scan.held.order_no > 0,
        locked_at(order_no as int, at) <==> at < magnitude(scan.held.order_no as int)
            + scan.extension,
{
}

/// A lock that ran out is not extended.
pub proof fn law_expired_lock_is_lost(scan: ProlongView, content: Seq<char>, now: int)
    requires
        now >= magnitude(scan.held.order_no as int),
        json_parse(content) is Some,
    ensures
        scan.lock_state(Some(content), now) is Lost,
{
}

/// A consumer whose lock ran out cannot extend the lock of whoever fetched the request since.
pub proof fn law_stale_consumer_cannot_prolong(
    stale: ProlongView,
    content: Seq<char>,
    now: int,
    lock_millis: int,
    order_no: i64,
    document: JsonView,
    text: Seq<char>,
    later: int,
)
    requires
        json_parse(content) is Some,
        order_no_of(json_parse(content)->0) == Some(stale.held.order_no),
        lock_millis > 0,
        0 <= now + lock_millis <= i64::MAX,
        sighting(Some(content), now, lock_millis) == Sighting::Free(order_no, document),
        holds(text, document),
        json_parse(text) is Some,
    ensures
        stale.lock_state(Some(text), later) == LockState::Lost(Some(order_no)),
{
    lemma_order_is_on_record(json_parse(content)->0, order_no);
    law_queue_fields_survive_the_disk(text, document);
}

/// The time that a fetched request stays locked is only ever raised.
pub proof fn law_lock_time_is_only_raised(lock_millis: int, hint: int)
    ensures
        raised(lock_millis, hint) >= lock_millis,
        raised(lock_millis, hint) >= hint,
        raised(lock_millis, hint) == lock_millis || raised(lock_millis, hint) == hint,
{
}

} // verus!
