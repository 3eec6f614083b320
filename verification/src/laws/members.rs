//! Laws on what a request document holds, member by member.
use vstd::prelude::*;

use crate::add::queued;
use crate::clock::Timestamp;
use crate::fetch::{sighting, Sighting};
use crate::finish::{is_given_up, is_outstanding, is_settled, is_unhandled_on_file, settled_key};
use crate::ids::request_id_of;
use crate::json::{json_parse, Json, JsonView};
use crate::laws::documents::lemma_names_differ;
use crate::open::{filed_as_handled, filed_order, finding, Finding};
use crate::prolong::{LockState, ProlongView};
use crate::request::{
    carries_handled_at, order_json, order_no_of, recorded_id, stripped, unique_key_of, with_id,
    with_order_no,
};
use crate::settle::{handled_document, returned_document};
use crate::state::QueueView;

verus! {

/// A document models itself: each scalar is what it says, and an array has its items in order.
pub proof fn law_model_is_the_document(b: bool, n: i64, text: String, items: Vec<Json>)
    ensures
        Json::Null@ == JsonView::Null,
        Json::Bool(b)@ == JsonView::Bool(b),
        Json::Integer(n)@ == JsonView::Integer(n as int),
        Json::Text(text)@ == JsonView::Text(text@),
        Json::Array(items)@ is Array,
        Json::Array(items)@->Array_0.len() == items@.len(),
        forall|i: int|
            0 <= i < items@.len() ==> #[trigger] Json::Array(items)@->Array_0[i] == items@[i]@,
{
}

/// A member is what the object has under its name. Anything but an object has none.
pub proof fn law_member_is_what_the_object_has(document: JsonView, key: Seq<char>)
    ensures
        match document {
            JsonView::Object(members) => if members.contains_key(key) {
                document.member(key) == Some(members[key])
            } else {
                document.member(key) is None
            },
            _ => document.member(key) is None,
        },
{
}

/// To set a member leaves every other as it was, and anything but an object as it is.
pub proof fn law_setting_a_member_changes_no_other(
    document: JsonView,
    key: Seq<char>,
    value: JsonView,
    other: Seq<char>,
)
    ensures
        document is Object ==> {
            &&& document.with_member(key, value) is Object
            &&& document.with_member(key, value).member(key) == Some(value)
            &&& other != key ==> document.with_member(key, value).member(other)
                == document.member(other)
        },
        !(document is Object) ==> document.with_member(key, value) == document,
{
}

/// To take a member out leaves every other as it was, and anything but an object as it is.
pub proof fn law_taking_a_member_out_changes_no_other(
    document: JsonView,
    key: Seq<char>,
    other: Seq<char>,
)
    ensures
        document is Object ==> {
            &&& document.without_member(key) is Object
            &&& document.without_member(key).member(key) is None
            &&& other != key ==> document.without_member(key).member(other) == document.member(
                other,
            )
        },
        !(document is Object) ==> document.without_member(key) == document,
{
}

/// Two objects that have the same members are the same.
pub proof fn law_members_make_the_object(a: Map<Seq<char>, JsonView>, b: Map<Seq<char>, JsonView>)
    requires
        forall|key: Seq<char>| #[trigger]
            JsonView::Object(a).member(key) == JsonView::Object(b).member(key),
    ensures
        a == b,
{
    assert forall|key: Seq<char>| #[trigger] a.contains_key(key) == b.contains_key(key) && (
    a.contains_key(key) ==> a[key] == b[key]) by {
        assert(JsonView::Object(a).member(key) == JsonView::Object(b).member(key));
    }
    assert(a.dom() =~= b.dom());
    assert(a =~= b);
}

/// The key of a request is the text under `uniqueKey`. Only where that member is missing is it
/// the text under `unique_key`.
pub proof fn law_where_the_key_is(request: JsonView, key: Seq<char>)
    ensures
        unique_key_of(request) == Some(key) <==> {
            ||| request.member("uniqueKey"@) == Some(JsonView::Text(key))
            ||| request.member("uniqueKey"@) is None && request.member("unique_key"@) == Some(
                JsonView::Text(key),
            )
        },
{
}

/// A request carries a handling time if `handledAt` is there and not null, or is missing while
/// `handled_at` is there and not null.
pub proof fn law_where_the_handling_time_is(request: JsonView)
    ensures
        carries_handled_at(request) <==> {
            ||| request.member("handledAt"@) is Some && request.member("handledAt"@) != Some(
                JsonView::Null,
            )
            ||| request.member("handledAt"@) is None && request.member("handled_at"@) is Some
                && request.member("handled_at"@) != Some(JsonView::Null)
        },
{
}

/// The order number of a request is the integer under `orderNo`, and its id the text under `id`.
pub proof fn law_where_order_number_and_id_are(request: JsonView, order_no: i64, id: Seq<char>)
    ensures
        order_no_of(request) == Some(order_no) <==> request.member("orderNo"@) == Some(
            JsonView::Integer(order_no as int),
        ),
        recorded_id(request) == Some(id) <==> request.member("id"@) == Some(JsonView::Text(id)),
{
}

/// What is handed out is the document but for its order number: every other member is there,
/// unchanged, and no other comes in.
pub proof fn law_handing_out_takes_only_the_order_number_off(document: JsonView, key: Seq<char>)
    ensures
        key != "orderNo"@ ==> stripped(document).member(key) == document.member(key),
        stripped(document).member("orderNo"@) is None,
        document is Object <==> stripped(document) is Object,
        !(document is Object) ==> stripped(document) == document,
{
}

/// To put an order number or an id on record changes no other member. A handled request has a
/// null order number.
pub proof fn law_putting_on_record_changes_no_other_member(
    request: JsonView,
    order_no: i64,
    id: Seq<char>,
    key: Seq<char>,
)
    requires
        request is Object,
    ensures
        with_order_no(request, Some(order_no)).member("orderNo"@) == Some(
            JsonView::Integer(order_no as int),
        ),
        with_order_no(request, None).member("orderNo"@) == Some(JsonView::Null),
        key != "orderNo"@ ==> with_order_no(request, Some(order_no)).member(key)
            == request.member(key),
        key != "orderNo"@ ==> with_order_no(request, None).member(key) == request.member(key),
        with_id(request, id).member("id"@) == Some(JsonView::Text(id)),
        key != "id"@ ==> with_id(request, id).member(key) == request.member(key),
        order_json(Some(order_no)) == JsonView::Integer(order_no as int),
        order_json(None) == JsonView::Null,
{
}

/// What is written of a request that is added has the queue's id and order number, and every
/// other member of the request unchanged.
pub proof fn law_adding_writes_the_request(
    request: JsonView,
    id: Seq<char>,
    order_no: Option<i64>,
    key: Seq<char>,
)
    requires
        request is Object,
    ensures
        queued(request, id, order_no) is Object,
        key != "id"@ && key != "orderNo"@ ==> queued(request, id, order_no).member(key)
            == request.member(key),
        queued(request, id, order_no).member("id"@) == Some(JsonView::Text(id)),
        order_no is None ==> queued(request, id, order_no).member("orderNo"@) == Some(
            JsonView::Null,
        ),
        order_no matches Some(n) ==> queued(request, id, order_no).member("orderNo"@) == Some(
            JsonView::Integer(n as int),
        ),
{
    lemma_names_differ();
}

/// What is written of a request that is handled has the time, a null order number and the id
/// that its key gives, and every other member of the request unchanged.
pub proof fn law_marking_writes_the_request(
    request: JsonView,
    unique_key: Seq<char>,
    now: Timestamp,
    key: Seq<char>,
)
    requires
        request is Object,
    ensures
        handled_document(request, unique_key, now) is Object,
        key != "handledAt"@ && key != "orderNo"@ && key != "id"@ ==> handled_document(
            request,
            unique_key,
            now,
        ).member(key) == request.member(key),
        handled_document(request, unique_key, now).member("handledAt"@) == Some(
            JsonView::Text(now.spec_text()),
        ),
        handled_document(request, unique_key, now).member("orderNo"@) == Some(JsonView::Null),
        handled_document(request, unique_key, now).member("id"@) == Some(
            JsonView::Text(request_id_of(unique_key)),
        ),
{
    lemma_names_differ();
}

/// What is written of a request that is returned has its new order number and the id that its
/// key gives, and every other member of the request unchanged.
pub proof fn law_reclaiming_writes_the_request(
    request: JsonView,
    unique_key: Seq<char>,
    order_no: i64,
    key: Seq<char>,
)
    requires
        request is Object,
    ensures
        returned_document(request, unique_key, order_no) is Object,
        key != "orderNo"@ && key != "id"@ ==> returned_document(
            request,
            unique_key,
            order_no,
        ).member(key) == request.member(key),
        returned_document(request, unique_key, order_no).member("orderNo"@) == Some(
            JsonView::Integer(order_no as int),
        ),
        returned_document(request, unique_key, order_no).member("id"@) == Some(
            JsonView::Text(request_id_of(unique_key)),
        ),
{
    lemma_names_differ();
}

/// What the content of a candidate's file shows. A missing file has vanished, one without JSON is
/// unreadable, one without an integer order number is handled, one whose order number lies beyond
/// the time on either side is locked, and any other is free.
pub proof fn law_what_a_file_shows(
    text: Seq<char>,
    document: JsonView,
    n: i64,
    now: int,
    lock_millis: int,
)
    ensures
        sighting(None, now, lock_millis) is Vanished,
        json_parse(text) is None ==> sighting(Some(text), now, lock_millis) is Unreadable,
        json_parse(text) == Some(document) && order_no_of(document) is None ==> sighting(
            Some(text),
            now,
            lock_millis,
        ) is Handled,
        json_parse(text) == Some(document) && order_no_of(document) == Some(n) && (n > now || n
            < -now) ==> sighting(Some(text), now, lock_millis) == Sighting::Locked(n),
        json_parse(text) == Some(document) && order_no_of(document) == Some(n) && -now <= n <= now
            ==> sighting(Some(text), now, lock_millis) is Free,
{
}

/// A request that is fetched is locked until so long from now, on the side of zero that it was
/// on, and that is all that changes in its file.
pub proof fn law_fetching_writes_the_request(
    text: Seq<char>,
    now: int,
    lock_millis: int,
    order_no: i64,
    document: JsonView,
    key: Seq<char>,
)
    requires
        sighting(Some(text), now, lock_millis) == Sighting::Free(order_no, document),
        -i64::MAX <= now + lock_millis <= i64::MAX,
    ensures
        json_parse(text) is Some,
        ({
            let before = json_parse(text)->0;
            &&& order_no_of(before) matches Some(n)
            &&& n > 0 ==> order_no == now + lock_millis
            &&& n <= 0 ==> order_no == -(now + lock_millis)
            &&& document.member("orderNo"@) == Some(JsonView::Integer(order_no as int))
            &&& key != "orderNo"@ ==> document.member(key) == before.member(key)
        }),
{
}

/// A request that is fetched is handed out as its file has it: every member but the order number
/// is there, unchanged, and no other comes in.
pub proof fn law_fetched_request_is_that_on_file(
    text: Seq<char>,
    now: int,
    lock_millis: int,
    order_no: i64,
    document: JsonView,
    key: Seq<char>,
)
    requires
        sighting(Some(text), now, lock_millis) == Sighting::Free(order_no, document),
    ensures
        json_parse(text) is Some,
        key != "orderNo"@ ==> stripped(document).member(key) == (json_parse(text)->0).member(key),
        stripped(document).member("orderNo"@) is None,
{
}

/// What the file of a held lock shows. The lock is lost unless the file has the same key, id and
/// order number, and the order number lies beyond the time on either side.
pub proof fn law_what_a_lock_shows(
    scan: ProlongView,
    text: Seq<char>,
    document: JsonView,
    now: int,
)
    ensures
        scan.lock_state(None, now) is Vanished,
        json_parse(text) is None ==> scan.lock_state(Some(text), now) is Unreadable,
        json_parse(text) == Some(document) ==> {
            let n = scan.held.order_no;
            let live = {
                &&& unique_key_of(document) == Some(scan.held.unique_key)
                &&& document.member("id"@) == Some(JsonView::Text(scan.request_id))
                &&& document.member("orderNo"@) == Some(JsonView::Integer(n as int))
                &&& n > now || n < -now
            };
            let expiry = scan.extension + if n < 0 {
                -(n as int)
            } else {
                n as int
            };
            let state = scan.lock_state(Some(text), now);
            &&& !live ==> state == LockState::Lost(order_no_of(document))
            &&& live && expiry > i64::MAX ==> state is OutOfRange
            &&& live && expiry <= i64::MAX ==> state is Extended
        },
{
}

/// A lock that is extended runs longer by the extension, on the side of zero that it was on, and
/// that is all that changes in the request's file.
pub proof fn law_prolonging_writes_the_request(
    scan: ProlongView,
    text: Seq<char>,
    now: int,
    order_no: i64,
    document: JsonView,
    key: Seq<char>,
)
    requires
        scan.lock_state(Some(text), now) == LockState::Extended(order_no, document),
        scan.extension > 0,
    ensures
        json_parse(text) is Some,
        scan.held.order_no > 0 ==> order_no == scan.held.order_no + scan.extension,
        scan.held.order_no <= 0 ==> order_no == scan.held.order_no - scan.extension,
        document.member("orderNo"@) == Some(JsonView::Integer(order_no as int)),
        key != "orderNo"@ ==> document.member(key) == (json_parse(text)->0).member(key),
{
}

/// When a request file has its request as handled: it carries a handling time, or its order
/// number is null.
pub proof fn law_when_a_file_has_its_request_as_handled(document: JsonView, now: int)
    ensures
        filed_as_handled(document) <==> carries_handled_at(document) || document.member(
            "orderNo"@,
        ) == Some(JsonView::Null),
        order_no_of(document) matches Some(n) ==> filed_order(document, now) == n,
        order_no_of(document) is None ==> filed_order(document, now) == now,
{
}

/// What is found in a request file when the queue is opened. A file that cannot be read, holds no
/// JSON or has no key is passed over, and no other is.
pub proof fn law_what_is_found_in_a_file(
    text: Seq<char>,
    document: JsonView,
    key: Seq<char>,
    now: int,
    assume_sole_owner: bool,
)
    requires
        -i64::MAX <= now <= i64::MAX,
    ensures
        finding(None, now, assume_sole_owner) is Nothing,
        json_parse(text) is None ==> finding(Some(text), now, assume_sole_owner) is Nothing,
        json_parse(text) == Some(document) && unique_key_of(document) is None ==> finding(
            Some(text),
            now,
            assume_sole_owner,
        ) is Nothing,
        json_parse(text) == Some(document) && unique_key_of(document) == Some(key) ==> {
            let handled = carries_handled_at(document) || document.member("orderNo"@) == Some(
                JsonView::Null,
            );
            let n: int = match order_no_of(document) {
                Some(n) => n as int,
                None => now,
            };
            let locked = n > now || n < -now;
            &&& finding(Some(text), now, assume_sole_owner) matches Finding::Request(
                found,
                order_no,
                replacement,
            )
            &&& found == key
            &&& order_no is None <==> handled
            &&& !handled && !(assume_sole_owner && locked) ==> order_no == Some(n as i64)
            &&& !handled && assume_sole_owner && locked ==> order_no == Some(
                if n > 0 {
                    now as i64
                } else {
                    (-now) as i64
                },
            )
            &&& replacement is Some <==> !handled && assume_sole_owner && locked
        },
{
}

/// What a sole owner puts in place of a file whose lock it lifts is the same document, but for
/// the order number that the request is found under.
pub proof fn law_lifting_a_lock_writes_the_request(
    text: Seq<char>,
    now: int,
    assume_sole_owner: bool,
    found: Seq<char>,
    order_no: Option<i64>,
    replacement: JsonView,
    key: Seq<char>,
)
    requires
        finding(Some(text), now, assume_sole_owner) == Finding::Request(
            found,
            order_no,
            Some(replacement),
        ),
    ensures
        json_parse(text) is Some,
        order_no is Some,
        replacement.member("orderNo"@) == Some(JsonView::Integer(order_no->0 as int)),
        key != "orderNo"@ ==> replacement.member(key) == (json_parse(text)->0).member(key),
{
}

/// When a request file keeps the queue from being finished: its request has a key, is not
/// handled on file, and either has an order number there or is not handled in the index.
pub proof fn law_when_a_file_is_outstanding(
    queue: QueueView,
    text: Seq<char>,
    document: JsonView,
    key: Seq<char>,
)
    ensures
        !is_outstanding(queue, None),
        json_parse(text) is None ==> !is_outstanding(queue, Some(text)),
        json_parse(text) == Some(document) && unique_key_of(document) is None ==> !is_outstanding(
            queue,
            Some(text),
        ),
        json_parse(text) == Some(document) && unique_key_of(document) == Some(key) ==> {
            let handled = carries_handled_at(document) || document.member("orderNo"@) == Some(
                JsonView::Null,
            );
            let indexed_as_handled = queue.requests.contains_key(key)
                && queue.requests[key].order_no is None;
            &&& is_unhandled_on_file(Some(text)) <==> !handled
            &&& is_given_up(queue, Some(text)) <==> order_no_of(document) is None
                && indexed_as_handled
            &&& is_outstanding(queue, Some(text)) <==> !handled && (order_no_of(document) is Some
                || !indexed_as_handled)
        },
{
}

/// When a request file shows its request to be settled: it is handled on file, and has no order
/// number there that it could be fetched by.
pub proof fn law_when_a_file_shows_its_request_settled(text: Seq<char>, document: JsonView)
    ensures
        settled_key(None) is None,
        json_parse(text) is None ==> settled_key(Some(text)) is None,
        is_settled(document) <==> (carries_handled_at(document) || document.member("orderNo"@)
            == Some(JsonView::Null)) && order_no_of(document) is None,
        json_parse(text) == Some(document) ==> {
            let settled = (carries_handled_at(document) || document.member("orderNo"@) == Some(
                JsonView::Null,
            )) && order_no_of(document) is None;
            &&& settled ==> settled_key(Some(text)) == unique_key_of(document)
            &&& !settled ==> settled_key(Some(text)) is None
        },
{
}

} // verus!
