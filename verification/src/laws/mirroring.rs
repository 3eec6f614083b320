//! Laws on the index as a mirror of the request files.
use vstd::prelude::*;

use crate::add::{numbering, AddView, PendingView};
use crate::clock::Timestamp;
use crate::fetch::Sighting;
use crate::ids::file_name_of;
use crate::json::{holds, json_parse, JsonView};
use crate::laws::adding::{about_to_write, lemma_what_is_written};
use crate::laws::documents::{law_queue_fields_survive_the_disk, lemma_names_differ};
use crate::laws::fetching::{file_shows, in_step};
use crate::laws::locking::lemma_order_is_on_record;
use crate::prolong::{ExtensionView, LockState, ProlongView};
use crate::request::{order_no_of, unique_key_of};
use crate::settle::{handled_document, returned_document, MarkView, ReclaimView};
use crate::state::{QueueView, RequestEntry};

verus! {

/// The file of the request is there, and has this order number on record.
pub open spec fn records(
    files: Map<Seq<char>, Seq<char>>,
    unique_key: Seq<char>,
    order_no: Option<i64>,
) -> bool {
    let name = file_name_of(unique_key);
    &&& files.contains_key(name)
    &&& json_parse(files[name]) matches Some(document)
    &&& unique_key_of(document) == Some(unique_key)
    &&& order_no_of(document) == order_no
}

/// The files record every request of the index, under the order number of the index.
pub open spec fn mirrors(
    requests: Map<Seq<char>, RequestEntry>,
    files: Map<Seq<char>, Seq<char>>,
) -> bool {
    forall|key: Seq<char>| #[trigger]
        requests.contains_key(key) ==> records(files, key, requests[key].order_no)
}

/// No other request of the index has its file under the same name.
pub open spec fn has_own_file(
    requests: Map<Seq<char>, RequestEntry>,
    unique_key: Seq<char>,
) -> bool {
    forall|other: Seq<char>| #[trigger]
        requests.contains_key(other) && other != unique_key ==> file_name_of(other)
            != file_name_of(unique_key)
}

proof fn lemma_write_keeps_the_mirror(
    requests: Map<Seq<char>, RequestEntry>,
    files: Map<Seq<char>, Seq<char>>,
    unique_key: Seq<char>,
    entry: RequestEntry,
    document: JsonView,
    text: Seq<char>,
)
    requires
        mirrors(requests, files),
        has_own_file(requests, unique_key),
        unique_key_of(document) == Some(unique_key),
        order_no_of(document) == entry.order_no,
        holds(text, document),
        json_parse(text) is Some,
    ensures
        mirrors(
            requests.insert(unique_key, entry),
            files.insert(file_name_of(unique_key), text),
        ),
{
    law_queue_fields_survive_the_disk(text, document);
    let after = requests.insert(unique_key, entry);
    let after_files = files.insert(file_name_of(unique_key), text);
    assert forall|key: Seq<char>| #[trigger] after.contains_key(key) implies records(
        after_files,
        key,
        after[key].order_no,
    ) by {
        if key != unique_key {
            assert(requests.contains_key(key));
            assert(records(files, key, requests[key].order_no));
        }
    }
}

/// While the index mirrors the files, the files are in step with it.
pub proof fn law_mirror_is_in_step(queue: QueueView, now: int, files: Map<Seq<char>, Seq<char>>)
    requires
        mirrors(queue.requests, files),
    ensures
        in_step(queue, now, files),
{
    assert forall|key: Seq<char>| #[trigger] queue.is_fetchable(key, now) implies {
        let name = file_name_of(key);
        &&& files.contains_key(name)
        &&& json_parse(files[name]) matches Some(document)
        &&& order_no_of(document) == queue.requests[key].order_no
    } by {
        assert(records(files, key, queue.requests[key].order_no));
    }
}

/// Adding a request keeps the index a mirror of the files.
pub proof fn law_adding_keeps_the_mirror(
    queue: QueueView,
    batch: AddView,
    now: int,
    pending: PendingView,
    files: Map<Seq<char>, Seq<char>>,
    text: Seq<char>,
)
    requires
        mirrors(queue.requests, files),
        about_to_write(queue, batch, now, pending),
        has_own_file(queue.requests, pending.unique_key),
        holds(text, pending.document),
        json_parse(text) is Some,
    ensures
        mirrors(
            pending.stored_in(numbering(queue)).requests,
            files.insert(file_name_of(pending.unique_key), text),
        ),
{
    lemma_what_is_written(queue, batch, now, pending);
    lemma_write_keeps_the_mirror(
        queue.requests,
        files,
        pending.unique_key,
        pending.entry,
        pending.document,
        text,
    );
}

/// Locking a request keeps the index a mirror of the files.
pub proof fn law_locking_keeps_the_mirror(
    queue: QueueView,
    unique_key: Seq<char>,
    now: int,
    order_no: i64,
    document: JsonView,
    files: Map<Seq<char>, Seq<char>>,
    text: Seq<char>,
)
    requires
        mirrors(queue.requests, files),
        queue.requests.contains_key(unique_key),
        has_own_file(queue.requests, unique_key),
        file_shows(files, unique_key, now, queue.lock_millis) == Sighting::Free(
            order_no,
            document,
        ),
        holds(text, document),
        json_parse(text) is Some,
    ensures
        mirrors(
            queue.with_order(unique_key, Some(order_no)).requests,
            files.insert(file_name_of(unique_key), text),
        ),
{
    let before = json_parse(files[file_name_of(unique_key)])->0;
    assert(records(files, unique_key, queue.requests[unique_key].order_no));
    lemma_order_is_on_record(before, order_no);
    lemma_write_keeps_the_mirror(
        queue.requests,
        files,
        unique_key,
        queue.with_order(unique_key, Some(order_no)).requests[unique_key],
        document,
        text,
    );
}

/// Marking a request as handled keeps the index a mirror of the files.
pub proof fn law_marking_keeps_the_mirror(
    queue: QueueView,
    request: JsonView,
    mark: MarkView,
    files: Map<Seq<char>, Seq<char>>,
    text: Seq<char>,
)
    requires
        mirrors(queue.requests, files),
        unique_key_of(request) == Some(mark.unique_key),
        mark.document == handled_document(request, mark.unique_key, mark.now),
        has_own_file(queue.requests, mark.unique_key),
        holds(text, mark.document),
        json_parse(text) is Some,
    ensures
        mirrors(
            mark.recorded_in(queue).requests,
            files.insert(file_name_of(mark.unique_key), text),
        ),
{
    lemma_names_differ();
    lemma_write_keeps_the_mirror(
        queue.requests,
        files,
        mark.unique_key,
        mark.recorded_in(queue).requests[mark.unique_key],
        mark.document,
        text,
    );
}

/// Returning a request keeps the index a mirror of the files.
pub proof fn law_reclaiming_keeps_the_mirror(
    queue: QueueView,
    request: JsonView,
    reclaim: ReclaimView,
    now: Timestamp,
    files: Map<Seq<char>, Seq<char>>,
    text: Seq<char>,
)
    requires
        mirrors(queue.requests, files),
        unique_key_of(request) == Some(reclaim.unique_key),
        reclaim.document == returned_document(request, reclaim.unique_key, reclaim.order_no),
        has_own_file(queue.requests, reclaim.unique_key),
        holds(text, reclaim.document),
        json_parse(text) is Some,
    ensures
        mirrors(
            reclaim.recorded_in(queue, now).requests,
            files.insert(file_name_of(reclaim.unique_key), text),
        ),
{
    lemma_names_differ();
    lemma_write_keeps_the_mirror(
        queue.requests,
        files,
        reclaim.unique_key,
        reclaim.recorded_in(queue, now).requests[reclaim.unique_key],
        reclaim.document,
        text,
    );
}

/// Extending a lock keeps the index a mirror of the files.
pub proof fn law_prolonging_keeps_the_mirror(
    queue: QueueView,
    scan: ProlongView,
    content: Seq<char>,
    at: int,
    extension: ExtensionView,
    now: Timestamp,
    files: Map<Seq<char>, Seq<char>>,
    text: Seq<char>,
)
    requires
        mirrors(queue.requests, files),
        scan.lock_state(Some(content), at) == LockState::Extended(
            extension.held.order_no,
            extension.document,
        ),
        extension.held.unique_key == scan.held.unique_key,
        queue.requests.contains_key(scan.held.unique_key),
        has_own_file(queue.requests, scan.held.unique_key),
        holds(text, extension.document),
        json_parse(text) is Some,
    ensures
        mirrors(
            extension.recorded_in(queue, now).requests,
            files.insert(file_name_of(scan.held.unique_key), text),
        ),
{
    let key = scan.held.unique_key;
    lemma_order_is_on_record(json_parse(content)->0, extension.held.order_no);
    lemma_write_keeps_the_mirror(
        queue.requests,
        files,
        key,
        extension.recorded_in(queue, now).requests[key],
        extension.document,
        text,
    );
}

} // verus!
