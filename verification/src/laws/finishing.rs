//! Laws on queues that are finished.
use vstd::prelude::*;

use crate::fetch::{after_sighting, sighting, Sighting};
use crate::finish::{after_glance, is_outstanding, is_unhandled_on_file, settled_key};
use crate::json::{json_parse, JsonView};
use crate::laws::counting::is_pending;
use crate::laws::fetching::content_of;
use crate::open::{filed_as_handled, finding, Finding};
use crate::request::{order_no_of, unique_key_of};
use crate::state::QueueView;

verus! {

/// The queue after the request files of these names were looked at, and whether it is finished.
pub open spec fn finish_scan(
    queue: QueueView,
    names: Seq<Seq<char>>,
    files: Map<Seq<char>, Seq<char>>,
) -> (QueueView, bool)
    decreases names.len(),
{
    if names.len() == 0 {
        (queue, queue.is_finished())
    } else {
        let content = content_of(files, names[0]);
        let next = after_glance(queue, content);
        if is_outstanding(queue, content) {
            (next, false)
        } else {
            finish_scan(next, names.skip(1), files)
        }
    }
}

/// The queue once it followed the files of these names.
pub open spec fn glanced(
    queue: QueueView,
    names: Seq<Seq<char>>,
    files: Map<Seq<char>, Seq<char>>,
) -> QueueView
    decreases names.len(),
{
    if names.len() == 0 {
        queue
    } else {
        glanced(after_glance(queue, content_of(files, names[0])), names.skip(1), files)
    }
}

/// The file at position `i` keeps the queue from being finished, once the index has followed the
/// files before it.
pub open spec fn stands_open(
    queue: QueueView,
    names: Seq<Seq<char>>,
    files: Map<Seq<char>, Seq<char>>,
    i: int,
) -> bool {
    is_outstanding(glanced(queue, names.take(i), files), content_of(files, names[i]))
}

/// Some file shows that the request is settled.
pub open spec fn is_shown_settled(
    names: Seq<Seq<char>>,
    files: Map<Seq<char>, Seq<char>>,
    key: Seq<char>,
) -> bool {
    exists|i: int|
        0 <= i < names.len() && settled_key(content_of(files, #[trigger] names[i])) == Some(key)
}

/// Whether a file shows an unhandled request does not depend on when it is looked at.
pub proof fn law_unhandled_at_any_time(content: Option<Seq<char>>, now: int)
    ensures
        is_unhandled_on_file(content) <==> (finding(content, now, false) matches Finding::Request(
            _,
            Some(_),
            _,
        )),
{
}

/// A request whose file has an order number, and one that the index does not have as handled,
/// keeps the queue from being finished until its file says that it is handled.
pub proof fn law_unhandled_request_is_outstanding(
    queue: QueueView,
    text: Seq<char>,
    document: JsonView,
    key: Seq<char>,
)
    requires
        json_parse(text) == Some(document),
        unique_key_of(document) == Some(key),
        !filed_as_handled(document),
        order_no_of(document) is Some || !queue.is_handled(key),
    ensures
        is_outstanding(queue, Some(text)),
{
}

/// A request that a fetch gave up, for want of an order number on file, does not keep the queue
/// from being finished.
pub proof fn law_what_a_fetch_gave_up_is_not_outstanding(
    queue: QueueView,
    text: Seq<char>,
    key: Seq<char>,
    now: int,
    lock_millis: int,
)
    requires
        json_parse(text) is Some,
        unique_key_of(json_parse(text)->0) == Some(key),
        queue.requests.contains_key(key),
        sighting(Some(text), now, lock_millis) is Handled,
    ensures
        !is_outstanding(
            after_sighting(queue, key, sighting(Some(text), now, lock_millis)),
            Some(text),
        ),
{
}

/// A queue is finished exactly when no request file stands open, whoever wrote it, and each
/// pending request of the index is settled on file.
pub proof fn law_finished_means_nothing_is_outstanding(
    queue: QueueView,
    names: Seq<Seq<char>>,
    files: Map<Seq<char>, Seq<char>>,
)
    ensures
        finish_scan(queue, names, files).1 <==> {
            &&& forall|i: int|
                0 <= i < names.len() ==> !#[trigger] stands_open(queue, names, files, i)
            &&& forall|key: Seq<char>| #[trigger]
                is_pending(queue.requests, key) ==> is_shown_settled(names, files, key)
        },
    decreases names.len(),
{
    if names.len() == 0 {
        assert(queue.is_finished() <==> forall|key: Seq<char>| !#[trigger] is_pending(
            queue.requests,
            key,
        )) by {
            if forall|key: Seq<char>| !#[trigger] is_pending(queue.requests, key) {
                assert forall|key: Seq<char>| #[trigger] queue.requests.contains_key(
                    key,
                ) implies queue.requests[key].order_no is None by {
                    assert(!is_pending(queue.requests, key));
                }
            }
        }
        assert forall|key: Seq<char>| !#[trigger] is_shown_settled(names, files, key) by {}
    } else {
        let content = content_of(files, names[0]);
        let next = after_glance(queue, content);
        let rest = names.skip(1);
        law_finished_means_nothing_is_outstanding(next, rest, files);
        assert(names.take(0).len() == 0);
        assert(stands_open(queue, names, files, 0) == is_outstanding(queue, content));
        assert forall|i: int| 0 < i < names.len() implies #[trigger] stands_open(
            queue,
            names,
            files,
            i,
        ) == stands_open(next, rest, files, i - 1) by {
            assert(names.take(i).skip(1) =~= rest.take(i - 1));
            assert(names.take(i)[0] == names[0]);
            assert(rest[i - 1] == names[i]);
        }
        let result = finish_scan(queue, names, files).1;
        if result {
            assert forall|i: int| 0 <= i < names.len() implies !#[trigger] stands_open(
                queue,
                names,
                files,
                i,
            ) by {
                if i > 0 {
                    assert(!stands_open(next, rest, files, i - 1));
                }
            }
            assert forall|key: Seq<char>| #[trigger] is_pending(
                queue.requests,
                key,
            ) implies is_shown_settled(names, files, key) by {
                if settled_key(content) == Some(key) {
                    assert(settled_key(content_of(files, names[0])) == Some(key));
                } else {
                    assert(is_pending(next.requests, key));
                    let i = choose|i: int|
                        0 <= i < rest.len() && settled_key(content_of(files, #[trigger] rest[i]))
                            == Some(key);
                    assert(names[i + 1] == rest[i]);
                }
            }
        } else if !is_outstanding(queue, content) {
            if forall|i: int|
                0 <= i < names.len() ==> !#[trigger] stands_open(queue, names, files, i) {
                assert forall|i: int| 0 <= i < rest.len() implies !#[trigger] stands_open(
                    next,
                    rest,
                    files,
                    i,
                ) by {
                    assert(!stands_open(queue, names, files, i + 1));
                }
                let key = choose|key: Seq<char>|
                    #[trigger] is_pending(next.requests, key) && !is_shown_settled(
                        rest,
                        files,
                        key,
                    );
                assert(is_pending(queue.requests, key));
                assert(settled_key(content) != Some(key));
                assert(!is_shown_settled(names, files, key)) by {
                    if is_shown_settled(names, files, key) {
                        let i = choose|i: int|
                            0 <= i < names.len() && settled_key(
                                content_of(files, #[trigger] names[i]),
                            ) == Some(key);
                        assert(rest[i - 1] == names[i]);
                    }
                }
            }
        } else {
            assert(stands_open(queue, names, files, 0));
        }
    }
}

/// A finished queue is empty: nothing can be fetched from the index that it leaves. The converse
/// fails while a request is locked.
pub proof fn law_finished_queue_is_empty(
    queue: QueueView,
    names: Seq<Seq<char>>,
    files: Map<Seq<char>, Seq<char>>,
    now: int,
)
    requires
        finish_scan(queue, names, files).1,
    ensures
        finish_scan(queue, names, files).0.is_finished(),
        !finish_scan(queue, names, files).0.has_fetchable(now),
    decreases names.len(),
{
    if names.len() > 0 {
        law_finished_queue_is_empty(
            after_glance(queue, content_of(files, names[0])),
            names.skip(1),
            files,
            now,
        );
    }
}

} // verus!
