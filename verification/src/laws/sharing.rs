//! Laws on clients that share a queue's directory.
use vstd::prelude::*;

use crate::clock::Timestamp;
use crate::fetch::{sighting, Sighting};
use crate::ids::file_name_of;
use crate::json::{holds, json_parse, JsonView};
use crate::laws::documents::{law_queue_fields_survive_the_disk, lemma_names_differ};
use crate::laws::fetching::{content_of, law_scan_ends_with_the_first_free, scan};
use crate::laws::locking::lemma_order_is_on_record;
use crate::prolong::{magnitude, LockState, ProlongView};
use crate::request::{order_no_of, unique_key_of};
use crate::settle::handled_document;
use crate::state::QueueView;

verus! {

/// A call, on any client that shares the directory, as it concerns the file of one request. Not
/// among these are the calls that end a lock on purpose: to return the request, to write it anew
/// by adding it, and to open the queue as its sole owner.
pub enum Call {
    /// A fetch at this time, by a client that locks requests for so long.
    Fetch { now: int, lock_millis: int },
    /// The request is marked as handled.
    Mark { request: JsonView, handled_at: Timestamp },
    /// A lock is to be extended.
    Prolong { scan: ProlongView, now: int },
    /// A call that leaves the file as it is: one that only reads, one that is about another
    /// request, or one that is refused.
    Other,
}

impl Call {
    /// The call may turn the content of the request's file from `before` to `after`.
    pub open spec fn turns(
        self,
        unique_key: Seq<char>,
        before: Option<Seq<char>>,
        after: Option<Seq<char>>,
    ) -> bool {
        match self {
            Call::Fetch { now, lock_millis } => match sighting(before, now, lock_millis) {
                Sighting::Free(_, document) => after matches Some(text) && holds(text, document),
                _ => after == before,
            },
            Call::Mark { request, handled_at } => {
                &&& unique_key_of(request) == Some(unique_key)
                &&& after matches Some(text)
                &&& holds(text, handled_document(request, unique_key, handled_at))
            },
            Call::Prolong { scan, now } => {
                &&& scan.extension > 0
                &&& match scan.lock_state(before, now) {
                    LockState::Extended(_, document) => after matches Some(text) && holds(
                        text,
                        document,
                    ),
                    _ => after == before,
                }
            },
            Call::Other => after == before,
        }
    }
}

/// The file shows no request that could be fetched before `until`.
pub open spec fn is_reserved(content: Option<Seq<char>>, until: int) -> bool {
    content matches Some(text) ==> json_parse(text) matches Some(document) ==> order_no_of(
        document,
    ) matches Some(n) ==> magnitude(n as int) >= until
}

proof fn lemma_call_keeps_it_reserved(
    call: Call,
    unique_key: Seq<char>,
    before: Option<Seq<char>>,
    after: Option<Seq<char>>,
    until: int,
)
    requires
        is_reserved(before, until),
        call.turns(unique_key, before, after),
        call matches Call::Fetch { now, .. } ==> now < until,
    ensures
        is_reserved(after, until),
{
    match call {
        Call::Fetch { .. } => {},
        Call::Mark { request, handled_at } => {
            lemma_names_differ();
            let text = after->0;
            if json_parse(text) is Some {
                law_queue_fields_survive_the_disk(
                    text,
                    handled_document(request, unique_key, handled_at),
                );
            }
        },
        Call::Prolong { scan, now } => {
            match scan.lock_state(before, now) {
                LockState::Extended(order_no, document) => {
                    let text = after->0;
                    lemma_order_is_on_record(json_parse(before->0)->0, order_no);
                    if json_parse(text) is Some {
                        law_queue_fields_survive_the_disk(text, document);
                    }
                },
                _ => {},
            }
        },
        Call::Other => {},
    }
}

/// The calls turn the file's contents one into the next, and each fetch among them is made before
/// `until`.
pub open spec fn is_history(
    unique_key: Seq<char>,
    calls: Seq<Call>,
    contents: Seq<Option<Seq<char>>>,
    until: int,
) -> bool {
    &&& contents.len() == calls.len() + 1
    &&& forall|i: int|
        0 <= i < calls.len() ==> {
            &&& (#[trigger] calls[i]).turns(unique_key, contents[i], contents[i + 1])
            &&& calls[i] matches Call::Fetch { now, .. } ==> now < until
        }
}

proof fn lemma_history_keeps_it_reserved(
    unique_key: Seq<char>,
    calls: Seq<Call>,
    contents: Seq<Option<Seq<char>>>,
    until: int,
    n: int,
)
    requires
        is_history(unique_key, calls, contents, until),
        is_reserved(contents[0], until),
        0 <= n <= calls.len(),
    ensures
        is_reserved(contents[n], until),
    decreases n,
{
    if n > 0 {
        lemma_history_keeps_it_reserved(unique_key, calls, contents, until, n - 1);
        lemma_call_keeps_it_reserved(
            calls[n - 1],
            unique_key,
            contents[n - 1],
            contents[n],
            until,
        );
    }
}

/// No request is handed out twice within its lock time. Once a fetch at `now` has locked a
/// request for `lock_millis` and written that, no later fetch before the lock runs out hands it
/// out, on any client that shares the directory, whatever calls were made in between. The calls
/// that end a lock on purpose are left out.
pub proof fn law_no_request_is_handed_out_twice(
    unique_key: Seq<char>,
    content: Seq<char>,
    now: int,
    lock_millis: int,
    order_no: i64,
    document: JsonView,
    calls: Seq<Call>,
    contents: Seq<Option<Seq<char>>>,
    later: int,
    queue: QueueView,
    keys: Seq<Seq<char>>,
    files: Map<Seq<char>, Seq<char>>,
)
    requires
        0 <= now + lock_millis <= i64::MAX,
        sighting(Some(content), now, lock_millis) == Sighting::Free(order_no, document),
        is_history(unique_key, calls, contents, now + lock_millis),
        contents[0] matches Some(text) && holds(text, document),
        content_of(files, file_name_of(unique_key)) == contents.last(),
        later < now + lock_millis,
    ensures
        scan(queue, keys, later, files).1 matches Some(lock) ==> lock.unique_key != unique_key,
{
    let until = now + lock_millis;
    let text = contents[0]->0;
    lemma_order_is_on_record(json_parse(content)->0, order_no);
    if json_parse(text) is Some {
        law_queue_fields_survive_the_disk(text, document);
    }
    lemma_history_keeps_it_reserved(unique_key, calls, contents, until, calls.len() as int);
    law_scan_ends_with_the_first_free(queue, keys, later, files);
}

} // verus!
