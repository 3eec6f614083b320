//! Marking a request as handled, and returning it to the queue.
//!
//! Neither needs the request to be locked still: a consumer whose lock expired must be able to
//! finish. Each decides first and, where the request's file has to be written, records the
//! outcome once that was done.
use vstd::prelude::*;

use crate::clock::Timestamp;
use crate::ids::{request_file_name, request_id_of, unique_key_to_request_id};
use crate::json::{json_dumps, Json, JsonView};
use crate::models::{
    texts, writes, FileWrite, MetadataView, ProcessedRequest, ProcessedView, StorageError,
};
use crate::order::{calculate_order_no, order_number};
use crate::request::{
    extract_unique_key, set_id, set_order_no, unique_key_of, with_id, with_order_no,
    MISSING_UNIQUE_KEY,
};
use crate::state::{FileSystemRequestQueueClient, QueueView, RequestEntry};

verus! {

/// A request whose file has to be written as handled.
pub struct PendingMark {
    request_id: String,
    unique_key: String,
    now: Timestamp,
    document: Ghost<JsonView>,
    write: FileWrite,
}

/// The model of [`PendingMark`].
pub struct MarkView {
    pub unique_key: Seq<char>,
    pub now: Timestamp,
    pub document: JsonView,
}

/// A request whose file has to be written as pending again.
pub struct PendingReclaim {
    request_id: String,
    unique_key: String,
    forefront: bool,
    order_no: i64,
    document: Ghost<JsonView>,
    write: FileWrite,
}

/// The model of [`PendingReclaim`].
pub struct ReclaimView {
    pub unique_key: Seq<char>,
    pub forefront: bool,
    pub order_no: i64,
    pub document: JsonView,
}

/// What is to be done about a request that a consumer is through with.
pub enum SettleStep<P> {
    /// Nothing has to be written. `None`: the request cannot be settled.
    Done(Option<ProcessedRequest>),
    /// The request's file has to be written.
    Write(P),
}

/// What the queue makes of a request that a consumer is through with.
pub enum Standing {
    /// The request has no unique key.
    Refused,
    /// Neither the index nor the directory has it.
    Unknown(Seq<char>),
    /// The index has it as handled.
    Handled(Seq<char>),
    /// It is still to be settled.
    Open(Seq<char>),
}

/// What the queue makes of a request, given whether its file exists.
pub open spec fn standing(queue: QueueView, request: JsonView, file_exists: bool) -> Standing {
    match unique_key_of(request) {
        None => Standing::Refused,
        Some(key) => if !file_exists && !queue.requests.contains_key(key) {
            Standing::Unknown(key)
        } else if queue.is_handled(key) {
            Standing::Handled(key)
        } else {
            Standing::Open(key)
        },
    }
}

/// The queue once a standing was found: a request that needs no write loses its lock at once.
pub open spec fn after_standing(queue: QueueView, standing: Standing) -> QueueView {
    match standing {
        Standing::Refused => queue,
        Standing::Unknown(key) => queue.releasing(request_id_of(key)),
        Standing::Handled(key) => queue.releasing(request_id_of(key)),
        Standing::Open(_) => queue,
    }
}

/// The request as it is written when it was handled at `now`. Its id is derived from its key.
pub open spec fn handled_document(
    request: JsonView,
    unique_key: Seq<char>,
    now: Timestamp,
) -> JsonView {
    with_id(
        with_order_no(request.with_member("handledAt"@, JsonView::Text(now.spec_text())), None),
        request_id_of(unique_key),
    )
}

/// The request as it is written when it is returned to the queue. Its id is derived from its
/// key.
pub open spec fn returned_document(
    request: JsonView,
    unique_key: Seq<char>,
    order_no: i64,
) -> JsonView {
    with_id(with_order_no(request, Some(order_no)), request_id_of(unique_key))
}

/// What is reported of a request that is settled.
pub open spec fn settled_report(unique_key: Seq<char>, handled: bool) -> ProcessedView {
    ProcessedView {
        request_id: request_id_of(unique_key),
        unique_key,
        was_already_present: true,
        was_already_handled: handled,
    }
}

/// The list without any occurrence of a key.
pub open spec fn all_but(list: Seq<Seq<char>>, key: Seq<char>) -> Seq<Seq<char>> {
    list.filter(|other: Seq<char>| other != key)
}

/// One less, but not less than none.
pub open spec fn one_less(count: int) -> int {
    if count > 0 {
        count - 1
    } else {
        0
    }
}

impl MarkView {
    /// The queue once the request's file says that it is handled.
    pub open spec fn recorded_in(self, queue: QueueView) -> QueueView {
        let key = self.unique_key;
        let entry = RequestEntry {
            order_no: None,
            insertion_seq: if queue.requests.contains_key(key) {
                queue.requests[key].insertion_seq
            } else {
                0
            },
        };
        QueueView {
            metadata: MetadataView {
                forefront: all_but(queue.metadata.forefront, key),
                handled: queue.metadata.handled + 1,
                pending: one_less(queue.metadata.pending),
                ..queue.metadata
            },
            ..queue
        }.releasing(request_id_of(key)).with_entry(key, entry).modified(self.now)
    }
}

impl ReclaimView {
    /// The queue once the request's file says that it is pending again.
    pub open spec fn recorded_in(self, queue: QueueView, now: Timestamp) -> QueueView {
        let key = self.unique_key;
        let indexed = queue.requests.contains_key(key);
        let entry = RequestEntry {
            order_no: Some(self.order_no),
            insertion_seq: if indexed {
                queue.requests[key].insertion_seq
            } else {
                queue.insertion_counter as u64
            },
        };
        QueueView {
            metadata: MetadataView {
                forefront: if self.forefront && !queue.metadata.forefront.contains(key) {
                    queue.metadata.forefront.push(key)
                } else {
                    queue.metadata.forefront
                },
                ..queue.metadata
            },
            insertion_counter: queue.insertion_counter + if indexed {
                0int
            } else {
                1
            },
            ..queue
        }.releasing(request_id_of(key)).with_entry(key, entry).modified(now)
    }
}

impl View for PendingMark {
    type V = MarkView;

    closed spec fn view(&self) -> MarkView {
        MarkView { unique_key: self.unique_key@, now: self.now, document: self.document@ }
    }
}

impl View for PendingReclaim {
    type V = ReclaimView;

    closed spec fn view(&self) -> ReclaimView {
        ReclaimView {
            unique_key: self.unique_key@,
            forefront: self.forefront,
            order_no: self.order_no,
            document: self.document@,
        }
    }
}

impl PendingMark {
    #[verifier::type_invariant]
    spec fn well_formed(self) -> bool {
        &&& self.request_id@ == request_id_of(self.unique_key@)
        &&& writes(self.write, self.unique_key@, self.document@)
    }

    /// The file to be written.
    pub fn write(&self) -> (write: &FileWrite)
        ensures
            writes(*write, self@.unique_key, self@.document),
    {
        proof {
            use_type_invariant(self);
        }
        &self.write
    }
}

impl PendingReclaim {
    #[verifier::type_invariant]
    spec fn well_formed(self) -> bool {
        &&& self.request_id@ == request_id_of(self.unique_key@)
        &&& writes(self.write, self.unique_key@, self.document@)
    }

    /// The file to be written.
    pub fn write(&self) -> (write: &FileWrite)
        ensures
            writes(*write, self@.unique_key, self@.document),
    {
        proof {
            use_type_invariant(self);
        }
        &self.write
    }

    /// The unique key of the request.
    pub fn unique_key(&self) -> (key: &String)
        ensures
            key@ == self@.unique_key,
    {
        &self.unique_key
    }
}

impl FileSystemRequestQueueClient {
    /// Find a request's standing.
    fn find_standing(&mut self, request: &Json, file_exists: bool) -> (found: Result<
        (String, String, bool, bool),
        StorageError,
    >)
        ensures
            final(self)@ == after_standing(
                old(self)@,
                standing(old(self)@, request@, file_exists),
            ),
            match (standing(old(self)@, request@, file_exists), found) {
                (Standing::Refused, Err(e)) => e.refuses_with(MISSING_UNIQUE_KEY@),
                (Standing::Refused, Ok(_)) => false,
                (_, Err(_)) => false,
                (Standing::Unknown(key), Ok((unique_key, request_id, known, _))) => {
                    !known && unique_key@ == key && request_id@ == request_id_of(key)
                },
                (Standing::Handled(key), Ok((unique_key, request_id, known, handled))) => {
                    known && handled && unique_key@ == key && request_id@ == request_id_of(key)
                },
                (Standing::Open(key), Ok((unique_key, request_id, known, handled))) => {
                    known && !handled && unique_key@ == key && request_id@ == request_id_of(key)
                },
            },
    {
        let unique_key = match extract_unique_key(request) {
            Ok(key) => key,
            Err(e) => {
                return Err(e);
            },
        };
        let request_id = unique_key_to_request_id(unique_key.as_str());
        let known = file_exists || self.requests.contains_key(unique_key.as_str());
        let handled = self.indexed_as_handled(unique_key.as_str());
        if !known || handled {
            self.release(request_id.as_str());
        }
        Ok((unique_key, request_id, known, handled))
    }

    /// Begin to mark a request as handled. To mark one again is no error.
    pub fn mark_request_as_handled(
        &mut self,
        request: Json,
        file_exists: bool,
        now: Timestamp,
    ) -> (step: Result<SettleStep<PendingMark>, StorageError>)
        ensures
            final(self)@ == after_standing(
                old(self)@,
                standing(old(self)@, request@, file_exists),
            ),
            match (standing(old(self)@, request@, file_exists), step) {
                (Standing::Refused, Err(e)) => e.refuses_with(MISSING_UNIQUE_KEY@),
                (Standing::Unknown(_), Ok(SettleStep::Done(report))) => report is None,
                (Standing::Handled(key), Ok(SettleStep::Done(Some(report)))) => report@
                    == settled_report(key, true),
                (Standing::Open(key), Ok(SettleStep::Write(pending))) => pending@ == (MarkView {
                    unique_key: key,
                    now,
                    document: handled_document(request@, key, now),
                }),
                _ => false,
            },
            step matches Ok(SettleStep::Write(pending)) ==> forall|member: Seq<char>|
                member != "handledAt"@ && member != "orderNo"@ && member != "id"@
                    ==> #[trigger] pending@.document.member(member) == request@.member(member),
    {
        let (unique_key, request_id, known, handled) = match self.find_standing(
            &request,
            file_exists,
        ) {
            Ok(found) => found,
            Err(e) => {
                return Err(e);
            },
        };
        if !known {
            return Ok(SettleStep::Done(None));
        }
        if handled {
            return Ok(
                SettleStep::Done(
                    Some(
                        ProcessedRequest {
                            request_id,
                            unique_key,
                            was_already_present: true,
                            was_already_handled: true,
                        },
                    ),
                ),
            );
        }
        let stamped = request.set("handledAt", Json::Text(now.handled_at_text()));
        let document = set_id(set_order_no(stamped, None), &request_id);
        let write = FileWrite {
            file_name: request_file_name(unique_key.as_str()),
            contents: json_dumps(&document),
        };
        Ok(
            SettleStep::Write(
                PendingMark { request_id, unique_key, now, document: Ghost(document@), write },
            ),
        )
    }

    /// Record that a request's file was written as handled. The metadata is to be saved.
    pub fn marked(&mut self, pending: PendingMark) -> (report: ProcessedRequest)
        requires
            old(self)@.metadata.handled < usize::MAX,
        ensures
            final(self)@ == pending@.recorded_in(old(self)@),
            report@ == settled_report(pending@.unique_key, true),
    {
        proof {
            use_type_invariant(&pending);
        }
        let ghost expected = pending@.recorded_in(self@);
        let PendingMark { request_id, unique_key, now, document: _, write: _ } = pending;
        self.release(request_id.as_str());
        let insertion_seq: u64 = match self.requests.get(unique_key.as_str()) {
            Some(entry) => entry.insertion_seq,
            None => 0,
        };
        self.requests.insert(unique_key.clone(), RequestEntry { order_no: None, insertion_seq });
        self.metadata.forefront_request_ids = without_key(
            &self.metadata.forefront_request_ids,
            &unique_key,
        );
        self.metadata.handled_request_count = self.metadata.handled_request_count + 1;
        self.metadata.pending_request_count = self.metadata.pending_request_count.saturating_sub(1);
        self.metadata.base.accessed_at = now;
        self.metadata.base.modified_at = now;
        assert(self@ =~= expected);
        ProcessedRequest {
            request_id,
            unique_key,
            was_already_present: true,
            was_already_handled: true,
        }
    }

    /// Begin to return a request to the queue, at the forefront or behind the others.
    pub fn reclaim_request(
        &mut self,
        request: Json,
        forefront: bool,
        file_exists: bool,
        now: Timestamp,
    ) -> (step: Result<SettleStep<PendingReclaim>, StorageError>)
        ensures
            final(self)@ == after_standing(
                old(self)@,
                standing(old(self)@, request@, file_exists),
            ),
            match (standing(old(self)@, request@, file_exists), step) {
                (Standing::Refused, Err(e)) => e.refuses_with(MISSING_UNIQUE_KEY@),
                (Standing::Unknown(_), Ok(SettleStep::Done(report))) => report is None,
                (Standing::Handled(_), Ok(SettleStep::Done(report))) => report is None,
                (Standing::Open(key), Ok(SettleStep::Write(pending))) => {
                    let order_no = order_number(now.spec_millis(), forefront) as i64;
                    pending@ == (ReclaimView {
                        unique_key: key,
                        forefront,
                        order_no,
                        document: returned_document(request@, key, order_no),
                    })
                },
                _ => false,
            },
            step matches Ok(SettleStep::Write(pending)) ==> forall|member: Seq<char>|
                member != "orderNo"@ && member != "id"@ ==> #[trigger] pending@.document.member(
                    member,
                ) == request@.member(member),
    {
        let (unique_key, request_id, known, handled) = match self.find_standing(
            &request,
            file_exists,
        ) {
            Ok(found) => found,
            Err(e) => {
                return Err(e);
            },
        };
        if !known || handled {
            return Ok(SettleStep::Done(None));
        }
        let order_no = calculate_order_no(now, forefront);
        let document = set_id(set_order_no(request, Some(order_no)), &request_id);
        let write = FileWrite {
            file_name: request_file_name(unique_key.as_str()),
            contents: json_dumps(&document),
        };
        Ok(
            SettleStep::Write(
                PendingReclaim {
                    request_id,
                    unique_key,
                    forefront,
                    order_no,
                    document: Ghost(document@),
                    write,
                },
            ),
        )
    }

    /// Record that a request's file was written as pending. The metadata is to be saved.
    ///
    /// The request keeps its place among requests with the same order number.
    pub fn reclaimed(&mut self, pending: PendingReclaim, now: Timestamp) -> (report:
        ProcessedRequest)
        requires
            old(self)@.has_room_for(pending@.unique_key),
        ensures
            final(self)@ == pending@.recorded_in(old(self)@, now),
            report@ == settled_report(pending@.unique_key, false),
            final(self)@.metadata.forefront == if pending@.forefront && !old(
                self,
            )@.metadata.forefront.contains(pending@.unique_key) {
                old(self)@.metadata.forefront.push(pending@.unique_key)
            } else {
                old(self)@.metadata.forefront
            },
    {
        proof {
            use_type_invariant(&pending);
        }
        let ghost expected = pending@.recorded_in(self@, now);
        let PendingReclaim {
            request_id,
            unique_key,
            forefront,
            order_no,
            document: _,
            write: _,
        } = pending;
        self.release(request_id.as_str());
        let known: Option<u64> = match self.requests.get(unique_key.as_str()) {
            Some(entry) => Some(entry.insertion_seq),
            None => None,
        };
        let insertion_seq = match known {
            Some(insertion_seq) => insertion_seq,
            None => {
                let minted = self.insertion_counter;
                self.insertion_counter = minted + 1;
                minted
            },
        };
        self.requests.insert(
            unique_key.clone(),
            RequestEntry { order_no: Some(order_no), insertion_seq },
        );
        if forefront && !lists_key(&self.metadata.forefront_request_ids, &unique_key) {
            self.metadata.forefront_request_ids.push(unique_key.clone());
            assert(texts(self.metadata.forefront_request_ids@) =~= texts(
                old(self).metadata.forefront_request_ids@,
            ).push(unique_key@));
        }
        self.metadata.base.accessed_at = now;
        self.metadata.base.modified_at = now;
        assert(self@ =~= expected);
        ProcessedRequest {
            request_id,
            unique_key,
            was_already_present: true,
            was_already_handled: false,
        }
    }
}

/// The list without any occurrence of a key.
fn without_key(list: &Vec<String>, key: &String) -> (kept: Vec<String>)
    ensures
        texts(kept@) == all_but(texts(list@), key@),
{
    let ghost all = texts(list@);
    let mut kept: Vec<String> = Vec::new();
    let mut i: usize = 0;
    assert(all_but(all.take(0), key@) =~= texts(kept@)) by {
        reveal(Seq::filter);
    }
    while i < list.len()
        invariant
            i <= list@.len(),
            all == texts(list@),
            texts(kept@) == all_but(all.take(i as int), key@),
        decreases list@.len() - i,
    {
        let ghost before = texts(kept@);
        proof {
            reveal(Seq::filter);
            assert(all.take(i + 1).drop_last() =~= all.take(i as int));
            assert(all.take(i + 1).last() == list@[i as int]@);
        }
        if list[i] != *key {
            kept.push(list[i].clone());
            assert(texts(kept@) =~= before.push(list@[i as int]@));
        }
        i += 1;
    }
    assert(all.take(i as int) =~= all);
    kept
}

/// Whether a key occurs in the list.
fn lists_key(list: &Vec<String>, key: &String) -> (found: bool)
    ensures
        found == texts(list@).contains(key@),
{
    let ghost all = texts(list@);
    let mut i: usize = 0;
    while i < list.len()
        invariant
            i <= list@.len(),
            all == texts(list@),
            forall|j: int| 0 <= j < i ==> #[trigger] all[j] != key@,
        decreases list@.len() - i,
    {
        if list[i] == *key {
            assert(all[i as int] == key@);
            return true;
        }
        i += 1;
    }
    false
}

} // verus!
