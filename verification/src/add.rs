//! Adding a batch of requests.
//!
//! [`FileSystemRequestQueueClient::add_batch_of_requests`] begins a batch. Each
//! [`FileSystemRequestQueueClient::add_next`] runs on to the next request file that has to be
//! written, and [`FileSystemRequestQueueClient::add_written`] records that it was.
use vstd::prelude::*;

use crate::clock::Timestamp;
use crate::ids::{request_file_name, request_id_of, unique_key_to_request_id};
use crate::json::{json_dumps, Json, JsonView};
use crate::models::{
    processed_views, texts, writes, AddRequestsResponse, FileWrite, MetadataView,
    ProcessedRequest, ProcessedView, StorageError, UnprocessedRequest,
};
use crate::order::{calculate_order_no, order_number};
use crate::request::{
    carries_handled_at, extract_unique_key, has_handled_at, set_id, set_order_no, unique_key_of,
    with_id, with_order_no, MISSING_UNIQUE_KEY,
};
use crate::state::{FileSystemRequestQueueClient, QueueView, RequestEntry};
use crate::string_map::StringMap;

verus! {

/// A batch that is being added: what is left of it, and what became of the rest.
pub struct AddBatch {
    /// Last request first.
    remaining: Vec<Json>,
    forefront: bool,
    seen_in_batch: StringMap<()>,
    processed: Vec<ProcessedRequest>,
}

/// A request whose file has to be written before the batch goes on.
pub struct PendingAdd {
    batch: AddBatch,
    request_id: String,
    unique_key: String,
    entry: RequestEntry,
    already_present: bool,
    document: Ghost<JsonView>,
    write: FileWrite,
}

/// How far a batch got.
pub enum AddStep {
    /// Write this request's file, then go on.
    Write(PendingAdd),
    /// Every request has been taken. The metadata is to be saved.
    Finished(AddRequestsResponse),
}

/// The model of [`AddBatch`].
#[verifier::ext_equal]
pub struct AddView {
    pub remaining: Seq<JsonView>,
    pub forefront: bool,
    pub seen: Set<Seq<char>>,
    pub processed: Seq<ProcessedView>,
}

/// The model of [`PendingAdd`].
#[verifier::ext_equal]
pub struct PendingView {
    pub batch: AddView,
    pub unique_key: Seq<char>,
    pub entry: RequestEntry,
    pub already_present: bool,
    pub document: JsonView,
}

/// What is done with one request.
pub enum AddOutcome {
    /// It has no unique key.
    Refused,
    /// The queue has it already.
    Reported(ProcessedView),
    /// It is written, under this unique key and order number.
    Stored { unique_key: Seq<char>, order_no: Option<i64>, already_present: bool },
}

/// The model of [`AddStep`], or that the batch was refused.
pub enum AddStepView {
    Refused,
    Write(PendingView),
    Finished(Seq<ProcessedView>),
}

/// The models of a list of documents.
pub open spec fn documents(list: Seq<Json>) -> Seq<JsonView> {
    list.map_values(|document: Json| document@)
}

/// The request as it is written: with the queue's id and order number.
pub open spec fn queued(request: JsonView, id: Seq<char>, order_no: Option<i64>) -> JsonView {
    with_order_no(with_id(request, id), order_no)
}

/// What is done with a request that is added at `now`.
pub open spec fn add_outcome(
    queue: QueueView,
    seen: Set<Seq<char>>,
    forefront: bool,
    request: JsonView,
    now: int,
) -> AddOutcome {
    match unique_key_of(request) {
        None => AddOutcome::Refused,
        Some(unique_key) => {
            let already_present = queue.requests.contains_key(unique_key) || seen.contains(
                unique_key,
            );
            if queue.is_handled(unique_key) || (already_present && !forefront) {
                AddOutcome::Reported(
                    ProcessedView {
                        request_id: request_id_of(unique_key),
                        unique_key,
                        was_already_present: true,
                        was_already_handled: queue.is_handled(unique_key),
                    },
                )
            } else {
                let order_no = if carries_handled_at(request) {
                    None
                } else {
                    Some(order_number(now, forefront) as i64)
                };
                AddOutcome::Stored { unique_key, order_no, already_present }
            }
        },
    }
}

impl AddView {
    /// The batch after its first request was reported.
    pub open spec fn reporting(self, processed: ProcessedView) -> AddView {
        AddView {
            remaining: self.remaining.skip(1),
            processed: self.processed.push(processed),
            ..self
        }
    }

    /// The batch's first request, as it is to be written.
    pub open spec fn storing(
        self,
        queue: QueueView,
        unique_key: Seq<char>,
        order_no: Option<i64>,
        already_present: bool,
    ) -> PendingView {
        PendingView {
            batch: AddView { remaining: self.remaining.skip(1), ..self },
            unique_key,
            entry: RequestEntry { order_no, insertion_seq: queue.insertion_counter as u64 },
            already_present,
            document: queued(self.remaining[0], request_id_of(unique_key), order_no),
        }
    }

    /// The batch goes on to a request that has to be written, and so to be numbered.
    pub open spec fn needs_number(self, queue: QueueView) -> bool
        decreases self.remaining.len(),
    {
        if self.remaining.len() == 0 {
            false
        } else {
            match unique_key_of(self.remaining[0]) {
                None => false,
                Some(key) => {
                    let present = queue.requests.contains_key(key) || self.seen.contains(key);
                    if queue.is_handled(key) || (present && !self.forefront) {
                        AddView { remaining: self.remaining.skip(1), ..self }.needs_number(queue)
                    } else {
                        true
                    }
                },
            }
        }
    }

    /// How far the batch gets at `now`.
    pub open spec fn step(self, queue: QueueView, now: int) -> AddStepView
        decreases self.remaining.len(),
    {
        if self.remaining.len() == 0 {
            AddStepView::Finished(self.processed)
        } else {
            let request = self.remaining[0];
            match add_outcome(queue, self.seen, self.forefront, request, now) {
                AddOutcome::Refused => AddStepView::Refused,
                AddOutcome::Reported(processed) => self.reporting(processed).step(queue, now),
                AddOutcome::Stored { unique_key, order_no, already_present } => AddStepView::Write(
                    self.storing(queue, unique_key, order_no, already_present),
                ),
            }
        }
    }
}

impl PendingView {
    /// The queue once the request's file is written.
    ///
    /// A handled request never enters the forefront list. A request that was there before does
    /// not change the counts.
    pub open spec fn stored_in(self, queue: QueueView) -> QueueView {
        let handled = self.entry.order_no is None;
        let counted: int = if self.already_present {
            0
        } else {
            1
        };
        QueueView {
            requests: queue.requests.insert(self.unique_key, self.entry),
            metadata: MetadataView {
                forefront: if self.batch.forefront && !handled {
                    queue.metadata.forefront.push(self.unique_key)
                } else {
                    queue.metadata.forefront
                },
                total: queue.metadata.total + counted,
                handled: queue.metadata.handled + if handled {
                    counted
                } else {
                    0
                },
                pending: queue.metadata.pending + if handled {
                    0
                } else {
                    counted
                },
                ..queue.metadata
            },
            ..queue
        }
    }

    /// What is left of the batch once the request's file is written.
    pub open spec fn rest(self) -> AddView {
        AddView {
            seen: self.batch.seen.insert(self.unique_key),
            processed: self.batch.processed.push(
                ProcessedView {
                    request_id: request_id_of(self.unique_key),
                    unique_key: self.unique_key,
                    was_already_present: self.already_present,
                    was_already_handled: false,
                },
            ),
            ..self.batch
        }
    }
}

/// The queue once one more request has been numbered.
pub open spec fn numbering(queue: QueueView) -> QueueView {
    QueueView { insertion_counter: queue.insertion_counter + 1, ..queue }
}

/// The queue after a step of a batch at `now`. A request to be written is numbered at once.
pub open spec fn after_step(queue: QueueView, step: AddStepView, now: Timestamp) -> QueueView {
    match step {
        AddStepView::Refused => queue,
        AddStepView::Write(_) => numbering(queue),
        AddStepView::Finished(_) => queue.modified(now),
    }
}

impl View for AddBatch {
    type V = AddView;

    closed spec fn view(&self) -> AddView {
        AddView {
            remaining: documents(self.remaining@.reverse()),
            forefront: self.forefront,
            seen: self.seen_in_batch@.dom(),
            processed: processed_views(self.processed@),
        }
    }
}

impl View for PendingAdd {
    type V = PendingView;

    closed spec fn view(&self) -> PendingView {
        PendingView {
            batch: self.batch@,
            unique_key: self.unique_key@,
            entry: self.entry,
            already_present: self.already_present,
            document: self.document@,
        }
    }
}

impl PendingAdd {
    #[verifier::type_invariant]
    spec fn well_formed(self) -> bool {
        &&& self.request_id@ == request_id_of(self.unique_key@)
        &&& writes(self.write, self.unique_key@, self.document@)
    }

    /// The file to be written.
    pub fn write(&self) -> (write: &FileWrite)
        ensures
            writes(*write, self@.unique_key, self@.document),
    {
        proof {
            use_type_invariant(self);
        }
        &self.write
    }
}

impl FileSystemRequestQueueClient {
    /// Begin to add a batch of requests.
    pub fn add_batch_of_requests(&self, requests: Vec<Json>, forefront: bool) -> (batch: AddBatch)
        ensures
            batch@ == (AddView {
                remaining: documents(requests@),
                forefront,
                seen: Set::empty(),
                processed: Seq::empty(),
            }),
    {
        let mut source = requests;
        let mut remaining: Vec<Json> = Vec::new();
        assert(source@ + remaining@.reverse() =~= requests@);
        while source.len() > 0
            invariant
                source@ + remaining@.reverse() == requests@,
            decreases source@.len(),
        {
            let ghost source_before = source@;
            let ghost remaining_before = remaining@;
            let request = source.pop().unwrap();
            remaining.push(request);
            assert(remaining@.reverse() =~= seq![request] + remaining_before.reverse());
            assert(source_before =~= source@.push(request));
            assert(source@ + remaining@.reverse() =~= source_before + remaining_before.reverse());
        }
        assert(remaining@.reverse() =~= requests@);
        let batch = AddBatch {
            remaining,
            forefront,
            seen_in_batch: StringMap::new(),
            processed: Vec::new(),
        };
        assert(batch@.seen =~= Set::empty());
        assert(batch@.processed =~= Seq::empty());
        batch
    }

    /// Whether the batch goes on to a request that has to be numbered.
    pub fn needs_number(&self, batch: &AddBatch) -> (needs: bool)
        ensures
            needs == batch@.needs_number(self@),
    {
        let mut left = batch.remaining.len();
        let ghost all = documents(batch.remaining@.reverse());
        assert(all.skip(0) =~= all);
        while left > 0
            invariant
                left <= batch.remaining@.len(),
                all == documents(batch.remaining@.reverse()),
                batch@.needs_number(self@) == (AddView {
                    remaining: all.skip(all.len() - left),
                    ..batch@
                }).needs_number(self@),
            decreases left,
        {
            let ghost rest = all.skip(all.len() - left);
            left = left - 1;
            let request = &batch.remaining[left];
            assert(rest[0] == request@);
            assert(rest.skip(1) =~= all.skip(all.len() - left));
            let unique_key = match extract_unique_key(request) {
                Ok(key) => key,
                Err(_) => {
                    return false;
                },
            };
            let present = self.requests.contains_key(unique_key.as_str())
                || batch.seen_in_batch.contains_key(unique_key.as_str());
            let handled = self.indexed_as_handled(unique_key.as_str());
            if !handled && !(present && !batch.forefront) {
                return true;
            }
        }
        false
    }

    /// Run a batch on to the next request that has to be written, or to its end.
    ///
    /// A request without a unique key ends the batch; what was written before it stays.
    pub fn add_next(&mut self, batch: AddBatch, now: Timestamp) -> (step: Result<
        AddStep,
        StorageError,
    >)
        requires
            batch@.needs_number(old(self)@) ==> old(self)@.has_room(),
        ensures
            match (batch@.step(old(self)@, now.spec_millis()), step) {
                (AddStepView::Refused, Err(e)) => e.refuses_with(MISSING_UNIQUE_KEY@),
                (AddStepView::Write(expected), Ok(AddStep::Write(pending))) => pending@ == expected,
                (AddStepView::Finished(expected), Ok(AddStep::Finished(response))) => {
                    &&& processed_views(response.processed_requests@) == expected
                    &&& response.unprocessed_requests@.len() == 0
                },
                _ => false,
            },
            final(self)@ == after_step(
                old(self)@,
                batch@.step(old(self)@, now.spec_millis()),
                now,
            ),
    {
        let ghost millis = now.spec_millis();
        let ghost target = batch@.step(self@, millis);
        let AddBatch { mut remaining, forefront, seen_in_batch, mut processed } = batch;
        let ghost seen = seen_in_batch@.dom();
        while remaining.len() > 0
            invariant
                self@ == old(self)@,
                batch@.needs_number(self@) ==> self@.has_room(),
                batch@.needs_number(self@) == (AddView {
                    remaining: documents(remaining@.reverse()),
                    forefront,
                    seen,
                    processed: batch@.processed,
                }).needs_number(self@),
                seen == seen_in_batch@.dom(),
                millis == now.spec_millis(),
                target == batch@.step(self@, millis),
                target == (AddView {
                    remaining: documents(remaining@.reverse()),
                    forefront,
                    seen,
                    processed: processed_views(processed@),
                }).step(self@, millis),
            decreases remaining@.len(),
        {
            let ghost current = AddView {
                remaining: documents(remaining@.reverse()),
                forefront,
                seen,
                processed: processed_views(processed@),
            };
            let ghost remaining_before = remaining@;
            let ghost processed_before = processed@;
            let request = remaining.pop().unwrap();
            assert(current.remaining[0] == request@);
            assert(documents(remaining@.reverse()) =~= current.remaining.skip(1));
            let unique_key = match extract_unique_key(&request) {
                Ok(key) => key,
                Err(e) => {
                    return Err(e);
                },
            };
            let request_id = unique_key_to_request_id(unique_key.as_str());
            let already_handled = self.indexed_as_handled(unique_key.as_str());
            let already_present = self.requests.contains_key(unique_key.as_str())
                || seen_in_batch.contains_key(unique_key.as_str());
            if already_handled || (already_present && !forefront) {
                let report = ProcessedRequest {
                    request_id,
                    unique_key,
                    was_already_present: true,
                    was_already_handled: already_handled,
                };
                processed.push(report);
                assert(processed_views(processed@) =~= processed_views(processed_before).push(
                    report@,
                ));
                continue ;
            }
            let order_no = if has_handled_at(&request) {
                None
            } else {
                Some(calculate_order_no(now, forefront))
            };
            let entry = RequestEntry { order_no, insertion_seq: self.insertion_counter };
            self.insertion_counter = self.insertion_counter + 1;
            let ghost original = request@;
            let document = set_order_no(set_id(request, &request_id), order_no);
            assert(document@ == queued(original, request_id@, order_no));
            let write = FileWrite {
                file_name: request_file_name(unique_key.as_str()),
                contents: json_dumps(&document),
            };
            let rest = AddBatch { remaining, forefront, seen_in_batch, processed };
            let pending = PendingAdd {
                batch: rest,
                request_id,
                unique_key,
                entry,
                already_present,
                document: Ghost(document@),
                write,
            };
            assert(pending@.batch == (AddView { remaining: current.remaining.skip(1), ..current }));
            assert(self@ =~= after_step(old(self)@, target, now));
            return Ok(AddStep::Write(pending));
        }
        self.metadata.base.accessed_at = now;
        self.metadata.base.modified_at = now;
        assert(documents(remaining@.reverse()).len() == 0);
        assert(self@ =~= after_step(old(self)@, target, now));
        let unprocessed: Vec<UnprocessedRequest> = Vec::new();
        Ok(
            AddStep::Finished(
                AddRequestsResponse {
                    processed_requests: processed,
                    unprocessed_requests: unprocessed,
                },
            ),
        )
    }

    /// Record that a request's file was written.
    pub fn add_written(&mut self, pending: PendingAdd) -> (batch: AddBatch)
        requires
            old(self)@.counts_fit(),
        ensures
            final(self)@ == pending@.stored_in(old(self)@),
            batch@ == pending@.rest(),
            final(self)@.metadata.forefront == if pending@.batch.forefront
                && pending@.entry.order_no is Some {
                old(self)@.metadata.forefront.push(pending@.unique_key)
            } else {
                old(self)@.metadata.forefront
            },
    {
        proof {
            use_type_invariant(&pending);
        }
        let ghost expected = pending@;
        let PendingAdd {
            mut batch,
            request_id,
            unique_key,
            entry,
            already_present,
            document: _,
            write: _,
        } = pending;
        let handled = entry.order_no.is_none();
        self.requests.insert(unique_key.clone(), entry);
        if batch.forefront && !handled {
            self.metadata.forefront_request_ids.push(unique_key.clone());
            assert(texts(self.metadata.forefront_request_ids@) =~= texts(
                old(self).metadata.forefront_request_ids@,
            ).push(unique_key@));
        }
        if !already_present {
            self.metadata.total_request_count = self.metadata.total_request_count + 1;
            if handled {
                self.metadata.handled_request_count = self.metadata.handled_request_count + 1;
            } else {
                self.metadata.pending_request_count = self.metadata.pending_request_count + 1;
            }
        }
        batch.seen_in_batch.insert(unique_key.clone(), ());
        let report = ProcessedRequest {
            request_id,
            unique_key,
            was_already_present: already_present,
            was_already_handled: false,
        };
        let ghost processed_before = batch.processed@;
        batch.processed.push(report);
        assert(processed_views(batch.processed@) =~= processed_views(processed_before).push(
            report@,
        ));
        assert(batch@ =~= expected.rest());
        assert(self@ =~= expected.stored_in(old(self)@));
        batch
    }
}

} // verus!
