//! The state of a queue client and its model.
use vstd::prelude::*;

use crate::clock::Timestamp;
use crate::models::{MetadataView, RequestQueueMetadata};
use crate::order::locked_at;
use crate::string_map::StringMap;

verus! {

/// How long a fetched request stays locked unless a longer time is asked for, in milliseconds.
pub const DEFAULT_LOCK_MILLIS: i64 = 180_000;

/// What the index knows of one request.
#[derive(Clone, Copy, Debug, PartialEq, Eq)]
pub struct RequestEntry {
    /// `None` once the request has been handled.
    pub order_no: Option<i64>,
    /// Breaks ties between requests with the same order number. Never persisted.
    pub insertion_seq: u64,
}

/// A lock that this client took: the order number exactly as it was persisted.
#[derive(Debug, PartialEq, Eq)]
pub struct HeldRequestLock {
    pub unique_key: String,
    pub order_no: i64,
}

/// The model of [`HeldRequestLock`].
#[verifier::ext_equal]
pub struct HeldView {
    pub unique_key: Seq<char>,
    pub order_no: i64,
}

impl View for HeldRequestLock {
    type V = HeldView;

    open spec fn view(&self) -> HeldView {
        HeldView { unique_key: self.unique_key@, order_no: self.order_no }
    }
}

/// A request queue that lives in a directory of request files.
///
/// The methods decide; whoever holds the client reads and writes the files. An operation that
/// needs a file in the middle is split where the file is read or written.
pub struct FileSystemRequestQueueClient {
    pub(crate) metadata: RequestQueueMetadata,
    /// By unique key. The request files are authoritative for locks; this is an index of them.
    pub(crate) requests: StringMap<RequestEntry>,
    /// By request id.
    pub(crate) held_locks: StringMap<HeldRequestLock>,
    pub(crate) insertion_counter: u64,
    pub(crate) lock: LockDuration,
}

/// How long a fetched request stays locked. It is only ever raised, so that a consumer which is
/// quickly done cannot cut short the reservation of one that takes longer.
pub struct LockDuration {
    millis: i64,
}

impl View for LockDuration {
    type V = int;

    closed spec fn view(&self) -> int {
        self.millis as int
    }
}

impl LockDuration {
    #[verifier::type_invariant]
    spec fn well_formed(self) -> bool {
        self.millis >= DEFAULT_LOCK_MILLIS
    }

    /// The duration that holds unless a longer one is asked for.
    pub fn new() -> (lock: LockDuration)
        ensures
            lock@ == DEFAULT_LOCK_MILLIS,
    {
        LockDuration { millis: DEFAULT_LOCK_MILLIS }
    }

    /// The duration in milliseconds.
    pub fn millis(&self) -> (millis: i64)
        ensures
            millis == self@,
            millis >= DEFAULT_LOCK_MILLIS,
    {
        proof {
            use_type_invariant(self);
        }
        self.millis
    }

    /// Take a longer duration, and ignore one that is not longer.
    pub fn raise(&mut self, millis: i64)
        ensures
            final(self)@ == raised(old(self)@, millis as int),
    {
        proof {
            use_type_invariant(&*self);
        }
        if millis > self.millis {
            self.millis = millis;
        }
    }
}

/// The longer of two durations.
pub open spec fn raised(lock_millis: int, millis: int) -> int {
    if millis > lock_millis {
        millis
    } else {
        lock_millis
    }
}

/// The model of [`FileSystemRequestQueueClient`].
#[verifier::ext_equal]
pub struct QueueView {
    pub metadata: MetadataView,
    pub requests: Map<Seq<char>, RequestEntry>,
    pub held_locks: Map<Seq<char>, HeldView>,
    pub insertion_counter: int,
    pub lock_millis: int,
}

impl QueueView {
    /// The index has the request as handled.
    pub open spec fn is_handled(self, unique_key: Seq<char>) -> bool {
        self.requests.contains_key(unique_key) && self.requests[unique_key].order_no is None
    }

    /// The index has the request as neither handled nor locked at `now`.
    pub open spec fn is_fetchable(self, unique_key: Seq<char>, now: int) -> bool {
        &&& self.requests.contains_key(unique_key)
        &&& self.requests[unique_key].order_no matches Some(n)
        &&& !locked_at(n as int, now)
    }

    /// One more request can be numbered.
    pub open spec fn has_room(self) -> bool {
        self.insertion_counter < u64::MAX
    }

    /// The request has a number in the index, or can be given one.
    pub open spec fn has_room_for(self, unique_key: Seq<char>) -> bool {
        self.requests.contains_key(unique_key) || self.has_room()
    }

    /// One more request can be counted.
    pub open spec fn counts_fit(self) -> bool {
        &&& self.metadata.handled < usize::MAX
        &&& self.metadata.pending < usize::MAX
        &&& self.metadata.total < usize::MAX
    }

    /// A request fetched at `now` can be locked.
    pub open spec fn lock_fits(self, now: int) -> bool {
        now + self.lock_millis <= i64::MAX
    }

    /// The queue after an access at `now`.
    pub open spec fn accessed(self, now: Timestamp) -> QueueView {
        QueueView { metadata: MetadataView { accessed_at: now, ..self.metadata }, ..self }
    }

    /// The queue after a modification at `now`.
    pub open spec fn modified(self, now: Timestamp) -> QueueView {
        QueueView {
            metadata: MetadataView { accessed_at: now, modified_at: now, ..self.metadata },
            ..self
        }
    }

    /// The queue with this order number in the index, where the request is indexed.
    pub open spec fn with_order(self, unique_key: Seq<char>, order_no: Option<i64>) -> QueueView {
        if self.requests.contains_key(unique_key) {
            self.with_entry(
                unique_key,
                RequestEntry { order_no, insertion_seq: self.requests[unique_key].insertion_seq },
            )
        } else {
            self
        }
    }

    /// The queue with this entry in the index.
    pub open spec fn with_entry(self, unique_key: Seq<char>, entry: RequestEntry) -> QueueView {
        QueueView { requests: self.requests.insert(unique_key, entry), ..self }
    }

    /// The queue without the request in the index.
    pub open spec fn without_entry(self, unique_key: Seq<char>) -> QueueView {
        QueueView { requests: self.requests.remove(unique_key), ..self }
    }

    /// The queue with this lock held.
    pub open spec fn holding(self, request_id: Seq<char>, lock: HeldView) -> QueueView {
        QueueView { held_locks: self.held_locks.insert(request_id, lock), ..self }
    }

    /// The queue without a lock on the request.
    pub open spec fn releasing(self, request_id: Seq<char>) -> QueueView {
        QueueView { held_locks: self.held_locks.remove(request_id), ..self }
    }
}

impl FileSystemRequestQueueClient {
    /// The model of this client.
    pub open(crate) spec fn model(&self) -> QueueView {
        QueueView {
            metadata: self.metadata@,
            requests: self.requests@,
            held_locks: self.held_locks@.map_values(|lock: HeldRequestLock| lock@),
            insertion_counter: self.insertion_counter as int,
            lock_millis: self.lock@,
        }
    }

    /// Put an order number into the index, where the request is indexed.
    pub(crate) fn set_indexed_order(&mut self, unique_key: &String, order_no: Option<i64>)
        ensures
            final(self)@ == old(self)@.with_order(unique_key@, order_no),
    {
        let known: Option<u64> = match self.requests.get(unique_key.as_str()) {
            Some(entry) => Some(entry.insertion_seq),
            None => None,
        };
        match known {
            Some(insertion_seq) => {
                self.requests.insert(unique_key.clone(), RequestEntry { order_no, insertion_seq });
            },
            None => {},
        }
        assert(self@ =~= old(self)@.with_order(unique_key@, order_no));
    }

    /// Record a lock as held.
    pub(crate) fn hold(&mut self, request_id: String, unique_key: String, order_no: i64)
        ensures
            final(self)@ == old(self)@.holding(
                request_id@,
                HeldView { unique_key: unique_key@, order_no },
            ),
    {
        let lock = HeldRequestLock { unique_key, order_no };
        let ghost id = request_id@;
        self.held_locks.insert(request_id, lock);
        assert(self@ =~= old(self)@.holding(id, lock@));
    }

    /// Forget a lock.
    pub(crate) fn release(&mut self, request_id: &str)
        ensures
            final(self)@ == old(self)@.releasing(request_id@),
    {
        self.held_locks.remove(request_id);
        assert(self@ =~= old(self)@.releasing(request_id@));
    }

    /// Whether the index has the request as handled.
    pub(crate) fn indexed_as_handled(&self, unique_key: &str) -> (handled: bool)
        ensures
            handled == self@.is_handled(unique_key@),
    {
        match self.requests.get(unique_key) {
            Some(entry) => entry.order_no.is_none(),
            None => false,
        }
    }

    /// Whether one more request can be numbered.
    pub fn has_room(&self) -> (room: bool)
        ensures
            room == self@.has_room(),
    {
        self.insertion_counter < u64::MAX
    }

    /// Whether the request has a number in the index, or can be given one.
    pub fn has_room_for(&self, unique_key: &str) -> (room: bool)
        ensures
            room == self@.has_room_for(unique_key@),
    {
        self.requests.contains_key(unique_key) || self.has_room()
    }

    /// Whether one more request can be counted.
    pub fn counts_fit(&self) -> (fit: bool)
        ensures
            fit == self@.counts_fit(),
    {
        self.metadata.handled_request_count < usize::MAX && self.metadata.pending_request_count
            < usize::MAX && self.metadata.total_request_count < usize::MAX
    }

    /// Whether the lock of a request fetched at `now` has an expiry that can be expressed.
    pub fn lock_fits(&self, now: Timestamp) -> (fits: bool)
        ensures
            fits == self@.lock_fits(now.spec_millis()),
    {
        now.timestamp_millis().checked_add(self.lock.millis()).is_some()
    }

    /// How many requests are counted as handled.
    pub fn handled_request_count(&self) -> (count: usize)
        ensures
            count == self@.metadata.handled,
    {
        self.metadata.handled_request_count
    }

    /// The queue metadata.
    pub fn get_metadata(&self) -> (metadata: RequestQueueMetadata)
        ensures
            metadata@ == self@.metadata,
    {
        self.metadata.clone()
    }
}

impl View for FileSystemRequestQueueClient {
    type V = QueueView;

    open(crate) spec fn view(&self) -> QueueView {
        self.model()
    }
}

} // verus!
