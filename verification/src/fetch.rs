//! Fetching and locking the next request.
//!
//! [`FileSystemRequestQueueClient::fetch_next_request`] lists the candidates. Each candidate's
//! file is read and given to [`FileSystemRequestQueueClient::fetch_examine`], since the file
//! and not the index says whether the request is locked. A request that can be locked is
//! written, [`FileSystemRequestQueueClient::fetch_locked`] records the lock in the index, and
//! [`FileSystemRequestQueueClient::fetch_held`] hands the request out.
//!
//! Whether a queue is empty is found out in the same way, by
//! [`FileSystemRequestQueueClient::is_empty`] and
//! [`FileSystemRequestQueueClient::empty_examine`], but nothing is locked.
use vstd::prelude::*;

use crate::candidates::is_candidate_order;
use crate::clock::Timestamp;
use crate::ids::{file_name_of, request_file_name, request_id_of, unique_key_to_request_id};
use crate::json::{json_dumps, json_parse, Json, JsonView};
use crate::models::{content_text, texts, writes, FileWrite};
use crate::order::{is_locked_order, keep_side, locked_at, on_side_of};
use crate::request::{
    order_no_of, read_order_no, set_order_no, strip_queue_internals, stripped, with_order_no,
};
use crate::state::{FileSystemRequestQueueClient, HeldView, QueueView};

verus! {

/// The candidates that are still to be tried.
pub struct FetchScan {
    /// Last candidate first.
    keys: Vec<String>,
    now: i64,
}

/// The model of [`FetchScan`].
#[verifier::ext_equal]
pub struct FetchView {
    pub keys: Seq<Seq<char>>,
    pub now: int,
}

/// A lock on a request: what the request's file has to hold for it.
pub struct FetchLock {
    unique_key: String,
    order_no: i64,
    document: Json,
    write: FileWrite,
}

/// The model of [`FetchLock`].
#[verifier::ext_equal]
pub struct LockView {
    pub unique_key: Seq<char>,
    pub order_no: i64,
    pub document: JsonView,
}

/// What came of a candidate.
pub enum FetchStep {
    /// It cannot be fetched; the scan goes on.
    Next(FetchScan),
    /// It can be fetched, once this lock is written.
    Lock(FetchLock),
}

/// What came of a candidate when it was only asked whether anything can be fetched.
pub enum EmptyStep {
    /// It cannot be fetched; the scan goes on.
    Next(FetchScan),
    /// It can be fetched: the queue is not empty.
    Fetchable,
}

/// What the file of a candidate shows.
pub enum Sighting {
    /// There is no file that can be read.
    Vanished,
    /// The file holds no JSON.
    Unreadable,
    /// The request is handled.
    Handled,
    /// The request is locked, under this order number.
    Locked(i64),
    /// The request can be locked, and is so by this order number and document.
    Free(i64, JsonView),
}

/// What the content of a candidate's file shows at `now`.
pub open spec fn sighting(content: Option<Seq<char>>, now: int, lock_millis: int) -> Sighting {
    match content {
        None => Sighting::Vanished,
        Some(text) => match json_parse(text) {
            None => Sighting::Unreadable,
            Some(document) => match order_no_of(document) {
                None => Sighting::Handled,
                Some(n) => if locked_at(n as int, now) {
                    Sighting::Locked(n)
                } else {
                    let order_no = on_side_of(n as int, now + lock_millis) as i64;
                    Sighting::Free(order_no, with_order_no(document, Some(order_no)))
                },
            },
        },
    }
}

/// The queue once a candidate's file was seen: the index follows the file.
pub open spec fn after_sighting(
    queue: QueueView,
    unique_key: Seq<char>,
    sighting: Sighting,
) -> QueueView {
    match sighting {
        Sighting::Vanished => queue.without_entry(unique_key),
        Sighting::Unreadable => queue,
        Sighting::Handled => queue.with_order(unique_key, None),
        Sighting::Locked(n) => queue.with_order(unique_key, Some(n)),
        Sighting::Free(_, _) => queue,
    }
}

/// What a candidate's file shows, before it is locked.
enum Look {
    Vanished,
    Unreadable,
    Handled,
    Locked(i64),
    /// The order number on record, and the request.
    Free(i64, Json),
}

/// Look at the content of a candidate's file, or at its absence.
fn look(content: Option<&str>, now: i64) -> (look: Look)
    ensures
        forall|lock_millis: int|
            match look {
                Look::Vanished => #[trigger] sighting(
                    content_text(content),
                    now as int,
                    lock_millis,
                ) == Sighting::Vanished,
                Look::Unreadable => sighting(content_text(content), now as int, lock_millis)
                    == Sighting::Unreadable,
                Look::Handled => sighting(content_text(content), now as int, lock_millis)
                    == Sighting::Handled,
                Look::Locked(n) => sighting(content_text(content), now as int, lock_millis)
                    == Sighting::Locked(n),
                Look::Free(n, request) => {
                    let order_no = on_side_of(n as int, now + lock_millis) as i64;
                    sighting(content_text(content), now as int, lock_millis) == Sighting::Free(
                        order_no,
                        with_order_no(request@, Some(order_no)),
                    )
                },
            },
{
    let text = match content {
        Some(text) => text,
        None => {
            return Look::Vanished;
        },
    };
    let request = match Json::parse(text) {
        Ok(request) => request,
        Err(_) => {
            return Look::Unreadable;
        },
    };
    match read_order_no(&request) {
        None => Look::Handled,
        Some(n) => if is_locked_order(n, now) {
            Look::Locked(n)
        } else {
            Look::Free(n, request)
        },
    }
}

/// What an examination of the first candidate comes to: the index follows the file, and the
/// request is locked if it is free.
pub open spec fn is_examined(
    before: QueueView,
    after: QueueView,
    scan: FetchView,
    seen: Sighting,
    step: FetchStep,
) -> bool {
    &&& after == after_sighting(before, scan.keys[0], seen)
    &&& match (seen, step) {
        (Sighting::Free(order_no, document), FetchStep::Lock(lock)) => lock@ == (LockView {
            unique_key: scan.keys[0],
            order_no,
            document,
        }),
        (Sighting::Free(_, _), FetchStep::Next(_)) => false,
        (_, FetchStep::Next(rest)) => rest@ == scan.rest(),
        (_, FetchStep::Lock(_)) => false,
    }
}

impl FetchView {
    /// The scan without its first candidate.
    pub open spec fn rest(self) -> FetchView {
        FetchView { keys: self.keys.skip(1), now: self.now }
    }
}

impl View for FetchScan {
    type V = FetchView;

    closed spec fn view(&self) -> FetchView {
        FetchView { keys: texts(self.keys@.reverse()), now: self.now as int }
    }
}

impl View for FetchLock {
    type V = LockView;

    closed spec fn view(&self) -> LockView {
        LockView {
            unique_key: self.unique_key@,
            order_no: self.order_no,
            document: self.document@,
        }
    }
}

impl FetchLock {
    #[verifier::type_invariant]
    spec fn well_formed(self) -> bool {
        writes(self.write, self.unique_key@, self.document@)
    }

    /// The file to be written.
    pub fn write(&self) -> (write: &FileWrite)
        ensures
            writes(*write, self@.unique_key, self@.document),
    {
        proof {
            use_type_invariant(self);
        }
        &self.write
    }
}

impl FetchScan {
    #[verifier::type_invariant]
    spec fn well_formed(self) -> bool {
        self.now >= -i64::MAX
    }

    /// The name of the file that has to be read next. There is none once every candidate has
    /// been tried: nothing can be fetched.
    pub fn next_file(&self) -> (name: Option<String>)
        ensures
            match name {
                Some(n) => self@.keys.len() > 0 && n@ == file_name_of(self@.keys[0]),
                None => self@.keys.len() == 0,
            },
    {
        if self.keys.len() == 0 {
            None
        } else {
            let key = &self.keys[self.keys.len() - 1];
            assert(key@ == self@.keys[0]);
            Some(request_file_name(key.as_str()))
        }
    }
}

impl FileSystemRequestQueueClient {
    /// Begin to fetch a request: list the candidates, in the order in which they are tried.
    pub fn fetch_next_request(&self, now: Timestamp) -> (scan: FetchScan)
        ensures
            scan@.now == now.spec_millis(),
            is_candidate_order(self@, now.spec_millis(), scan@.keys),
    {
        let mut source = self.ordered_candidate_keys(now);
        let ghost listed = source@;
        let mut keys: Vec<String> = Vec::new();
        assert(source@ + keys@.reverse() =~= listed);
        while source.len() > 0
            invariant
                source@ + keys@.reverse() == listed,
            decreases source@.len(),
        {
            let ghost source_before = source@;
            let ghost keys_before = keys@;
            let key = source.pop().unwrap();
            keys.push(key);
            assert(keys@.reverse() =~= seq![key] + keys_before.reverse());
            assert(source_before =~= source@.push(key));
            assert(source@ + keys@.reverse() =~= source_before + keys_before.reverse());
        }
        assert(keys@.reverse() =~= listed);
        FetchScan { keys, now: now.timestamp_millis() }
    }

    /// Let the index follow a candidate's file that shows that it cannot be fetched.
    fn follow(&mut self, unique_key: &String, look: &Look, Ghost(seen): Ghost<Sighting>)
        requires
            match *look {
                Look::Vanished => seen == Sighting::Vanished,
                Look::Unreadable => seen == Sighting::Unreadable,
                Look::Handled => seen == Sighting::Handled,
                Look::Locked(n) => seen == Sighting::Locked(n),
                Look::Free(_, _) => seen is Free,
            },
        ensures
            final(self)@ == after_sighting(old(self)@, unique_key@, seen),
    {
        match look {
            Look::Vanished => {
                self.requests.remove(unique_key.as_str());
                assert(self@ =~= old(self)@.without_entry(unique_key@));
            },
            Look::Handled => {
                self.set_indexed_order(unique_key, None);
            },
            Look::Locked(n) => {
                self.set_indexed_order(unique_key, Some(*n));
            },
            _ => {},
        }
    }

    /// Look at the content of the next candidate's file, or at its absence.
    pub fn fetch_examine(&mut self, scan: FetchScan, content: Option<&str>) -> (step: FetchStep)
        requires
            scan@.keys.len() > 0,
            sighting(content_text(content), scan@.now, old(self)@.lock_millis) is Free
                ==> old(self)@.lock_fits(scan@.now),
        ensures
            is_examined(
                old(self)@,
                final(self)@,
                scan@,
                sighting(content_text(content), scan@.now, old(self)@.lock_millis),
                step,
            ),
    {
        proof {
            use_type_invariant(&scan);
        }
        let ghost before = scan@;
        let ghost seen = sighting(content_text(content), before.now, self@.lock_millis);
        let FetchScan { mut keys, now } = scan;
        let unique_key = keys.pop().unwrap();
        assert(unique_key@ == before.keys[0]);
        assert(texts(keys@.reverse()) =~= before.keys.skip(1));
        let look = look(content, now);
        self.follow(&unique_key, &look, Ghost(seen));
        match look {
            Look::Free(disk_order, request) => {
                let order_no = keep_side(disk_order, now + self.lock.millis());
                let document = set_order_no(request, Some(order_no));
                let write = FileWrite {
                    file_name: request_file_name(unique_key.as_str()),
                    contents: json_dumps(&document),
                };
                FetchStep::Lock(FetchLock { unique_key, order_no, document, write })
            },
            _ => FetchStep::Next(FetchScan { keys, now }),
        }
    }

    /// Look at the content of the next candidate's file, or at its absence. `None`: the request
    /// is free, but its lock would expire out of range, and nothing was done.
    pub fn try_fetch_examine(&mut self, scan: FetchScan, content: Option<&str>) -> (step: Option<
        FetchStep,
    >)
        requires
            scan@.keys.len() > 0,
        ensures
            ({
                let seen = sighting(content_text(content), scan@.now, old(self)@.lock_millis);
                match step {
                    Some(step) => {
                        &&& seen is Free ==> old(self)@.lock_fits(scan@.now)
                        &&& is_examined(old(self)@, final(self)@, scan@, seen, step)
                    },
                    None => {
                        &&& seen is Free
                        &&& !old(self)@.lock_fits(scan@.now)
                        &&& final(self)@ == old(self)@
                    },
                }
            }),
    {
        proof {
            use_type_invariant(&scan);
        }
        if scan.now.checked_add(self.lock.millis()).is_none() {
            let ghost seen = sighting(content_text(content), scan@.now, self@.lock_millis);
            if let Look::Free(_, _) = look(content, scan.now) {
                assert(seen is Free);
                return None;
            }
            assert(!(seen is Free));
        }
        Some(self.fetch_examine(scan, content))
    }

    /// Begin to find out whether nothing can be fetched at `now`: whether the next
    /// [`fetch_next_request`](Self::fetch_next_request) would come back with nothing. Locked
    /// requests do not count: a queue that holds only those is empty, but not finished.
    ///
    /// Each candidate's file is given to [`empty_examine`](Self::empty_examine). The queue is
    /// empty once no candidate is left. The metadata is to be saved.
    pub fn is_empty(&mut self, now: Timestamp) -> (scan: FetchScan)
        ensures
            scan@.now == now.spec_millis(),
            is_candidate_order(old(self)@, now.spec_millis(), scan@.keys),
            final(self)@ == old(self)@.accessed(now),
    {
        let scan = self.fetch_next_request(now);
        self.metadata.base.accessed_at = now;
        assert(self@ =~= old(self)@.accessed(now));
        scan
    }

    /// Look whether the next candidate can be fetched. The index follows its file.
    pub fn empty_examine(&mut self, scan: FetchScan, content: Option<&str>) -> (step: EmptyStep)
        requires
            scan@.keys.len() > 0,
        ensures
            ({
                let seen = sighting(content_text(content), scan@.now, old(self)@.lock_millis);
                &&& final(self)@ == after_sighting(old(self)@, scan@.keys[0], seen)
                &&& match step {
                    EmptyStep::Fetchable => seen is Free,
                    EmptyStep::Next(rest) => !(seen is Free) && rest@ == scan@.rest(),
                }
            }),
    {
        proof {
            use_type_invariant(&scan);
        }
        let ghost before = scan@;
        let ghost seen = sighting(content_text(content), before.now, self@.lock_millis);
        let FetchScan { mut keys, now } = scan;
        let unique_key = keys.pop().unwrap();
        assert(unique_key@ == before.keys[0]);
        assert(texts(keys@.reverse()) =~= before.keys.skip(1));
        let look = look(content, now);
        self.follow(&unique_key, &look, Ghost(seen));
        match look {
            Look::Free(_, _) => EmptyStep::Fetchable,
            _ => EmptyStep::Next(FetchScan { keys, now }),
        }
    }

    /// Record that the file of a locked request was written. The metadata is to be saved.
    pub fn fetch_locked(&mut self, lock: &FetchLock, now: Timestamp)
        ensures
            final(self)@ == old(self)@.with_order(lock@.unique_key, Some(lock@.order_no)).accessed(
                now,
            ),
    {
        self.set_indexed_order(&lock.unique_key, Some(lock.order_no));
        self.metadata.base.accessed_at = now;
        assert(self@ =~= old(self)@.with_order(lock@.unique_key, Some(lock@.order_no)).accessed(
            now,
        ));
    }

    /// Hand out a request that was locked. Its lock is this client's from now on.
    pub fn fetch_held(&mut self, lock: FetchLock) -> (request: Json)
        ensures
            final(self)@ == old(self)@.holding(
                request_id_of(lock@.unique_key),
                HeldView { unique_key: lock@.unique_key, order_no: lock@.order_no },
            ),
            request@ == stripped(lock@.document),
            request@.member("orderNo"@) is None,
            forall|key: Seq<char>|
                key != "orderNo"@ ==> #[trigger] request@.member(key) == lock@.document.member(key),
    {
        let FetchLock { unique_key, order_no, document, write: _ } = lock;
        let request_id = unique_key_to_request_id(unique_key.as_str());
        self.hold(request_id, unique_key, order_no);
        strip_queue_internals(document)
    }
}

} // verus!
