//! Extending a lock that this client took.
//!
//! [`FileSystemRequestQueueClient::prolong_request_lock`] finds the lock. The request's file is
//! read and given to [`FileSystemRequestQueueClient::prolong_examine`]: the lock is extended
//! only if the file still holds exactly the lock that this client took, and that is still
//! live. [`FileSystemRequestQueueClient::prolonged`] records the extension once it is written.
use vstd::prelude::*;

use crate::clock::{Duration, Timestamp};
use crate::ids::{file_name_of, request_file_name};
use crate::json::{json_dumps, json_parse, Json, JsonView};
use crate::models::{content_text, writes, FileWrite, StorageError};
use crate::order::{is_locked_order, locked_at, on_side_of};
use crate::request::{
    extract_unique_key, order_no_of, read_order_no, recorded_id, set_order_no, unique_key_of,
    with_order_no,
};
use crate::state::{FileSystemRequestQueueClient, HeldView, QueueView};

verus! {

/// What an extension that is not positive is refused with.
pub const EXTENSION_NOT_POSITIVE: &'static str = "lock extension must be greater than zero";

/// What an extension past the last order number is refused with.
pub const EXTENSION_OUT_OF_RANGE: &'static str = "lock extension exceeds the supported range";

/// A lock that may be extended.
pub struct ProlongScan {
    request_id: String,
    unique_key: String,
    order_no: i64,
    extension: i64,
}

/// The model of [`ProlongScan`].
#[verifier::ext_equal]
pub struct ProlongView {
    pub request_id: Seq<char>,
    pub held: HeldView,
    pub extension: int,
}

/// An extended lock: what the request's file has to hold for it.
pub struct PendingProlong {
    request_id: String,
    unique_key: String,
    order_no: i64,
    document: Ghost<JsonView>,
    write: FileWrite,
}

/// The model of [`PendingProlong`].
#[verifier::ext_equal]
pub struct ExtensionView {
    pub request_id: Seq<char>,
    pub held: HeldView,
    pub document: JsonView,
}

/// What came of a lock that was to be extended.
pub enum ProlongStep {
    /// The client does not have the lock any more.
    Lost,
    /// The lock is extended, once this is written.
    Write(PendingProlong),
}

/// What the file of a locked request shows.
pub enum LockState {
    /// There is no file.
    Vanished,
    /// The file holds no JSON.
    Unreadable,
    /// The file does not hold this lock, or it is over. The order number on record is this.
    Lost(Option<i64>),
    /// The lock would reach past the last order number.
    OutOfRange,
    /// The lock can be extended, and is so by this order number and document.
    Extended(i64, JsonView),
}

/// The magnitude of an order number.
pub open spec fn magnitude(order_no: int) -> int {
    if order_no < 0 {
        -order_no
    } else {
        order_no
    }
}

impl ProlongView {
    /// The document holds the lock, and the lock is live at `now`.
    pub open spec fn is_live(self, document: JsonView, now: int) -> bool {
        &&& unique_key_of(document) == Some(self.held.unique_key)
        &&& recorded_id(document) == Some(self.request_id)
        &&& order_no_of(document) == Some(self.held.order_no)
        &&& locked_at(self.held.order_no as int, now)
    }

    /// What the content of the request's file shows at `now`.
    pub open spec fn lock_state(self, content: Option<Seq<char>>, now: int) -> LockState {
        match content {
            None => LockState::Vanished,
            Some(text) => match json_parse(text) {
                None => LockState::Unreadable,
                Some(document) => if !self.is_live(document, now) {
                    LockState::Lost(order_no_of(document))
                } else {
                    let expiry = magnitude(self.held.order_no as int) + self.extension;
                    if expiry > i64::MAX {
                        LockState::OutOfRange
                    } else {
                        let order_no = on_side_of(self.held.order_no as int, expiry) as i64;
                        LockState::Extended(order_no, with_order_no(document, Some(order_no)))
                    }
                },
            },
        }
    }

    /// The queue once the request's file was seen. A lock that is lost is forgotten, and the
    /// index follows the file.
    pub open spec fn after_seeing(self, queue: QueueView, state: LockState) -> QueueView {
        match state {
            LockState::Vanished => queue.releasing(self.request_id).without_entry(
                self.held.unique_key,
            ),
            LockState::Lost(order_no) => queue.releasing(self.request_id).with_order(
                self.held.unique_key,
                order_no,
            ),
            _ => queue,
        }
    }
}

impl ExtensionView {
    /// The queue once the extended lock is written.
    pub open spec fn recorded_in(self, queue: QueueView, now: Timestamp) -> QueueView {
        queue.with_order(self.held.unique_key, Some(self.held.order_no)).holding(
            self.request_id,
            self.held,
        ).accessed(now)
    }
}

impl View for ProlongScan {
    type V = ProlongView;

    closed spec fn view(&self) -> ProlongView {
        ProlongView {
            request_id: self.request_id@,
            held: HeldView { unique_key: self.unique_key@, order_no: self.order_no },
            extension: self.extension as int,
        }
    }
}

impl View for PendingProlong {
    type V = ExtensionView;

    closed spec fn view(&self) -> ExtensionView {
        ExtensionView {
            request_id: self.request_id@,
            held: HeldView { unique_key: self.unique_key@, order_no: self.order_no },
            document: self.document@,
        }
    }
}

impl ProlongScan {
    #[verifier::type_invariant]
    spec fn well_formed(self) -> bool {
        self.extension > 0
    }

    /// The name of the file that has to be read.
    pub fn file_name(&self) -> (name: String)
        ensures
            name@ == file_name_of(self@.held.unique_key),
    {
        request_file_name(self.unique_key.as_str())
    }
}

impl PendingProlong {
    #[verifier::type_invariant]
    spec fn well_formed(self) -> bool {
        writes(self.write, self.unique_key@, self.document@)
    }

    /// The file to be written.
    pub fn write(&self) -> (write: &FileWrite)
        ensures
            writes(*write, self@.held.unique_key, self@.document),
    {
        proof {
            use_type_invariant(self);
        }
        &self.write
    }
}

/// Whether the document is that of the locked request.
fn is_same_request(document: &Json, unique_key: &String, request_id: &String) -> (same: bool)
    ensures
        same == (unique_key_of(document@) == Some(unique_key@) && recorded_id(document@) == Some(
            request_id@,
        )),
{
    let same_key = match extract_unique_key(document) {
        Ok(key) => key == *unique_key,
        Err(_) => false,
    };
    let same_id = match document.get("id") {
        Some(Json::Text(id)) => *id == *request_id,
        _ => false,
    };
    same_key && same_id
}

/// The order number of a lock that is extended, unless that is out of range.
fn extended_order(order_no: i64, extension: i64) -> (extended: Option<i64>)
    requires
        extension > 0,
    ensures
        ({
            let expiry = magnitude(order_no as int) + extension;
            match extended {
                Some(n) => expiry <= i64::MAX && n == on_side_of(order_no as int, expiry),
                None => expiry > i64::MAX,
            }
        }),
{
    if order_no > 0 {
        order_no.checked_add(extension)
    } else if order_no > i64::MIN {
        match (-order_no).checked_add(extension) {
            Some(expiry) => Some(-expiry),
            None => None,
        }
    } else {
        None
    }
}

impl FileSystemRequestQueueClient {
    /// Begin to extend a lock that this client took, by a span that is added to its expiry.
    ///
    /// `None`: the client holds no lock on the request.
    pub fn prolong_request_lock(&self, request_id: &str, duration: Duration) -> (scan: Result<
        Option<ProlongScan>,
        StorageError,
    >)
        ensures
            match scan {
                Err(e) => duration.spec_millis() <= 0 && e.refuses_with(EXTENSION_NOT_POSITIVE@),
                Ok(None) => {
                    &&& duration.spec_millis() > 0
                    &&& !self@.held_locks.contains_key(request_id@)
                },
                Ok(Some(s)) => {
                    &&& duration.spec_millis() > 0
                    &&& self@.held_locks.contains_key(request_id@)
                    &&& s@ == (ProlongView {
                        request_id: request_id@,
                        held: self@.held_locks[request_id@],
                        extension: duration.spec_millis(),
                    })
                },
            },
    {
        let extension = duration.num_milliseconds();
        if extension <= 0 {
            return Err(StorageError::InvalidArgs(EXTENSION_NOT_POSITIVE.to_owned()));
        }
        match self.held_locks.get(request_id) {
            Some(held) => Ok(
                Some(
                    ProlongScan {
                        request_id: request_id.to_owned(),
                        unique_key: held.unique_key.clone(),
                        order_no: held.order_no,
                        extension,
                    },
                ),
            ),
            None => Ok(None),
        }
    }

    /// Look at the content of the locked request's file, or at its absence.
    pub fn prolong_examine(
        &mut self,
        scan: ProlongScan,
        content: Option<&str>,
        now: Timestamp,
    ) -> (step: Result<ProlongStep, StorageError>)
        ensures
            ({
                let state = scan@.lock_state(content_text(content), now.spec_millis());
                &&& final(self)@ == scan@.after_seeing(old(self)@, state)
                &&& match (state, step) {
                    (LockState::Vanished, Ok(ProlongStep::Lost)) => true,
                    (LockState::Lost(_), Ok(ProlongStep::Lost)) => true,
                    (LockState::Unreadable, Err(e)) => e is Json,
                    (LockState::OutOfRange, Err(e)) => e.refuses_with(EXTENSION_OUT_OF_RANGE@),
                    (LockState::Extended(order_no, document), Ok(ProlongStep::Write(pending))) => {
                        pending@ == (ExtensionView {
                            request_id: scan@.request_id,
                            held: HeldView { unique_key: scan@.held.unique_key, order_no },
                            document,
                        })
                    },
                    _ => false,
                }
            }),
    {
        proof {
            use_type_invariant(&scan);
        }
        let ghost wanted = scan@;
        let ProlongScan { request_id, unique_key, order_no, extension } = scan;
        let text = match content {
            Some(text) => text,
            None => {
                self.release(request_id.as_str());
                self.requests.remove(unique_key.as_str());
                assert(self@ =~= wanted.after_seeing(old(self)@, LockState::Vanished));
                return Ok(ProlongStep::Lost);
            },
        };
        let request = match Json::parse(text) {
            Ok(request) => request,
            Err(e) => {
                return Err(StorageError::Json(e));
            },
        };
        let same_request = is_same_request(&request, &unique_key, &request_id);
        let disk_order = read_order_no(&request);
        let now_millis = now.timestamp_millis();
        if !same_request || disk_order != Some(order_no) || !is_locked_order(order_no, now_millis) {
            self.release(request_id.as_str());
            self.set_indexed_order(&unique_key, disk_order);
            return Ok(ProlongStep::Lost);
        }
        let extended = match extended_order(order_no, extension) {
            Some(n) => n,
            None => {
                return Err(StorageError::InvalidArgs(EXTENSION_OUT_OF_RANGE.to_owned()));
            },
        };
        let document = set_order_no(request, Some(extended));
        let write = FileWrite {
            file_name: request_file_name(unique_key.as_str()),
            contents: json_dumps(&document),
        };
        Ok(
            ProlongStep::Write(
                PendingProlong {
                    request_id,
                    unique_key,
                    order_no: extended,
                    document: Ghost(document@),
                    write,
                },
            ),
        )
    }

    /// Record that an extended lock was written. The metadata is to be saved.
    pub fn prolonged(&mut self, pending: PendingProlong, now: Timestamp)
        ensures
            final(self)@ == pending@.recorded_in(old(self)@, now),
    {
        let ghost expected = pending@.recorded_in(self@, now);
        let PendingProlong { request_id, unique_key, order_no, document: _, write: _ } = pending;
        self.set_indexed_order(&unique_key, Some(order_no));
        self.hold(request_id, unique_key, order_no);
        self.metadata.base.accessed_at = now;
        assert(self@ =~= expected);
    }
}

} // verus!
