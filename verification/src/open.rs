//! Opening a queue.
//!
//! [`open_target`] says where a queue lives. The index is not stored: [`IndexRebuild`] makes it
//! from the request files, one after the other, when the queue is opened.
use vstd::prelude::*;
use vstd::string::StringExecFns;

use crate::clock::Timestamp;
use crate::files::{get_request_files, is_sorted, request_names, sort_names};
use crate::json::{holds, json_dumps, json_parse, Json, JsonView};
use crate::models::{
    content_text, texts, MetadataView, RequestQueueMetadata, StorageError,
};
use crate::order::{is_locked_order, keep_side, locked_at, on_side_of};
use crate::request::{
    carries_handled_at, extract_unique_key, has_handled_at, order_no_of, read_order_no,
    recorded_id, set_order_no, unique_key_of, with_order_no,
};
use crate::state::{
    FileSystemRequestQueueClient, HeldRequestLock, LockDuration, QueueView, RequestEntry,
    DEFAULT_LOCK_MILLIS,
};
use crate::string_map::StringMap;

verus! {

/// The directory below the storage directory that holds the request queues.
pub const STORAGE_SUBDIR: &'static str = "request_queues";

/// The directory of the queue that is opened without an id, a name or an alias.
pub const DEFAULT_NAME: &'static str = "default";

/// What a second way to name a queue is refused with.
pub const NOT_EXCLUSIVE: &'static str = "At most one of id, name, or alias may be provided";

/// What a name that is not that of a direct child is refused with.
pub const NOT_A_CHILD: &'static str = "Storage name must denote a single direct subdirectory";

/// Where a queue lives.
#[derive(Debug, PartialEq, Eq)]
pub enum OpenTarget {
    /// In the directory whose metadata has this id.
    ById(String),
    /// In this direct child of the directory of request queues. A queue that is created there
    /// records the name, if there is one.
    Child { directory: String, name: Option<String> },
}

/// The name denotes a single direct child of whatever directory it is looked up in.
pub open spec fn is_direct_child(name: Seq<char>) -> bool {
    &&& name.len() > 0
    &&& name != "."@
    &&& name != ".."@
    &&& !name.contains('/')
    &&& !name.contains('\\')
}

/// Whether the name denotes a single direct child.
fn denotes_child(name: &String) -> (child: bool)
    ensures
        child == is_direct_child(name@),
{
    let length = name.as_str().unicode_len();
    if length == 0 || *name == ".".to_owned() || *name == "..".to_owned() {
        return false;
    }
    let mut i: usize = 0;
    while i < length
        invariant
            length == name@.len(),
            i <= length,
            forall|j: int| 0 <= j < i ==> #[trigger] name@[j] != '/' && name@[j] != '\\',
        decreases length - i,
    {
        let c = name.as_str().get_char(i);
        if c == '/' || c == '\\' {
            assert(name@[i as int] == c);
            return false;
        }
        i += 1;
    }
    true
}

/// At most one of these is there.
pub open spec fn exclusive(
    id: Option<String>,
    name: Option<String>,
    alias: Option<String>,
) -> bool {
    &&& id is None || name is None
    &&& id is None || alias is None
    &&& name is None || alias is None
}

/// The directory that a name or an alias stands for.
pub open spec fn directory_of(name: Option<String>, alias: Option<String>) -> Seq<char> {
    match (name, alias) {
        (Some(n), _) => n@,
        (None, Some(a)) => a@,
        (None, None) => DEFAULT_NAME@,
    }
}

/// Find out where a queue lives. A name is recorded by the queue, an alias is not. Either has to
/// denote a direct child of the directory of request queues.
pub fn open_target(id: Option<String>, name: Option<String>, alias: Option<String>) -> (target:
    Result<OpenTarget, StorageError>)
    ensures
        match target {
            Err(e) => if exclusive(id, name, alias) {
                &&& id is None
                &&& name is Some || alias is Some
                &&& !is_direct_child(directory_of(name, alias))
                &&& e.refuses_with(NOT_A_CHILD@)
            } else {
                e.refuses_with(NOT_EXCLUSIVE@)
            },
            Ok(OpenTarget::ById(wanted)) => exclusive(id, name, alias) && id == Some(wanted),
            Ok(OpenTarget::Child { directory, name: recorded }) => {
                &&& exclusive(id, name, alias)
                &&& id is None
                &&& directory@ == directory_of(name, alias)
                &&& name is Some || alias is Some ==> is_direct_child(directory@)
                &&& recorded == name
            },
        },
{
    if (id.is_some() && name.is_some()) || (id.is_some() && alias.is_some()) || (name.is_some()
        && alias.is_some()) {
        return Err(StorageError::InvalidArgs(NOT_EXCLUSIVE.to_owned()));
    }
    if let Some(wanted) = id {
        return Ok(OpenTarget::ById(wanted));
    }
    let directory = match &name {
        Some(n) => n.clone(),
        None => match alias {
            Some(a) => a,
            None => {
                return Ok(OpenTarget::Child { directory: DEFAULT_NAME.to_owned(), name: None });
            },
        },
    };
    if denotes_child(&directory) {
        Ok(OpenTarget::Child { directory, name })
    } else {
        Err(StorageError::InvalidArgs(NOT_A_CHILD.to_owned()))
    }
}

/// The error that no queue has this id.
pub fn queue_not_found(id: &str) -> (error: StorageError)
    ensures
        error matches StorageError::NotFound(message) && message@ == "Request queue with id '"@
            + id@ + "' not found"@,
{
    let message = "Request queue with id '".to_owned().concat(id).concat("' not found");
    StorageError::NotFound(message)
}

/// Whether this is the metadata of the storage with this id.
pub fn metadata_has_id(content: &str, id: &str) -> (same: bool)
    ensures
        same == (json_parse(content@) matches Some(document) && recorded_id(document) == Some(
            id@,
        )),
{
    match Json::parse(content) {
        Ok(document) => match document.get("id") {
            Some(Json::Text(recorded)) => *recorded == id.to_owned(),
            _ => false,
        },
        Err(_) => false,
    }
}

/// An index in the making.
pub struct IndexRebuild {
    files: Vec<String>,
    next: usize,
    metadata: RequestQueueMetadata,
    requests: StringMap<RequestEntry>,
    seq: u64,
    handled: usize,
    pending: usize,
    now: i64,
    assume_sole_owner: bool,
}

/// The model of [`IndexRebuild`].
#[verifier::ext_equal]
pub struct RebuildView {
    /// The files that are still to be read.
    pub files: Seq<Seq<char>>,
    pub metadata: MetadataView,
    pub requests: Map<Seq<char>, RequestEntry>,
    pub seq: int,
    pub handled: int,
    pub pending: int,
    pub now: int,
    pub assume_sole_owner: bool,
}

/// What a request file says.
pub enum Finding {
    /// It holds no request.
    Nothing,
    /// It holds the request of this key and order number. If there is a document, the file
    /// has to be replaced by it.
    Request(Seq<char>, Option<i64>, Option<JsonView>),
}

/// The file has the request as handled: it carries a handling time, or its order number is null.
pub open spec fn filed_as_handled(document: JsonView) -> bool {
    carries_handled_at(document) || document.member("orderNo"@) == Some(JsonView::Null)
}

/// Whether the file has the request as handled.
pub fn is_filed_as_handled(document: &Json) -> (handled: bool)
    ensures
        handled == filed_as_handled(document@),
{
    let null_order = match document.get("orderNo") {
        Some(Json::Null) => true,
        _ => false,
    };
    null_order || has_handled_at(document)
}

/// The order number that the file has, or `now` where it has none.
pub open spec fn filed_order(document: JsonView, now: int) -> int {
    match order_no_of(document) {
        Some(n) => n as int,
        None => now,
    }
}

/// What the content of a request file says at `now`.
///
/// A sole owner takes a lock to be left over from a run that is dead, and lifts it.
pub open spec fn finding(
    content: Option<Seq<char>>,
    now: int,
    assume_sole_owner: bool,
) -> Finding {
    match content {
        None => Finding::Nothing,
        Some(text) => match json_parse(text) {
            None => Finding::Nothing,
            Some(document) => match unique_key_of(document) {
                None => Finding::Nothing,
                Some(key) => if filed_as_handled(document) {
                    Finding::Request(key, None, None)
                } else {
                    let order_no = filed_order(document, now);
                    if assume_sole_owner && locked_at(order_no, now) {
                        let lifted = Some(on_side_of(order_no, now) as i64);
                        Finding::Request(key, lifted, Some(with_order_no(document, lifted)))
                    } else {
                        Finding::Request(key, Some(order_no as i64), None)
                    }
                },
            },
        },
    }
}

/// The keys of a list that are pending in the index.
pub open spec fn still_pending(
    list: Seq<Seq<char>>,
    requests: Map<Seq<char>, RequestEntry>,
) -> Seq<Seq<char>> {
    list.filter(
        |key: Seq<char>| requests.contains_key(key) && requests[key].order_no is Some,
    )
}

impl RebuildView {
    /// The index once the next file was read.
    pub open spec fn with_file(self, content: Option<Seq<char>>) -> RebuildView {
        let rest = RebuildView { files: self.files.skip(1), ..self };
        match finding(content, self.now, self.assume_sole_owner) {
            Finding::Nothing => rest,
            Finding::Request(key, order_no, _) => RebuildView {
                requests: self.requests.insert(
                    key,
                    RequestEntry { order_no, insertion_seq: self.seq as u64 },
                ),
                seq: self.seq + 1,
                handled: self.handled + if order_no is None {
                    1int
                } else {
                    0
                },
                pending: self.pending + if order_no is Some {
                    1int
                } else {
                    0
                },
                ..rest
            },
        }
    }

    /// The queue once every file was read: with the counts that were found, and without the
    /// forefront keys that are gone or handled.
    pub open spec fn finished(self) -> QueueView {
        QueueView {
            metadata: MetadataView {
                forefront: still_pending(self.metadata.forefront, self.requests),
                handled: self.handled,
                pending: self.pending,
                total: self.handled + self.pending,
                ..self.metadata
            },
            requests: self.requests,
            held_locks: Map::empty(),
            insertion_counter: self.seq,
            lock_millis: DEFAULT_LOCK_MILLIS as int,
        }
    }
}

/// An index that nothing was found for yet.
pub open spec fn empty_index(
    files: Seq<Seq<char>>,
    metadata: MetadataView,
    now: int,
    assume_sole_owner: bool,
) -> RebuildView {
    RebuildView {
        files,
        metadata,
        requests: Map::empty(),
        seq: 0,
        handled: 0,
        pending: 0,
        now,
        assume_sole_owner,
    }
}

impl View for IndexRebuild {
    type V = RebuildView;

    closed spec fn view(&self) -> RebuildView {
        RebuildView {
            files: texts(self.files@).skip(self.next as int),
            metadata: self.metadata@,
            requests: self.requests@,
            seq: self.seq as int,
            handled: self.handled as int,
            pending: self.pending as int,
            now: self.now as int,
            assume_sole_owner: self.assume_sole_owner,
        }
    }
}

impl IndexRebuild {
    #[verifier::type_invariant]
    spec fn well_formed(self) -> bool {
        &&& self.next <= self.files@.len()
        &&& self.seq <= self.next
        &&& self.handled + self.pending <= self.next
        &&& self.now >= -i64::MAX
    }

    /// The name of the file that has to be read next, if any is left.
    pub fn next_file(&self) -> (name: Option<&String>)
        ensures
            match name {
                Some(n) => self@.files.len() > 0 && n@ == self@.files[0],
                None => self@.files.len() == 0,
            },
    {
        proof {
            use_type_invariant(self);
        }
        if self.next < self.files.len() {
            Some(&self.files[self.next])
        } else {
            None
        }
    }

    /// Index the request in the next file, whose content this is. `None`: it cannot be read.
    ///
    /// Comes back with what the file has to be replaced by, if it has to be.
    pub fn index_file(self, content: Option<&str>) -> (result: (IndexRebuild, Option<String>))
        requires
            self@.files.len() > 0,
        ensures
            result.0@ == self@.with_file(content_text(content)),
            match finding(content_text(content), self@.now, self@.assume_sole_owner) {
                Finding::Request(_, _, Some(document)) => result.1 matches Some(text) && holds(
                    text@,
                    document,
                ),
                _ => result.1 is None,
            },
    {
        proof {
            use_type_invariant(&self);
        }
        let ghost before = self@;
        let IndexRebuild {
            files,
            next,
            metadata,
            mut requests,
            seq,
            handled,
            pending,
            now,
            assume_sole_owner,
        } = self;
        let total = files.len();
        assert(next < total);
        assert(texts(files@).skip(next + 1) =~= before.files.skip(1));
        let request = match content {
            Some(text) => match Json::parse(text) {
                Ok(request) => Some(request),
                Err(_) => None,
            },
            None => None,
        };
        let found = match request {
            Some(request) => match extract_unique_key(&request) {
                Ok(key) => Some((key, request)),
                Err(_) => None,
            },
            None => None,
        };
        let (unique_key, request) = match found {
            Some(found) => found,
            None => {
                let rebuild = IndexRebuild {
                    files,
                    next: next + 1,
                    metadata,
                    requests,
                    seq,
                    handled,
                    pending,
                    now,
                    assume_sole_owner,
                };
                assert(rebuild@ =~= before.with_file(content_text(content)));
                return (rebuild, None);
            },
        };
        let mut replacement: Option<String> = None;
        let order_no = if is_filed_as_handled(&request) {
            None
        } else {
            let disk_order = match read_order_no(&request) {
                Some(n) => n,
                None => now,
            };
            if assume_sole_owner && is_locked_order(disk_order, now) {
                let lifted = keep_side(disk_order, now);
                let document = set_order_no(request, Some(lifted));
                replacement = Some(json_dumps(&document));
                Some(lifted)
            } else {
                Some(disk_order)
            }
        };
        requests.insert(unique_key, RequestEntry { order_no, insertion_seq: seq });
        let (handled, pending) = if order_no.is_none() {
            (handled + 1, pending)
        } else {
            (handled, pending + 1)
        };
        let rebuild = IndexRebuild {
            files,
            next: next + 1,
            metadata,
            requests,
            seq: seq + 1,
            handled,
            pending,
            now,
            assume_sole_owner,
        };
        assert(rebuild@ =~= before.with_file(content_text(content)));
        (rebuild, replacement)
    }

    /// The queue, once every file was read. The metadata is to be saved.
    pub fn finish(self) -> (client: FileSystemRequestQueueClient)
        requires
            self@.files.len() == 0,
        ensures
            client@ == self@.finished(),
    {
        proof {
            use_type_invariant(&self);
        }
        let ghost before = self@;
        let IndexRebuild {
            files: _,
            next: _,
            mut metadata,
            requests,
            seq,
            handled,
            pending,
            now: _,
            assume_sole_owner: _,
        } = self;
        metadata.forefront_request_ids = pending_keys(&metadata.forefront_request_ids, &requests);
        metadata.handled_request_count = handled;
        metadata.pending_request_count = pending;
        metadata.total_request_count = handled + pending;
        let held_locks: StringMap<HeldRequestLock> = StringMap::new();
        let client = FileSystemRequestQueueClient {
            metadata,
            requests,
            held_locks,
            insertion_counter: seq,
            lock: LockDuration::new(),
        };
        assert(client@ =~= before.finished());
        client
    }
}

/// The keys of a list that are pending in the index.
fn pending_keys(list: &Vec<String>, requests: &StringMap<RequestEntry>) -> (kept: Vec<String>)
    ensures
        texts(kept@) == still_pending(texts(list@), requests@),
{
    let ghost all = texts(list@);
    let mut kept: Vec<String> = Vec::new();
    let mut i: usize = 0;
    assert(still_pending(all.take(0), requests@) =~= texts(kept@)) by {
        reveal(Seq::filter);
    }
    while i < list.len()
        invariant
            i <= list@.len(),
            all == texts(list@),
            texts(kept@) == still_pending(all.take(i as int), requests@),
        decreases list@.len() - i,
    {
        let ghost before = texts(kept@);
        proof {
            reveal(Seq::filter);
            assert(all.take(i + 1).drop_last() =~= all.take(i as int));
            assert(all.take(i + 1).last() == list@[i as int]@);
        }
        let pending = match requests.get(list[i].as_str()) {
            Some(entry) => entry.order_no.is_some(),
            None => false,
        };
        if pending {
            kept.push(list[i].clone());
            assert(texts(kept@) =~= before.push(list@[i as int]@));
        }
        i += 1;
    }
    assert(all.take(i as int) =~= all);
    kept
}

impl FileSystemRequestQueueClient {
    /// Begin to open a queue that others may be using: a lock that is on record is a live one.
    ///
    /// `names` are the names of the files in the queue's directory.
    pub fn open(metadata: RequestQueueMetadata, names: &Vec<String>, now: Timestamp) -> (rebuild:
        IndexRebuild)
        ensures
            is_sorted(rebuild@.files),
            rebuild@.files.to_multiset() == request_names(texts(names@)).to_multiset(),
            rebuild@ == empty_index(rebuild@.files, metadata@, now.spec_millis(), false),
    {
        Self::open_with_clock(metadata, names, now, false)
    }

    /// Begin to open a queue. A sole owner asserts that nobody else is using it: any lock on
    /// record is then lifted.
    ///
    /// `names` are the names of the files in the queue's directory.
    pub fn open_with_clock(
        metadata: RequestQueueMetadata,
        names: &Vec<String>,
        now: Timestamp,
        assume_sole_owner: bool,
    ) -> (rebuild: IndexRebuild)
        ensures
            is_sorted(rebuild@.files),
            rebuild@.files.to_multiset() == request_names(texts(names@)).to_multiset(),
            rebuild@ == empty_index(
                rebuild@.files,
                metadata@,
                now.spec_millis(),
                assume_sole_owner,
            ),
    {
        let files = sort_names(get_request_files(names));
        let rebuild = IndexRebuild {
            files,
            next: 0,
            metadata,
            requests: StringMap::new(),
            seq: 0,
            handled: 0,
            pending: 0,
            now: now.timestamp_millis(),
            assume_sole_owner,
        };
        assert(rebuild@.files =~= texts(files@));
        rebuild
    }
}

} // verus!
