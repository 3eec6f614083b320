//! The records that the queue keeps and hands out.
use vstd::prelude::*;

use crate::clock::Timestamp;
use crate::ids::file_name_of;
use crate::json::{holds, JsonView};

verus! {

/// The error type of the standard library's I/O.
#[verifier::external_type_specification]
#[verifier::external_body]
pub struct ExIoError(std::io::Error);

/// Why a storage operation failed.
#[derive(Debug)]
pub enum StorageError {
    Io(std::io::Error),
    Json(serde_json::Error),
    InvalidArgs(String),
    NotFound(String),
    ExclusiveStartKeyNotFound(String),
}

impl StorageError {
    /// The arguments were refused with this message.
    pub open spec fn refuses_with(self, message: Seq<char>) -> bool {
        self matches StorageError::InvalidArgs(text) && text@ == message
    }
}

/// What every storage records about itself.
#[derive(Debug, PartialEq, Eq)]
pub struct StorageMetadata {
    pub id: String,
    pub name: Option<String>,
    pub created_at: Timestamp,
    pub accessed_at: Timestamp,
    pub modified_at: Timestamp,
}

/// What a request queue records about itself.
#[derive(Debug, PartialEq, Eq)]
pub struct RequestQueueMetadata {
    pub base: StorageMetadata,
    pub handled_request_count: usize,
    pub pending_request_count: usize,
    pub total_request_count: usize,
    /// Unique keys of forefront requests, oldest first. A key may occur more than once.
    pub forefront_request_ids: Vec<String>,
}

/// The model of [`RequestQueueMetadata`].
#[verifier::ext_equal]
pub struct MetadataView {
    pub id: Seq<char>,
    pub name: Option<Seq<char>>,
    pub created_at: Timestamp,
    pub accessed_at: Timestamp,
    pub modified_at: Timestamp,
    pub handled: int,
    pub pending: int,
    pub total: int,
    pub forefront: Seq<Seq<char>>,
}

/// The contents of a list of strings.
pub open spec fn texts(list: Seq<String>) -> Seq<Seq<char>> {
    list.map_values(|s: String| s@)
}

/// The content of an optional string.
pub open spec fn optional_text(text: Option<String>) -> Option<Seq<char>> {
    match text {
        Some(s) => Some(s@),
        None => None,
    }
}

/// The content of a file that may be missing.
pub open spec fn content_text(content: Option<&str>) -> Option<Seq<char>> {
    match content {
        Some(text) => Some(text@),
        None => None,
    }
}

impl View for RequestQueueMetadata {
    type V = MetadataView;

    open spec fn view(&self) -> MetadataView {
        MetadataView {
            id: self.base.id@,
            name: optional_text(self.base.name),
            created_at: self.base.created_at,
            accessed_at: self.base.accessed_at,
            modified_at: self.base.modified_at,
            handled: self.handled_request_count as int,
            pending: self.pending_request_count as int,
            total: self.total_request_count as int,
            forefront: texts(self.forefront_request_ids@),
        }
    }
}

impl RequestQueueMetadata {
    /// The record of a queue that holds nothing yet.
    pub fn new(id: String, name: Option<String>, now: Timestamp) -> (metadata: RequestQueueMetadata)
        ensures
            metadata@ == new_metadata(id@, optional_text(name), now),
    {
        let metadata = RequestQueueMetadata {
            base: StorageMetadata {
                id,
                name,
                created_at: now,
                accessed_at: now,
                modified_at: now,
            },
            handled_request_count: 0,
            pending_request_count: 0,
            total_request_count: 0,
            forefront_request_ids: Vec::new(),
        };
        assert(texts(metadata.forefront_request_ids@) =~= Seq::empty());
        metadata
    }
}

/// The record of a queue that holds nothing yet.
pub open spec fn new_metadata(id: Seq<char>, name: Option<Seq<char>>, now: Timestamp) -> MetadataView {
    MetadataView {
        id,
        name,
        created_at: now,
        accessed_at: now,
        modified_at: now,
        handled: 0,
        pending: 0,
        total: 0,
        forefront: Seq::empty(),
    }
}

impl Clone for RequestQueueMetadata {
    fn clone(&self) -> (copy: RequestQueueMetadata)
        ensures
            copy@ == self@,
    {
        let copy = RequestQueueMetadata {
            base: StorageMetadata {
                id: self.base.id.clone(),
                name: self.base.name.clone(),
                created_at: self.base.created_at,
                accessed_at: self.base.accessed_at,
                modified_at: self.base.modified_at,
            },
            handled_request_count: self.handled_request_count,
            pending_request_count: self.pending_request_count,
            total_request_count: self.total_request_count,
            forefront_request_ids: self.forefront_request_ids.clone(),
        };
        assert(texts(copy.forefront_request_ids@) =~= texts(self.forefront_request_ids@));
        copy
    }
}

/// What became of one request.
#[derive(Debug, PartialEq, Eq)]
pub struct ProcessedRequest {
    pub request_id: String,
    pub unique_key: String,
    pub was_already_present: bool,
    pub was_already_handled: bool,
}

/// The model of [`ProcessedRequest`].
#[verifier::ext_equal]
pub struct ProcessedView {
    pub request_id: Seq<char>,
    pub unique_key: Seq<char>,
    pub was_already_present: bool,
    pub was_already_handled: bool,
}

impl View for ProcessedRequest {
    type V = ProcessedView;

    open spec fn view(&self) -> ProcessedView {
        ProcessedView {
            request_id: self.request_id@,
            unique_key: self.unique_key@,
            was_already_present: self.was_already_present,
            was_already_handled: self.was_already_handled,
        }
    }
}

/// A request that a batch could not take. The file-backed queue takes all of a batch or fails.
#[derive(Debug, PartialEq, Eq)]
pub struct UnprocessedRequest {
    pub unique_key: String,
}

/// What became of a batch of requests.
#[derive(Debug, PartialEq, Eq)]
pub struct AddRequestsResponse {
    pub processed_requests: Vec<ProcessedRequest>,
    pub unprocessed_requests: Vec<UnprocessedRequest>,
}

/// The models of a list of processed requests.
pub open spec fn processed_views(list: Seq<ProcessedRequest>) -> Seq<ProcessedView> {
    list.map_values(|p: ProcessedRequest| p@)
}

/// A file to be written in the queue's directory.
#[derive(Debug, PartialEq, Eq)]
pub struct FileWrite {
    pub file_name: String,
    pub contents: String,
}

/// The file holds the document, and stands where the request's file belongs.
pub open spec fn writes(write: FileWrite, unique_key: Seq<char>, document: JsonView) -> bool {
    &&& write.file_name@ == file_name_of(unique_key)
    &&& holds(write.contents@, document)
}

} // verus!
