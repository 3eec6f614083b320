//! Reading a queue, tuning it and clearing it.
use vstd::prelude::*;

use crate::clock::{Duration, Timestamp};
use crate::json::{json_parse, Json};
use crate::models::{content_text, texts, MetadataView, StorageError};
use crate::request::{strip_queue_internals, stripped};
use crate::state::{raised, FileSystemRequestQueueClient, QueueView};

verus! {

impl QueueView {
    /// The index has some request that can be fetched at `now`.
    pub open spec fn has_fetchable(self, now: int) -> bool {
        exists|key: Seq<char>| #[trigger] self.is_fetchable(key, now)
    }

    /// Every request in the index is handled.
    pub open spec fn is_finished(self) -> bool {
        forall|key: Seq<char>| #[trigger]
            self.requests.contains_key(key) ==> self.requests[key].order_no is None
    }

    /// The queue without any request, at `now`. The time that a request stays locked is kept.
    pub open spec fn purged(self, now: Timestamp) -> QueueView {
        QueueView {
            metadata: MetadataView {
                handled: 0,
                pending: 0,
                total: 0,
                forefront: Seq::empty(),
                ..self.metadata
            },
            requests: Map::empty(),
            held_locks: Map::empty(),
            insertion_counter: 0,
            ..self
        }.modified(now)
    }

    /// The queue once its directory is gone.
    pub open spec fn dropped(self) -> QueueView {
        QueueView { requests: Map::empty(), held_locks: Map::empty(), ..self }
    }
}

impl FileSystemRequestQueueClient {
    /// The request whose file has this content. It is not locked. `None`: there is no file.
    ///
    /// Where a request comes back, the metadata is to be saved.
    pub fn get_request(&mut self, content: Option<&str>, now: Timestamp) -> (request: Result<
        Option<Json>,
        StorageError,
    >)
        ensures
            match request {
                Ok(None) => content is None && final(self)@ == old(self)@,
                Ok(Some(r)) => {
                    &&& content_text(content) matches Some(text)
                    &&& json_parse(text) matches Some(document)
                    &&& r@ == stripped(document)
                    &&& r@.member("orderNo"@) is None
                    &&& forall|key: Seq<char>|
                        key != "orderNo"@ ==> #[trigger] r@.member(key) == document.member(key)
                    &&& final(self)@ == old(self)@.accessed(now)
                },
                Err(e) => {
                    &&& e is Json
                    &&& content_text(content) matches Some(text)
                    &&& json_parse(text) is None
                    &&& final(self)@ == old(self)@
                },
            },
    {
        let text = match content {
            Some(text) => text,
            None => {
                return Ok(None);
            },
        };
        match Json::parse(text) {
            Ok(request) => {
                self.metadata.base.accessed_at = now;
                assert(self@ =~= old(self)@.accessed(now));
                Ok(Some(strip_queue_internals(request)))
            },
            Err(e) => Err(StorageError::Json(e)),
        }
    }

    /// Hint how long a fetched request is to stay locked. A shorter time than before is ignored.
    pub fn set_expected_request_processing_time(&mut self, duration: Duration)
        ensures
            final(self)@ == (QueueView {
                lock_millis: raised(old(self)@.lock_millis, duration.spec_millis()),
                ..old(self)@
            }),
    {
        self.lock.raise(duration.num_milliseconds());
    }

    /// Forget every request. The request files are to be deleted before, the metadata is to be
    /// saved after.
    pub fn purge(&mut self, now: Timestamp)
        ensures
            final(self)@ == old(self)@.purged(now),
    {
        self.requests.clear();
        self.held_locks.clear();
        self.insertion_counter = 0;
        self.metadata.forefront_request_ids = Vec::new();
        self.metadata.handled_request_count = 0;
        self.metadata.pending_request_count = 0;
        self.metadata.total_request_count = 0;
        self.metadata.base.accessed_at = now;
        self.metadata.base.modified_at = now;
        assert(texts(self.metadata.forefront_request_ids@) =~= Seq::empty());
        assert(self@ =~= old(self)@.purged(now));
    }

    /// Forget what the index held. The queue's directory is to be deleted before.
    pub fn drop_storage(&mut self)
        ensures
            final(self)@ == old(self)@.dropped(),
    {
        self.requests.clear();
        self.held_locks.clear();
        assert(self@ =~= old(self)@.dropped());
    }

    /// Does nothing: all state lives in the request files and the metadata.
    pub fn persist_state(&mut self)
        ensures
            final(self)@ == old(self)@,
    {
    }
}

} // verus!
