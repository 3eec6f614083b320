use std::cell::{Cell, RefCell};
use std::collections::HashMap;
use std::rc::Rc;

use crawlee_storage::add::AddStep;
use crawlee_storage::clock::{Duration, Timestamp};
use crawlee_storage::fetch::{EmptyStep, FetchStep};
use crawlee_storage::files::{get_request_files, METADATA_FILENAME};
use crawlee_storage::finish::FinishStep;
use crawlee_storage::ids::{request_file_name, unique_key_to_request_id};
use crawlee_storage::json::Json;
use crawlee_storage::models::{
    AddRequestsResponse, FileWrite, ProcessedRequest, RequestQueueMetadata, StorageError,
};
use crawlee_storage::order::is_locked_order;
use crawlee_storage::prolong::ProlongStep;
use crawlee_storage::request::extract_unique_key;
use crawlee_storage::settle::SettleStep;
use crawlee_storage::state::FileSystemRequestQueueClient;

/// A clock that moves only when it is told to.
#[derive(Clone)]
struct TestClock {
    millis: Rc<Cell<i64>>,
}

impl TestClock {
    fn new() -> TestClock {
        TestClock { millis: Rc::new(Cell::new(1_700_000_000_000)) }
    }

    fn now(&self) -> Timestamp {
        let millis = self.millis.get();
        Timestamp::new(millis / 1000, (millis % 1000) as u32 * 1_000_000).unwrap()
    }

    fn advance(&self, millis: i64) {
        self.millis.set(self.millis.get() + millis);
    }
}

/// A directory that lives in memory.
#[derive(Clone)]
struct Directory {
    files: Rc<RefCell<HashMap<String, String>>>,
    metadata: Rc<RefCell<Option<RequestQueueMetadata>>>,
}

impl Directory {
    fn new() -> Directory {
        Directory {
            files: Rc::new(RefCell::new(HashMap::new())),
            metadata: Rc::new(RefCell::new(None)),
        }
    }

    fn read(&self, name: &str) -> Option<String> {
        self.files.borrow().get(name).cloned()
    }

    fn write(&self, name: &str, contents: &str) {
        self.files.borrow_mut().insert(name.to_string(), contents.to_string());
    }

    fn write_file(&self, write: &FileWrite) {
        self.write(&write.file_name, &write.contents);
    }

    fn names(&self) -> Vec<String> {
        let mut names: Vec<String> = self.files.borrow().keys().cloned().collect();
        names.push(METADATA_FILENAME.to_string());
        names
    }

    fn saved(&self) -> RequestQueueMetadata {
        self.metadata.borrow().clone().unwrap()
    }
}

/// A queue in a directory, driven the way an I/O layer drives it.
struct Client {
    core: FileSystemRequestQueueClient,
    directory: Directory,
    clock: TestClock,
}

impl Client {
    fn open(directory: &Directory) -> Client {
        Client::open_with_clock(directory, &TestClock::new(), false)
    }

    fn open_with_clock(directory: &Directory, clock: &TestClock, sole_owner: bool) -> Client {
        let known = directory.metadata.borrow().clone();
        let metadata = match known {
            Some(metadata) => metadata,
            None => RequestQueueMetadata::new("queue-id".to_string(), None, clock.now()),
        };
        let names = directory.names();
        let mut rebuild = FileSystemRequestQueueClient::open_with_clock(
            metadata,
            &names,
            clock.now(),
            sole_owner,
        );
        while let Some(name) = rebuild.next_file().cloned() {
            let content = directory.read(&name);
            let (next, replacement) = rebuild.index_file(content.as_deref());
            if let Some(text) = replacement {
                directory.write(&name, &text);
            }
            rebuild = next;
        }
        let client = Client {
            core: rebuild.finish(),
            directory: directory.clone(),
            clock: clock.clone(),
        };
        client.save();
        client
    }

    fn save(&self) {
        *self.directory.metadata.borrow_mut() = Some(self.core.get_metadata());
    }

    fn get_metadata(&self) -> RequestQueueMetadata {
        self.core.get_metadata()
    }

    fn add_batch_of_requests(
        &mut self,
        requests: Vec<Json>,
        forefront: bool,
    ) -> Result<AddRequestsResponse, StorageError> {
        let mut batch = self.core.add_batch_of_requests(requests, forefront);
        loop {
            assert!(self.core.has_room() || !self.core.needs_number(&batch));
            match self.core.add_next(batch, self.clock.now())? {
                AddStep::Write(pending) => {
                    self.directory.write_file(pending.write());
                    assert!(self.core.counts_fit());
                    batch = self.core.add_written(pending);
                }
                AddStep::Finished(response) => {
                    self.save();
                    return Ok(response);
                }
            }
        }
    }

    fn get_request(&mut self, unique_key: &str) -> Result<Option<Json>, StorageError> {
        let content = self.directory.read(&request_file_name(unique_key));
        let request = self.core.get_request(content.as_deref(), self.clock.now())?;
        if request.is_some() {
            self.save();
        }
        Ok(request)
    }

    fn fetch_next_request(&mut self) -> Option<Json> {
        let mut scan = self.core.fetch_next_request(self.clock.now());
        while let Some(name) = scan.next_file() {
            let content = self.directory.read(&name);
            match self.core.try_fetch_examine(scan, content.as_deref()).unwrap() {
                FetchStep::Next(rest) => scan = rest,
                FetchStep::Lock(lock) => {
                    self.directory.write_file(lock.write());
                    self.core.fetch_locked(&lock, self.clock.now());
                    self.save();
                    return Some(self.core.fetch_held(lock));
                }
            }
        }
        None
    }

    fn has_file(&self, request: &Json) -> bool {
        match extract_unique_key(request) {
            Ok(key) => self.directory.read(&request_file_name(&key)).is_some(),
            Err(_) => false,
        }
    }

    fn mark_request_as_handled(
        &mut self,
        request: Json,
    ) -> Result<Option<ProcessedRequest>, StorageError> {
        let file_exists = self.has_file(&request);
        match self.core.mark_request_as_handled(request, file_exists, self.clock.now())? {
            SettleStep::Done(report) => Ok(report),
            SettleStep::Write(pending) => {
                self.directory.write_file(pending.write());
                assert!(self.core.handled_request_count() < usize::MAX);
                let report = self.core.marked(pending);
                self.save();
                Ok(Some(report))
            }
        }
    }

    fn reclaim_request(
        &mut self,
        request: Json,
        forefront: bool,
    ) -> Result<Option<ProcessedRequest>, StorageError> {
        let file_exists = self.has_file(&request);
        match self.core.reclaim_request(request, forefront, file_exists, self.clock.now())? {
            SettleStep::Done(report) => Ok(report),
            SettleStep::Write(pending) => {
                self.directory.write_file(pending.write());
                assert!(self.core.has_room_for(pending.unique_key()));
                let report = self.core.reclaimed(pending, self.clock.now());
                self.save();
                Ok(Some(report))
            }
        }
    }

    fn prolong_request_lock(
        &mut self,
        request_id: &str,
        duration: Duration,
    ) -> Result<bool, StorageError> {
        let scan = match self.core.prolong_request_lock(request_id, duration)? {
            Some(scan) => scan,
            None => return Ok(false),
        };
        let content = self.directory.read(&scan.file_name());
        match self.core.prolong_examine(scan, content.as_deref(), self.clock.now())? {
            ProlongStep::Lost => Ok(false),
            ProlongStep::Write(pending) => {
                self.directory.write_file(pending.write());
                self.core.prolonged(pending, self.clock.now());
                self.save();
                Ok(true)
            }
        }
    }

    fn is_empty(&mut self) -> bool {
        let mut scan = self.core.is_empty(self.clock.now());
        self.save();
        while let Some(name) = scan.next_file() {
            let content = self.directory.read(&name);
            match self.core.empty_examine(scan, content.as_deref()) {
                EmptyStep::Next(rest) => scan = rest,
                EmptyStep::Fetchable => return false,
            }
        }
        true
    }

    fn is_finished(&mut self) -> bool {
        let mut scan = self.core.is_finished(&self.directory.names());
        while let Some(name) = scan.next_file().cloned() {
            let content = self.directory.read(&name);
            match self.core.finish_examine(scan, content.as_deref()) {
                FinishStep::Next(rest) => scan = rest,
                FinishStep::Outstanding => return false,
            }
        }
        self.core.finish_conclude(scan)
    }

    fn purge(&mut self) {
        for name in get_request_files(&self.directory.names()) {
            self.directory.files.borrow_mut().remove(&name);
        }
        self.core.purge(self.clock.now());
        self.save();
    }

    fn persisted(&self, unique_key: &str) -> Json {
        let text = self.directory.read(&request_file_name(unique_key)).unwrap();
        Json::parse(&text).unwrap()
    }
}

fn req(unique_key: &str) -> Json {
    let text = format!(
        "{{\"uniqueKey\": \"{unique_key}\", \"url\": \"https://example.com/{unique_key}\", \"method\": \"GET\"}}"
    );
    Json::parse(&text).unwrap()
}

fn handled_req(unique_key: &str) -> Json {
    let stamp = Json::Text("2024-01-15T10:30:00.123456+00:00".to_string());
    req(unique_key).set("handledAt", stamp)
}

fn text_of<'a>(document: &'a Json, field: &str) -> &'a str {
    match document.get(field) {
        Some(Json::Text(text)) => text,
        _ => panic!("{field} is not a text"),
    }
}

fn integer_of(document: &Json, field: &str) -> Option<i64> {
    match document.get(field) {
        Some(Json::Integer(n)) => Some(*n),
        _ => None,
    }
}

fn minutes(count: i64) -> Duration {
    Duration::milliseconds(count * 60 * 1000)
}

#[test]
fn test_add_and_fetch_request() {
    let mut client = Client::open(&Directory::new());
    let response = client.add_batch_of_requests(vec![req("https://example.com")], false).unwrap();
    assert_eq!(response.processed_requests.len(), 1);
    assert!(!response.processed_requests[0].was_already_present);
    assert!(!response.processed_requests[0].request_id.is_empty());

    let fetched = client.fetch_next_request().unwrap();
    assert_eq!(text_of(&fetched, "uniqueKey"), "https://example.com");
    assert!(client.fetch_next_request().is_none());
}

#[test]
fn test_fetch_next_request_strips_order_no() {
    let mut client = Client::open(&Directory::new());
    client.add_batch_of_requests(vec![req("leaky")], false).unwrap();

    let fetched = client.fetch_next_request().unwrap();
    assert!(fetched.get("orderNo").is_none(), "fetched request must not expose internal orderNo");

    let persisted = client.persisted("leaky");
    assert!(integer_of(&persisted, "orderNo").is_some(), "the lock must be persisted to disk");

    let result = client.mark_request_as_handled(fetched).unwrap();
    assert!(result.is_some());
    assert!(client.is_finished());
}

#[test]
fn test_ignore_non_json_files_on_reopen() {
    let directory = Directory::new();
    let mut client = Client::open(&directory);
    client.add_batch_of_requests(vec![req("only-valid")], false).unwrap();

    directory.write(".DS_Store", "not json at all");
    directory.write("invalid.txt", "also not json");
    directory.write("broken.json", "{ this is not valid json");

    let mut reopened = Client::open(&directory);
    assert_eq!(reopened.get_metadata().total_request_count, 1);
    let fetched = reopened.fetch_next_request().unwrap();
    assert_eq!(text_of(&fetched, "uniqueKey"), "only-valid");
    assert!(reopened.fetch_next_request().is_none());
}

#[test]
fn test_deduplication() {
    let mut client = Client::open(&Directory::new());
    client.add_batch_of_requests(vec![req("dup")], false).unwrap();
    let response = client.add_batch_of_requests(vec![req("dup")], false).unwrap();
    assert!(response.processed_requests[0].was_already_present);
}

#[test]
fn test_intra_batch_deduplication() {
    let mut client = Client::open(&Directory::new());
    let response = client.add_batch_of_requests(vec![req("dup"), req("dup")], false).unwrap();
    assert_eq!(response.processed_requests.len(), 2);
    assert!(!response.processed_requests[0].was_already_present);
    assert!(response.processed_requests[1].was_already_present);
    assert_eq!(client.get_metadata().total_request_count, 1);
}

#[test]
fn test_request_id_is_deterministic_and_nonempty() {
    let mut client = Client::open(&Directory::new());
    let response = client.add_batch_of_requests(vec![req("abc")], false).unwrap();
    let id = &response.processed_requests[0].request_id;
    assert_eq!(*id, unique_key_to_request_id("abc"));
    assert!(!id.is_empty());
}

#[test]
fn test_mark_as_handled() {
    let mut client = Client::open(&Directory::new());
    client.add_batch_of_requests(vec![req("req1")], false).unwrap();

    let request = client.fetch_next_request().unwrap();
    let result = client.mark_request_as_handled(request).unwrap();
    assert!(result.is_some());
    assert!(result.unwrap().was_already_handled);

    assert!(client.is_empty());
    assert!(client.is_finished());
    assert_eq!(client.get_metadata().handled_request_count, 1);
}

#[test]
fn test_reclaim_request() {
    let mut client = Client::open(&Directory::new());
    client.add_batch_of_requests(vec![req("req1")], false).unwrap();

    let request = client.fetch_next_request().unwrap();
    let result = client.reclaim_request(request, false).unwrap();
    assert!(result.is_some());
    assert!(client.fetch_next_request().is_some());
}

#[test]
fn test_forefront() {
    let mut client = Client::open(&Directory::new());
    client.add_batch_of_requests(vec![req("regular")], false).unwrap();
    client.add_batch_of_requests(vec![req("priority")], true).unwrap();
    let first = client.fetch_next_request().unwrap();
    assert_eq!(text_of(&first, "uniqueKey"), "priority");
}

#[test]
fn test_is_empty_vs_is_finished_with_locked_request() {
    let mut client = Client::open(&Directory::new());
    client.add_batch_of_requests(vec![req("req1")], false).unwrap();

    let request = client.fetch_next_request().unwrap();
    assert!(client.is_empty(), "empty when the only request is locked");
    assert!(!client.is_finished(), "not finished while a request is locked");

    client.mark_request_as_handled(request).unwrap();
    assert!(client.is_empty());
    assert!(client.is_finished());
}

#[test]
fn test_lock_expiry_allows_refetch() {
    let clock = TestClock::new();
    let mut client = Client::open_with_clock(&Directory::new(), &clock, false);
    client.core.set_expected_request_processing_time(Duration::milliseconds(0));
    client.add_batch_of_requests(vec![req("req1")], false).unwrap();

    assert!(client.fetch_next_request().is_some());
    clock.advance(3 * 60 * 1000);
    let again = client.fetch_next_request();
    assert!(again.is_some(), "an expired lock must allow the request to be fetched again");
}

#[test]
fn test_lock_expiry_with_injected_test_clock() {
    let clock = TestClock::new();
    let mut client = Client::open_with_clock(&Directory::new(), &clock, false);
    client.add_batch_of_requests(vec![req("req1")], false).unwrap();

    assert!(client.fetch_next_request().is_some(), "first fetch should succeed");
    assert!(client.fetch_next_request().is_none(), "request should still be locked");

    clock.advance(4 * 60 * 1000);
    assert!(client.fetch_next_request().is_some(), "the request must be re-fetchable");
}

#[test]
fn test_prolong_request_lock_requires_the_current_live_lock() {
    let directory = Directory::new();
    let clock = TestClock::new();
    let mut client_a = Client::open_with_clock(&directory, &clock, false);
    client_a.add_batch_of_requests(vec![req("req1")], false).unwrap();
    let request = client_a.fetch_next_request().unwrap();
    let request_id = text_of(&request, "id");

    assert!(client_a.prolong_request_lock(request_id, minutes(2)).unwrap());

    let mut client_b = Client::open_with_clock(&directory, &clock, false);
    clock.advance(3 * 60 * 1000 + 1000);
    assert!(
        client_b.fetch_next_request().is_none(),
        "the request must remain reserved past its original lock expiry"
    );

    clock.advance(2 * 60 * 1000);
    let reacquired = client_b.fetch_next_request().unwrap();
    assert_eq!(text_of(&reacquired, "id"), request_id);

    assert!(
        !client_a.prolong_request_lock(request_id, minutes(1)).unwrap(),
        "a stale consumer must not extend the new consumer's lock"
    );
    assert!(client_b.prolong_request_lock(request_id, minutes(1)).unwrap());
}

#[test]
fn test_test_clock_is_shared_across_clients() {
    let directory = Directory::new();
    let clock = TestClock::new();
    let mut client_a = Client::open_with_clock(&directory, &clock, false);
    client_a.add_batch_of_requests(vec![req("req1")], false).unwrap();
    client_a.fetch_next_request().unwrap();

    clock.advance(4 * 60 * 1000);

    let mut client_b = Client::open_with_clock(&directory, &clock, false);
    assert!(client_b.fetch_next_request().is_some(), "the lock is expired for both");
}

#[test]
fn test_open_does_not_clobber_live_peer_lock() {
    let directory = Directory::new();
    let clock_a = TestClock::new();
    let clock_b = TestClock::new();
    let mut client_a = Client::open_with_clock(&directory, &clock_a, false);
    client_a.add_batch_of_requests(vec![req("req1")], false).unwrap();
    let locked = client_a.fetch_next_request().unwrap();
    assert_eq!(text_of(&locked, "uniqueKey"), "req1");

    let mut client_b = Client::open_with_clock(&directory, &clock_b, false);
    assert!(client_b.fetch_next_request().is_none(), "B must not fetch what A has locked");

    let processed = client_a.mark_request_as_handled(locked).unwrap().unwrap();
    assert!(processed.was_already_handled);
}

#[test]
fn test_mark_handled_after_lock_expiry() {
    let clock = TestClock::new();
    let mut client = Client::open_with_clock(&Directory::new(), &clock, false);
    client.add_batch_of_requests(vec![req("req1")], false).unwrap();

    let request = client.fetch_next_request().unwrap();
    clock.advance(3 * 60 * 1000 + 5);
    let result = client.mark_request_as_handled(request).unwrap();
    assert!(result.is_some(), "marking must succeed even after the lock expired");
    assert!(client.is_finished());
}

#[test]
fn test_reopen_does_not_duplicate_counts() {
    let directory = Directory::new();
    let mut client = Client::open(&directory);
    client.add_batch_of_requests(vec![req("req1"), req("req2")], false).unwrap();
    let meta = client.get_metadata();
    assert_eq!(meta.total_request_count, 2);
    assert_eq!(meta.pending_request_count, 2);

    let meta2 = Client::open(&directory).get_metadata();
    assert_eq!(meta2.total_request_count, 2);
    assert_eq!(meta2.pending_request_count, 2);
}

#[test]
fn test_purge_resets_everything() {
    let mut client = Client::open(&Directory::new());
    client.add_batch_of_requests(vec![req("req1"), req("req2")], false).unwrap();
    assert_eq!(client.get_metadata().total_request_count, 2);

    client.purge();
    assert_eq!(client.get_metadata().total_request_count, 0);
    assert!(client.is_empty());
    assert!(client.is_finished());
}

#[test]
fn test_get_request_updates_accessed_at() {
    let clock = TestClock::new();
    let mut client = Client::open_with_clock(&Directory::new(), &clock, false);
    client.add_batch_of_requests(vec![req("req1")], false).unwrap();

    let accessed_before = client.get_metadata().base.accessed_at.timestamp_millis();
    clock.advance(10);
    client.get_request("req1").unwrap();
    let accessed_after = client.get_metadata().base.accessed_at.timestamp_millis();
    assert!(accessed_after > accessed_before);
}

#[test]
fn test_fetch_after_purge_with_carried_creep() {
    let mut client = Client::open(&Directory::new());
    let batch: Vec<Json> = (0..50).map(|i| req(&format!("pre{i}"))).collect();
    client.add_batch_of_requests(batch, false).unwrap();
    client.purge();

    client.add_batch_of_requests(vec![req("after")], false).unwrap();
    assert!(!client.is_empty(), "a fetchable request exists post-purge");
    let fetched = client.fetch_next_request();
    assert!(fetched.is_some());
    assert_eq!(text_of(&fetched.unwrap(), "uniqueKey"), "after");
}

#[test]
fn test_large_same_ms_burst_all_fetchable() {
    let mut client = Client::open(&Directory::new());
    let n = 500;
    let batch: Vec<Json> = (0..n).map(|i| req(&format!("b{i:04}"))).collect();
    client.add_batch_of_requests(batch, false).unwrap();

    assert!(!client.is_empty());
    let mut fetched = 0;
    while let Some(r) = client.fetch_next_request() {
        client.mark_request_as_handled(r).unwrap();
        fetched += 1;
    }
    assert_eq!(fetched, n, "every request in a same-ms burst must be fetchable");
}

#[test]
fn test_fifo_order_within_same_millisecond_batch() {
    let mut client = Client::open(&Directory::new());
    let keys: Vec<String> = (0..20).map(|i| format!("r{i:02}")).collect();
    let batch: Vec<Json> = keys.iter().map(|k| req(k)).collect();
    client.add_batch_of_requests(batch, false).unwrap();

    for expected in &keys {
        let fetched = client.fetch_next_request().unwrap();
        assert_eq!(text_of(&fetched, "uniqueKey"), expected, "FIFO order violated");
        client.mark_request_as_handled(fetched).unwrap();
    }
}

#[test]
fn test_forefront_jumps_queue_even_same_millisecond() {
    let mut client = Client::open(&Directory::new());
    client.add_batch_of_requests(vec![req("first"), req("second")], false).unwrap();
    client.add_batch_of_requests(vec![req("priority")], true).unwrap();
    let fetched = client.fetch_next_request().unwrap();
    assert_eq!(text_of(&fetched, "uniqueKey"), "priority");
}

#[test]
fn test_multiple_forefront_preserve_lifo_or_fifo_order() {
    let mut client = Client::open(&Directory::new());
    client.add_batch_of_requests(vec![req("regular")], false).unwrap();
    client.add_batch_of_requests(vec![req("ff1"), req("ff2")], true).unwrap();

    let a = client.fetch_next_request().unwrap();
    let b = client.fetch_next_request().unwrap();
    let c = client.fetch_next_request().unwrap();
    assert_eq!(text_of(&c, "uniqueKey"), "regular", "regular must be fetched last");
    let front = [text_of(&a, "uniqueKey"), text_of(&b, "uniqueKey")];
    assert!(front.contains(&"ff1") && front.contains(&"ff2"));
    assert_eq!(front, ["ff2", "ff1"]);
}

#[test]
fn test_in_progress_requests_recovered_after_crash() {
    let directory = Directory::new();
    let clock = TestClock::new();
    let mut client = Client::open_with_clock(&directory, &clock, false);
    client.add_batch_of_requests(vec![req("a"), req("b"), req("c")], false).unwrap();
    let fetched = client.fetch_next_request().unwrap();
    assert_eq!(text_of(&fetched, "uniqueKey"), "a");
    client.core.persist_state();

    let mut client2 = Client::open_with_clock(&directory, &clock, false);
    assert_eq!(client2.get_metadata().pending_request_count, 3);
    assert!(!client2.is_finished());

    clock.advance(4 * 60 * 1000);
    let mut seen = std::collections::HashSet::new();
    for _ in 0..3 {
        let r = client2.fetch_next_request().unwrap();
        seen.insert(text_of(&r, "uniqueKey").to_string());
        client2.mark_request_as_handled(r).unwrap();
        clock.advance(4 * 60 * 1000);
    }
    assert_eq!(seen.len(), 3, "all 3 distinct requests must be recovered");
    assert!(client2.is_finished());
}

#[test]
fn test_assume_sole_owner_reclaims_locks_on_open() {
    let directory = Directory::new();
    let clock = TestClock::new();
    let mut client = Client::open_with_clock(&directory, &clock, false);
    client.add_batch_of_requests(vec![req("a")], false).unwrap();
    client.fetch_next_request().unwrap();

    let mut safe_reopen = Client::open_with_clock(&directory, &clock, false);
    assert!(safe_reopen.fetch_next_request().is_none(), "safe mode must respect the lock");

    let mut sole_owner_reopen = Client::open_with_clock(&directory, &clock, true);
    let fetched = sole_owner_reopen.fetch_next_request();
    assert!(fetched.is_some(), "a sole owner must reclaim the stale lock on open");
    assert_eq!(text_of(&fetched.unwrap(), "uniqueKey"), "a");
}

#[test]
fn test_persisted_order_no_in_file() {
    let mut client = Client::open(&Directory::new());
    client.add_batch_of_requests(vec![req("req1")], false).unwrap();

    let stored = client.persisted("req1");
    assert!(matches!(stored.get("id"), Some(Json::Text(_))));
    assert!(integer_of(&stored, "orderNo").is_some());

    let returned = client.get_request("req1").unwrap().unwrap();
    assert!(returned.get("orderNo").is_none());
    assert!(matches!(returned.get("id"), Some(Json::Text(_))));
}

#[test]
fn test_add_with_handled_at_counts_as_handled() {
    let mut client = Client::open(&Directory::new());
    let response = client.add_batch_of_requests(vec![handled_req("done")], false).unwrap();
    assert!(!response.processed_requests[0].was_already_handled);
    assert!(!response.processed_requests[0].was_already_present);

    let meta = client.get_metadata();
    assert_eq!(meta.handled_request_count, 1);
    assert_eq!(meta.pending_request_count, 0);
    assert_eq!(meta.total_request_count, 1);

    assert!(client.fetch_next_request().is_none());
    assert!(client.is_empty());
    assert!(client.is_finished());

    let stored = client.persisted("done");
    assert!(matches!(stored.get("orderNo"), Some(Json::Null)));
}

#[test]
fn test_add_with_handled_at_survives_reopen() {
    let directory = Directory::new();
    let mut client = Client::open(&directory);
    client.add_batch_of_requests(vec![handled_req("done"), req("pending")], false).unwrap();
    let meta = client.get_metadata();
    assert_eq!(meta.handled_request_count, 1);
    assert_eq!(meta.pending_request_count, 1);

    let mut client2 = Client::open(&directory);
    let meta = client2.get_metadata();
    assert_eq!(meta.handled_request_count, 1);
    assert_eq!(meta.pending_request_count, 1);
    assert_eq!(meta.total_request_count, 2);
    let fetched = client2.fetch_next_request().unwrap();
    assert_eq!(text_of(&fetched, "uniqueKey"), "pending");
}

#[test]
fn test_add_with_handled_at_ignores_forefront_flag() {
    let mut client = Client::open(&Directory::new());
    client.add_batch_of_requests(vec![handled_req("done")], true).unwrap();
    let meta = client.get_metadata();
    assert_eq!(meta.handled_request_count, 1);
    assert_eq!(meta.pending_request_count, 0);
    assert!(meta.forefront_request_ids.is_empty());
}

#[test]
fn test_add_with_null_handled_at_is_still_pending() {
    let mut client = Client::open(&Directory::new());
    let r = req("nullish").set("handledAt", Json::Null);
    client.add_batch_of_requests(vec![r], false).unwrap();
    let meta = client.get_metadata();
    assert_eq!(meta.handled_request_count, 0);
    assert_eq!(meta.pending_request_count, 1);
}

#[test]
fn test_write_path_ignores_caller_supplied_order_no() {
    let mut client = Client::open(&Directory::new());
    client.add_batch_of_requests(vec![req("reclaimed"), req("handled")], false).unwrap();

    let fetched = client.fetch_next_request().unwrap();
    let unique_key = text_of(&fetched, "uniqueKey").to_string();
    let to_reclaim = fetched.set("orderNo", Json::Integer(i64::MAX));
    client.reclaim_request(to_reclaim, false).unwrap().unwrap();

    let persisted_order = integer_of(&client.persisted(&unique_key), "orderNo").unwrap();
    assert_ne!(persisted_order, i64::MAX);
    let now = client.clock.now().timestamp_millis();
    assert!(!is_locked_order(persisted_order, now));

    let fetched = client.fetch_next_request().unwrap();
    let handled_key = text_of(&fetched, "uniqueKey").to_string();
    let to_handle = fetched.set("orderNo", Json::Integer(i64::MAX));
    client.mark_request_as_handled(to_handle).unwrap().unwrap();
    let persisted = client.persisted(&handled_key);
    assert!(matches!(persisted.get("orderNo"), Some(Json::Null)));
}

#[test]
fn test_get_request_does_not_lock() {
    let mut client = Client::open(&Directory::new());
    client.add_batch_of_requests(vec![req("peek-me")], false).unwrap();

    let peeked = client.get_request("peek-me").unwrap().unwrap();
    assert_eq!(text_of(&peeked, "uniqueKey"), "peek-me");
    assert!(!client.is_empty(), "get_request must not lock the request");
    let fetched = client.fetch_next_request().unwrap();
    assert_eq!(text_of(&fetched, "uniqueKey"), "peek-me");
}

#[test]
fn test_persist_state_is_noop() {
    let mut client = Client::open(&Directory::new());
    client.add_batch_of_requests(vec![req("a"), req("b")], false).unwrap();
    client.fetch_next_request().unwrap();

    let before = client.get_metadata();
    client.core.persist_state();
    let after = client.get_metadata();
    assert_eq!(before, after);
    assert_eq!(before.total_request_count, after.total_request_count);
    assert_eq!(before.pending_request_count, after.pending_request_count);
    assert_eq!(before.handled_request_count, after.handled_request_count);
}

#[test]
fn test_metadata_file_updated_on_disk_after_mutation() {
    let directory = Directory::new();
    let mut client = Client::open(&directory);
    client.add_batch_of_requests(vec![req("one")], false).unwrap();

    let meta = directory.saved();
    assert_eq!(meta.total_request_count, 1);
    assert_eq!(meta.pending_request_count, 1);
    assert_eq!(meta.handled_request_count, 0);

    let request = client.fetch_next_request().unwrap();
    client.mark_request_as_handled(request).unwrap();
    let meta = directory.saved();
    assert_eq!(meta.total_request_count, 1);
    assert_eq!(meta.pending_request_count, 0);
    assert_eq!(meta.handled_request_count, 1);
}
