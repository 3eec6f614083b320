use std::cell::{Cell, RefCell};
use std::collections::HashMap;
use std::rc::Rc;

use crawlee_storage::add::AddStep;
use crawlee_storage::clock::{Duration, Timestamp};
use crawlee_storage::fetch::{EmptyStep, FetchStep};
use crawlee_storage::files::{get_request_files, METADATA_FILENAME};
use crawlee_storage::finish::FinishStep;
use crawlee_storage::ids::{request_file_name, unique_key_to_request_id};
use crawlee_storage::json::Json;
use crawlee_storage::models::{
    AddRequestsResponse, FileWrite, ProcessedRequest, RequestQueueMetadata, StorageError,
};
use crawlee_storage::prolong::ProlongStep;
use crawlee_storage::request::extract_unique_key;
use crawlee_storage::settle::SettleStep;
use crawlee_storage::state::FileSystemRequestQueueClient;

/// A clock that moves only when it is told to.
#[derive(Clone)]
struct TestClock {
    millis: Rc<Cell<i64>>,
}

impl TestClock {
    fn new() -> TestClock {
        TestClock { millis: Rc::new(Cell::new(1_700_000_000_000)) }
    }

    fn now(&self) -> Timestamp {
        let millis = self.millis.get();
        Timestamp::new(millis / 1000, (millis % 1000) as u32 * 1_000_000).unwrap()
    }

    fn advance(&self, millis: i64) {
        self.millis.set(self.millis.get() + millis);
    }
}

/// A directory that lives in memory.
#[derive(Clone)]
struct Directory {
    files: Rc<RefCell<HashMap<String, String>>>,
    metadata: Rc<RefCell<Option<RequestQueueMetadata>>>,
}

impl Directory {
    fn new() -> Directory {
        Directory {
            files: Rc::new(RefCell::new(HashMap::new())),
            metadata: Rc::new(RefCell::new(None)),
        }
    }

    fn read(&self, name: &str) -> Option<String> {
        self.files.borrow().get(name).cloned()
    }

    fn write(&self, name: &str, contents: &str) {
        self.files.borrow_mut().insert(name.to_string(), contents.to_string());
    }

    fn write_file(&self, write: &FileWrite) {
        self.write(&write.file_name, &write.contents);
    }

    fn names(&self) -> Vec<String> {
        let mut names: Vec<String> = self.files.borrow().keys().cloned().collect();
        names.push(METADATA_FILENAME.to_string());
        names
    }

    fn saved(&self) -> RequestQueueMetadata {
        self.metadata.borrow().clone().unwrap()
    }
}

/// A queue in a directory, driven the way an I/O layer drives it.
struct Client {
    core: FileSystemRequestQueueClient,
    directory: Directory,
    clock: TestClock,
}

impl Client {
    fn open(directory: &Directory) -> Client {
        Client::open_with_clock(directory, &TestClock::new(), false)
    }

    fn open_with_clock(directory: &Directory, clock: &TestClock, sole_owner: bool) -> Client {
        let known = directory.metadata.borrow().clone();
        let metadata = match known {
            Some(metadata) => metadata,
            None => RequestQueueMetadata::new("queue-id".to_string(), None, clock.now()),
        };
        let names = directory.names();
        let mut rebuild = FileSystemRequestQueueClient::open_with_clock(
            metadata,
            &names,
            clock.now(),
            sole_owner,
        );
        while let Some(name) = rebuild.next_file().cloned() {
            let content = directory.read(&name);
            let (next, replacement) = rebuild.index_file(content.as_deref());
            if let Some(text) = replacement {
                directory.write(&name, &text);
            }
            rebuild = next;
        }
        let client = Client {
            core: rebuild.finish(),
            directory: directory.clone(),
            clock: clock.clone(),
        };
        client.save();
        client
    }

    fn save(&self) {
        *self.directory.metadata.borrow_mut() = Some(self.core.get_metadata());
    }

    fn get_metadata(&self) -> RequestQueueMetadata {
        self.core.get_metadata()
    }

    fn add_batch_of_requests(
        &mut self,
        requests: Vec<Json>,
        forefront: bool,
    ) -> Result<AddRequestsResponse, StorageError> {
        let mut batch = self.core.add_batch_of_requests(requests, forefront);
        loop {
            assert!(self.core.has_room() || !self.core.needs_number(&batch));
            match self.core.add_next(batch, self.clock.now())? {
                AddStep::Write(pending) => {
                    self.directory.write_file(pending.write());
                    assert!(self.core.counts_fit());
                    batch = self.core.add_written(pending);
                }
                AddStep::Finished(response) => {
                    self.save();
                    return Ok(response);
                }
            }
        }
    }

    fn get_request(&mut self, unique_key: &str) -> Result<Option<Json>, StorageError> {
        let content = self.directory.read(&request_file_name(unique_key));
        let request = self.core.get_request(content.as_deref(), self.clock.now())?;
        if request.is_some() {
            self.save();
        }
        Ok(request)
    }

    fn fetch_next_request(&mut self) -> Option<Json> {
        let mut scan = self.core.fetch_next_request(self.clock.now());
        while let Some(name) = scan.next_file() {
            let content = self.directory.read(&name);
            match self.core.try_fetch_examine(scan, content.as_deref()).unwrap() {
                FetchStep::Next(rest) => scan = rest,
                FetchStep::Lock(lock) => {
                    self.directory.write_file(lock.write());
                    self.core.fetch_locked(&lock, self.clock.now());
                    self.save();
                    return Some(self.core.fetch_held(lock));
                }
            }
        }
        None
    }

    fn has_file(&self, request: &Json) -> bool {
        match extract_unique_key(request) {
            Ok(key) => self.directory.read(&request_file_name(&key)).is_some(),
            Err(_) => false,
        }
    }

    fn mark_request_as_handled(
        &mut self,
        request: Json,
    ) -> Result<Option<ProcessedRequest>, StorageError> {
        let file_exists = self.has_file(&request);
        match self.core.mark_request_as_handled(request, file_exists, self.clock.now())? {
            SettleStep::Done(report) => Ok(report),
            SettleStep::Write(pending) => {
                self.directory.write_file(pending.write());
                assert!(self.core.handled_request_count() < usize::MAX);
                let report = self.core.marked(pending);
                self.save();
                Ok(Some(report))
            }
        }
    }

    fn reclaim_request(
        &mut self,
        request: Json,
        forefront: bool,
    ) -> Result<Option<ProcessedRequest>, StorageError> {
        let file_exists = self.has_file(&request);
        match self.core.reclaim_request(request, forefront, file_exists, self.clock.now())? {
            SettleStep::Done(report) => Ok(report),
            SettleStep::Write(pending) => {
                self.directory.write_file(pending.write());
                assert!(self.core.has_room_for(pending.unique_key()));
                let report = self.core.reclaimed(pending, self.clock.now());
                self.save();
                Ok(Some(report))
            }
        }
    }

    fn prolong_request_lock(
        &mut self,
        request_id: &str,
        duration: Duration,
    ) -> Result<bool, StorageError> {
        let scan = match self.core.prolong_request_lock(request_id, duration)? {
            Some(scan) => scan,
            None => return Ok(false),
        };
        let content = self.directory.read(&scan.file_name());
        match self.core.prolong_examine(scan, content.as_deref(), self.clock.now())? {
            ProlongStep::Lost => Ok(false),
            ProlongStep::Write(pending) => {
                self.directory.write_file(pending.write());
                self.core.prolonged(pending, self.clock.now());
                self.save();
                Ok(true)
            }
        }
    }

    fn is_empty(&mut self) -> bool {
        let mut scan = self.core.is_empty(self.clock.now());
        self.save();
        while let Some(name) = scan.next_file() {
            let content = self.directory.read(&name);
            match self.core.empty_examine(scan, content.as_deref()) {
                EmptyStep::Next(rest) => scan = rest,
                EmptyStep::Fetchable => return false,
            }
        }
        true
    }

    fn is_finished(&mut self) -> bool {
        let mut scan = self.core.is_finished(&self.directory.names());
        while let Some(name) = scan.next_file().cloned() {
            let content = self.directory.read(&name);
            match self.core.finish_examine(scan, content.as_deref()) {
                FinishStep::Next(rest) => scan = rest,
                FinishStep::Outstanding => return false,
            }
        }
        self.core.finish_conclude(scan)
    }

    fn purge(&mut self) {
        for name in get_request_files(&self.directory.names()) {
            self.directory.files.borrow_mut().remove(&name);
        }
        self.core.purge(self.clock.now());
        self.save();
    }

    fn persisted(&self, unique_key: &str) -> Json {
        let text = self.directory.read(&request_file_name(unique_key)).unwrap();
        Json::parse(&text).unwrap()
    }
}

fn req(unique_key: &str) -> Json {
    let text = format!(
        "{{\"uniqueKey\": \"{unique_key}\", \"url\": \"https://example.com/{unique_key}\", \"method\": \"GET\"}}"
    );
    Json::parse(&text).unwrap()
}

fn handled_req(unique_key: &str) -> Json {
    let stamp = Json::Text("2024-01-15T10:30:00.123456+00:00".to_string());
    req(unique_key).set("handledAt", stamp)
}

fn text_of<'a>(document: &'a Json, field: &str) -> &'a str {
    match document.get(field) {
        Some(Json::Text(text)) => text,
        _ => panic!("{field} is not a text"),
    }
}

fn integer_of(document: &Json, field: &str) -> Option<i64> {
    match document.get(field) {
        Some(Json::Integer(n)) => Some(*n),
        _ => None,
    }
}

fn minutes(count: i64) -> Duration {
    Duration::milliseconds(count * 60 * 1000)
}

fn now_of(client: &Client) -> i64 {
    client.clock.now().timestamp_millis()
}

fn assert_refused<T>(result: Result<T, StorageError>, expected: &str) {
    match result {
        Err(StorageError::InvalidArgs(message)) => assert_eq!(message, expected),
        _ => panic!("should have been refused with: {expected}"),
    }
}

#[test]
fn a_request_is_written_with_its_id_and_order_number() {
    let directory = Directory::new();
    let mut client = Client::open(&directory);
    let now = now_of(&client);
    client.add_batch_of_requests(vec![req("abc")], false).unwrap();
    let text = directory.read("ba7816bf8f01cfe.json").unwrap();
    let expected = format!(
        "{{\n  \"id\": \"ungWv48BzpBQUDe\",\n  \"method\": \"GET\",\n  \"orderNo\": {now},\n  \"uniqueKey\": \"abc\",\n  \"url\": \"https://example.com/abc\"\n}}"
    );
    assert_eq!(text, expected);
}

#[test]
fn a_forefront_request_has_a_negative_order_number() {
    let mut client = Client::open(&Directory::new());
    client.add_batch_of_requests(vec![req("front")], true).unwrap();
    assert_eq!(integer_of(&client.persisted("front"), "orderNo"), Some(-now_of(&client)));
    assert_eq!(client.get_metadata().forefront_request_ids, vec!["front".to_string()]);
}

#[test]
fn the_snake_case_key_is_accepted() {
    let mut client = Client::open(&Directory::new());
    let request = Json::parse("{\"unique_key\": \"snake\"}").unwrap();
    let response = client.add_batch_of_requests(vec![request], false).unwrap();
    assert_eq!(response.processed_requests[0].unique_key, "snake");
    assert!(response.unprocessed_requests.is_empty());
}

#[test]
fn a_request_without_a_key_ends_the_batch() {
    let directory = Directory::new();
    let mut client = Client::open(&directory);
    let keyless = Json::parse("{\"url\": \"https://example.com\"}").unwrap();
    let result = client.add_batch_of_requests(vec![req("before"), keyless, req("after")], false);
    assert_refused(result, "Request must have a 'uniqueKey' field");
    // What came before it stays, what came after it was not taken.
    assert!(directory.read(&request_file_name("before")).is_some());
    assert!(directory.read(&request_file_name("after")).is_none());
    assert_eq!(client.get_metadata().total_request_count, 1);
    // The failed batch did not save the metadata.
    assert_eq!(directory.saved().total_request_count, 0);
}

#[test]
fn a_number_is_no_key() {
    let mut client = Client::open(&Directory::new());
    let request = Json::parse("{\"uniqueKey\": 7, \"unique_key\": \"ignored\"}").unwrap();
    let result = client.add_batch_of_requests(vec![request], false);
    assert_refused(result, "Request must have a 'uniqueKey' field");
}

#[test]
fn adding_again_changes_only_the_times() {
    let clock = TestClock::new();
    let mut client = Client::open_with_clock(&Directory::new(), &clock, false);
    client.add_batch_of_requests(vec![req("a"), handled_req("b")], false).unwrap();
    let before = client.get_metadata();
    clock.advance(5);
    let response = client.add_batch_of_requests(vec![req("a"), req("b")], false).unwrap();
    let after = client.get_metadata();
    assert!(response.processed_requests.iter().all(|p| p.was_already_present));
    assert!(!response.processed_requests[0].was_already_handled);
    assert!(response.processed_requests[1].was_already_handled);
    assert_eq!(before.total_request_count, after.total_request_count);
    assert_eq!(before.pending_request_count, after.pending_request_count);
    assert_eq!(after.base.modified_at, clock.now());
    assert_eq!(after.base.accessed_at, clock.now());
    assert_eq!(before.base.created_at, after.base.created_at);
}

#[test]
fn a_pending_request_can_be_moved_to_the_forefront() {
    let mut client = Client::open(&Directory::new());
    client.add_batch_of_requests(vec![req("a"), req("b")], false).unwrap();
    let response = client.add_batch_of_requests(vec![req("b")], true).unwrap();
    assert!(response.processed_requests[0].was_already_present);
    assert_eq!(client.get_metadata().total_request_count, 2);
    assert_eq!(client.get_metadata().pending_request_count, 2);
    assert_eq!(text_of(&client.fetch_next_request().unwrap(), "uniqueKey"), "b");
    assert_eq!(text_of(&client.fetch_next_request().unwrap(), "uniqueKey"), "a");
}

#[test]
fn a_handled_request_is_not_moved_to_the_forefront() {
    let mut client = Client::open(&Directory::new());
    client.add_batch_of_requests(vec![handled_req("done")], false).unwrap();
    let response = client.add_batch_of_requests(vec![req("done")], true).unwrap();
    assert!(response.processed_requests[0].was_already_present);
    assert!(response.processed_requests[0].was_already_handled);
    assert!(client.get_metadata().forefront_request_ids.is_empty());
    assert!(client.is_finished());
}

#[test]
fn forefront_requests_come_out_newest_first() {
    let mut client = Client::open(&Directory::new());
    client.add_batch_of_requests(vec![req("r1"), req("r2")], false).unwrap();
    client.add_batch_of_requests(vec![req("f1")], true).unwrap();
    client.add_batch_of_requests(vec![req("f2")], true).unwrap();
    client.add_batch_of_requests(vec![req("f1")], true).unwrap();
    let mut order: Vec<String> = Vec::new();
    while let Some(request) = client.fetch_next_request() {
        order.push(text_of(&request, "uniqueKey").to_string());
    }
    assert_eq!(order, vec!["f1", "f2", "r1", "r2"]);
}

#[test]
fn regular_requests_come_out_by_order_number() {
    let clock = TestClock::new();
    let mut client = Client::open_with_clock(&Directory::new(), &clock, false);
    client.add_batch_of_requests(vec![req("first")], false).unwrap();
    clock.advance(1);
    client.add_batch_of_requests(vec![req("second")], false).unwrap();
    let first = client.fetch_next_request().unwrap();
    assert_eq!(text_of(&first, "uniqueKey"), "first");
    // Returned later, it now stands behind the second one.
    clock.advance(1);
    client.reclaim_request(first, false).unwrap();
    assert_eq!(text_of(&client.fetch_next_request().unwrap(), "uniqueKey"), "second");
}

#[test]
fn a_lock_reaches_three_minutes_ahead() {
    let mut client = Client::open(&Directory::new());
    client.add_batch_of_requests(vec![req("regular")], false).unwrap();
    client.add_batch_of_requests(vec![req("front")], true).unwrap();
    let until = now_of(&client) + 180_000;
    client.fetch_next_request().unwrap();
    client.fetch_next_request().unwrap();
    assert_eq!(integer_of(&client.persisted("regular"), "orderNo"), Some(until));
    assert_eq!(integer_of(&client.persisted("front"), "orderNo"), Some(-until));
}

#[test]
fn a_lock_is_live_until_its_expiry() {
    let clock = TestClock::new();
    let mut client = Client::open_with_clock(&Directory::new(), &clock, false);
    client.add_batch_of_requests(vec![req("a")], false).unwrap();
    client.fetch_next_request().unwrap();
    clock.advance(179_999);
    assert!(client.is_empty());
    assert!(client.fetch_next_request().is_none());
    clock.advance(1);
    assert!(!client.is_empty());
    assert!(client.fetch_next_request().is_some());
}

#[test]
fn the_processing_time_is_only_raised() {
    let mut client = Client::open(&Directory::new());
    client.core.set_expected_request_processing_time(minutes(10));
    client.core.set_expected_request_processing_time(minutes(1));
    client.add_batch_of_requests(vec![req("a")], false).unwrap();
    client.fetch_next_request().unwrap();
    let until = now_of(&client) + 600_000;
    assert_eq!(integer_of(&client.persisted("a"), "orderNo"), Some(until));
}

#[test]
fn a_lock_out_of_range_is_noticed() {
    let mut client = Client::open(&Directory::new());
    client.core.set_expected_request_processing_time(Duration::milliseconds(i64::MAX));
    assert!(!client.core.lock_fits(client.clock.now()));
    let before_the_epoch = Timestamp::new(-1, 0).unwrap();
    assert!(client.core.lock_fits(before_the_epoch));
    client.add_batch_of_requests(vec![req("a")], false).unwrap();
    let scan = client.core.fetch_next_request(client.clock.now());
    let content = client.directory.read(&request_file_name("a"));
    assert!(client.core.try_fetch_examine(scan, content.as_deref()).is_none());
    // A candidate that is not free needs no lock.
    let scan = client.core.fetch_next_request(client.clock.now());
    assert!(client.core.try_fetch_examine(scan, None).is_some());
}

#[test]
fn a_vanished_file_is_dropped_from_the_index() {
    let directory = Directory::new();
    let mut client = Client::open(&directory);
    client.add_batch_of_requests(vec![req("gone"), req("here")], false).unwrap();
    directory.files.borrow_mut().remove(&request_file_name("gone"));
    assert_eq!(text_of(&client.fetch_next_request().unwrap(), "uniqueKey"), "here");
    // It is no longer known.
    assert!(client.mark_request_as_handled(req("gone")).unwrap().is_none());
}

#[test]
fn an_unreadable_file_is_skipped() {
    let directory = Directory::new();
    let mut client = Client::open(&directory);
    client.add_batch_of_requests(vec![req("bad"), req("good")], false).unwrap();
    directory.write(&request_file_name("bad"), "{ not json");
    assert_eq!(text_of(&client.fetch_next_request().unwrap(), "uniqueKey"), "good");
    assert!(client.fetch_next_request().is_none());
    assert!(client.is_empty());
    // It is still in the index, and so the queue is not finished.
    assert!(!client.is_finished());
}

#[test]
fn the_index_follows_the_files_of_a_peer() {
    let directory = Directory::new();
    let clock = TestClock::new();
    let mut a = Client::open_with_clock(&directory, &clock, false);
    a.add_batch_of_requests(vec![req("x"), req("y"), req("z")], false).unwrap();
    let mut b = Client::open_with_clock(&directory, &clock, false);
    let x = a.fetch_next_request().unwrap();
    a.mark_request_as_handled(x).unwrap();
    a.fetch_next_request().unwrap();
    // To the other client x is handled elsewhere and y is locked elsewhere.
    assert_eq!(text_of(&b.fetch_next_request().unwrap(), "uniqueKey"), "z");
    assert!(b.fetch_next_request().is_none());
    assert!(b.is_empty());
    assert!(!b.is_finished());
    assert!(b.reclaim_request(req("x"), false).unwrap().is_none());
}

#[test]
fn a_returned_request_keeps_its_content() {
    let mut client = Client::open(&Directory::new());
    let text = "{\"uniqueKey\": \"k\", \"userData\": {\"depth\": [1, -2, 18446744073709551615, null, true, \"\\u017elu\\u0165\"]}}";
    client.add_batch_of_requests(vec![Json::parse(text).unwrap()], false).unwrap();
    let fetched = client.fetch_next_request().unwrap();
    let id = unique_key_to_request_id("k");
    let expected = Json::parse(text).unwrap().set("id", Json::Text(id));
    assert_eq!(fetched.to_value(), expected.to_value());
    assert_eq!(client.get_request("k").unwrap().unwrap().to_value(), expected.to_value());
}

#[test]
fn a_missing_request_reads_as_none() {
    let directory = Directory::new();
    let mut client = Client::open(&directory);
    let before = client.get_metadata();
    client.clock.advance(1);
    assert!(client.get_request("nobody").unwrap().is_none());
    assert_eq!(client.get_metadata(), before);
    directory.write(&request_file_name("broken"), "{");
    assert!(matches!(client.get_request("broken"), Err(StorageError::Json(_))));
    assert_eq!(client.get_metadata(), before);
}

#[test]
fn marking_writes_the_time_and_a_null_order_number() {
    let clock = TestClock { millis: Rc::new(Cell::new(1_705_314_600_123)) };
    let mut client = Client::open_with_clock(&Directory::new(), &clock, false);
    client.add_batch_of_requests(vec![req("a")], true).unwrap();
    let request = client.fetch_next_request().unwrap();
    let report = client.mark_request_as_handled(request).unwrap().unwrap();
    assert_eq!(report.request_id, unique_key_to_request_id("a"));
    assert_eq!(report.unique_key, "a");
    assert!(report.was_already_present);
    let stored = client.persisted("a");
    assert_eq!(text_of(&stored, "handledAt"), "2024-01-15T10:30:00.123000+00:00");
    assert!(matches!(stored.get("orderNo"), Some(Json::Null)));
    let meta = client.get_metadata();
    assert!(meta.forefront_request_ids.is_empty());
    assert_eq!((meta.handled_request_count, meta.pending_request_count), (1, 0));
}

#[test]
fn a_request_is_marked_once() {
    let mut client = Client::open(&Directory::new());
    client.add_batch_of_requests(vec![req("a")], false).unwrap();
    let request = client.fetch_next_request().unwrap();
    client.mark_request_as_handled(request).unwrap();
    let again = client.mark_request_as_handled(req("a")).unwrap().unwrap();
    assert!(again.was_already_handled);
    assert_eq!(client.get_metadata().handled_request_count, 1);
    assert!(client.reclaim_request(req("a"), true).unwrap().is_none());
}

#[test]
fn an_unknown_request_is_not_settled() {
    let mut client = Client::open(&Directory::new());
    assert!(client.mark_request_as_handled(req("nobody")).unwrap().is_none());
    assert!(client.reclaim_request(req("nobody"), false).unwrap().is_none());
    let keyless = Json::parse("{}").unwrap();
    assert_refused(
        client.mark_request_as_handled(keyless),
        "Request must have a 'uniqueKey' field",
    );
    let keyless = Json::parse("[]").unwrap();
    assert_refused(
        client.reclaim_request(keyless, false),
        "Request must have a 'uniqueKey' field",
    );
}

#[test]
fn a_request_that_a_peer_added_can_be_settled() {
    let directory = Directory::new();
    let mut a = Client::open(&directory);
    let mut b = Client::open(&directory);
    a.add_batch_of_requests(vec![req("x"), req("y")], false).unwrap();
    // The other client has neither in its index, but finds the files.
    assert!(b.mark_request_as_handled(req("x")).unwrap().is_some());
    assert!(b.reclaim_request(req("y"), true).unwrap().is_some());
    assert_eq!(b.get_metadata().handled_request_count, 1);
    assert_eq!(b.get_metadata().pending_request_count, 0);
    assert_eq!(text_of(&b.fetch_next_request().unwrap(), "uniqueKey"), "y");
}

#[test]
fn a_request_returned_to_the_forefront_is_next() {
    let mut client = Client::open(&Directory::new());
    client.add_batch_of_requests(vec![req("a"), req("b")], false).unwrap();
    client.add_batch_of_requests(vec![req("f")], true).unwrap();
    client.fetch_next_request().unwrap();
    let a = client.fetch_next_request().unwrap();
    let report = client.reclaim_request(a, true).unwrap().unwrap();
    assert!(report.was_already_present);
    assert!(!report.was_already_handled);
    assert_eq!(integer_of(&client.persisted("a"), "orderNo"), Some(-now_of(&client)));
    assert_eq!(text_of(&client.fetch_next_request().unwrap(), "uniqueKey"), "a");
}

#[test]
fn an_id_of_the_caller_is_ignored() {
    let mut client = Client::open(&Directory::new());
    let bogus = || req("a").set("id", Json::Text("bogus".to_string()));
    let id = unique_key_to_request_id("a");
    client.add_batch_of_requests(vec![bogus()], false).unwrap();
    assert_eq!(text_of(&client.persisted("a"), "id"), id);
    client.reclaim_request(bogus(), false).unwrap();
    assert_eq!(text_of(&client.persisted("a"), "id"), id);
    // The lock of the next fetch can be extended.
    client.fetch_next_request().unwrap();
    assert!(client.prolong_request_lock(&id, minutes(1)).unwrap());
    client.mark_request_as_handled(bogus()).unwrap();
    assert_eq!(text_of(&client.persisted("a"), "id"), id);
    client.add_batch_of_requests(vec![req("b")], false).unwrap();
    client.mark_request_as_handled(req("b").unset("id")).unwrap();
    assert_eq!(text_of(&client.persisted("b"), "id"), unique_key_to_request_id("b"));
}

#[test]
fn a_queue_whose_only_request_a_peer_locked_is_empty() {
    let directory = Directory::new();
    let clock = TestClock::new();
    let mut a = Client::open_with_clock(&directory, &clock, false);
    a.add_batch_of_requests(vec![req("k")], false).unwrap();
    let mut b = Client::open_with_clock(&directory, &clock, false);
    let mut c = Client::open_with_clock(&directory, &clock, false);
    assert!(!b.is_empty());
    a.fetch_next_request().unwrap();
    assert!(b.is_empty());
    assert!(b.fetch_next_request().is_none());
    assert!(c.fetch_next_request().is_none());
    assert!(!b.is_finished());
    clock.advance(180_000);
    assert!(!b.is_empty());
}

#[test]
fn asking_whether_a_queue_is_empty_changes_only_the_access_time() {
    let clock = TestClock::new();
    let mut client = Client::open_with_clock(&Directory::new(), &clock, false);
    client.add_batch_of_requests(vec![req("a"), req("b")], false).unwrap();
    let before = client.get_metadata();
    let keys = client.core.ordered_candidate_keys(clock.now());
    clock.advance(1);
    assert!(!client.is_empty());
    let after = client.get_metadata();
    assert_eq!(after.base.accessed_at, clock.now());
    assert_eq!(after.base.modified_at, before.base.modified_at);
    assert_eq!(after.total_request_count, before.total_request_count);
    assert_eq!(client.core.ordered_candidate_keys(clock.now()), keys);
}

#[test]
fn a_request_that_a_peer_added_is_outstanding() {
    let directory = Directory::new();
    let mut a = Client::open(&directory);
    let mut b = Client::open(&directory);
    assert!(a.is_finished());
    b.add_batch_of_requests(vec![req("k")], false).unwrap();
    assert!(!a.is_finished());
    let k = b.fetch_next_request().unwrap();
    assert!(!a.is_finished());
    b.mark_request_as_handled(k).unwrap();
    assert!(a.is_finished());
    assert!(b.is_finished());
}

#[test]
fn a_request_that_a_peer_handled_is_finished() {
    let directory = Directory::new();
    let mut a = Client::open(&directory);
    a.add_batch_of_requests(vec![req("k")], false).unwrap();
    let mut b = Client::open(&directory);
    let k = b.fetch_next_request().unwrap();
    b.mark_request_as_handled(k).unwrap();
    assert!(a.is_finished());
    // The index has followed the file.
    assert!(a.reclaim_request(req("k"), false).unwrap().is_none());
}

#[test]
fn a_request_without_an_order_number_does_not_keep_the_queue_open() {
    let directory = Directory::new();
    directory.write(&request_file_name("k"), "{\"uniqueKey\": \"k\"}");
    directory.write(&request_file_name("t"), "{\"uniqueKey\": \"t\", \"orderNo\": \"7\"}");
    let mut client = Client::open(&directory);
    assert_eq!(client.get_metadata().pending_request_count, 2);
    assert!(!client.is_finished());
    // There is nothing to fetch it by, and so it is given up.
    assert!(client.fetch_next_request().is_none());
    assert!(client.is_empty());
    assert!(client.is_finished());
    // A client that has not tried it yet still counts on it.
    assert!(!Client::open(&directory).is_finished());
}

#[test]
fn members_next_to_a_float_come_back_equal() {
    let mut client = Client::open(&Directory::new());
    let text = "{\"uniqueKey\": \"k\", \"score\": 0.1, \"userData\": {\"list\": [1, [\"x\", null]], \"w\": 2.5e-3}, \"tags\": [\"a\", {\"b\": -7}]}";
    client.add_batch_of_requests(vec![Json::parse(text).unwrap()], false).unwrap();
    let back = client.get_request("k").unwrap().unwrap().to_value();
    let sent: serde_json::Value = serde_json::from_str(text).unwrap();
    assert_eq!(back["tags"], sent["tags"]);
    assert_eq!(back["userData"]["list"], sent["userData"]["list"]);
    assert!(back["score"].is_f64());
}

#[test]
fn a_returned_request_with_a_handling_time_is_outstanding_here() {
    let mut client = Client::open(&Directory::new());
    client.add_batch_of_requests(vec![req("k")], false).unwrap();
    client.reclaim_request(handled_req("k"), false).unwrap();
    assert!(!client.is_finished());
    assert!(!client.is_empty());
}

#[test]
fn a_request_is_not_handed_out_twice_within_its_lock_time() {
    let directory = Directory::new();
    let clock = TestClock::new();
    let mut a = Client::open_with_clock(&directory, &clock, false);
    a.add_batch_of_requests(vec![req("k")], false).unwrap();
    let mut b = Client::open_with_clock(&directory, &clock, false);
    a.fetch_next_request().unwrap();
    for _ in 0..3 {
        clock.advance(59_999);
        assert!(a.fetch_next_request().is_none());
        assert!(b.fetch_next_request().is_none());
        assert!(Client::open_with_clock(&directory, &clock, false).fetch_next_request().is_none());
    }
    let id = unique_key_to_request_id("k");
    assert!(a.prolong_request_lock(&id, minutes(1)).unwrap());
    clock.advance(60_000);
    assert!(b.fetch_next_request().is_none());
    clock.advance(3);
    assert!(b.fetch_next_request().is_some());
}

#[test]
fn a_handled_request_stays_handled_whatever_follows() {
    let clock = TestClock::new();
    let mut client = Client::open_with_clock(&Directory::new(), &clock, false);
    client.add_batch_of_requests(vec![req("k"), req("other")], false).unwrap();
    let k = client.fetch_next_request().unwrap();
    client.mark_request_as_handled(k).unwrap();
    let id = unique_key_to_request_id("k");
    for forefront in [false, true] {
        let response = client.add_batch_of_requests(vec![req("k")], forefront).unwrap();
        assert!(response.processed_requests[0].was_already_handled);
        assert!(client.reclaim_request(req("k"), forefront).unwrap().is_none());
        assert!(!client.prolong_request_lock(&id, minutes(1)).unwrap());
        let other = client.fetch_next_request().unwrap();
        assert_eq!(text_of(&other, "uniqueKey"), "other");
        client.reclaim_request(other, forefront).unwrap();
        client.is_empty();
        client.is_finished();
        clock.advance(1_000_000);
    }
    assert_eq!(client.get_metadata().handled_request_count, 1);
}

#[test]
fn a_batch_counts_new_keys_by_their_first_request() {
    let mut client = Client::open(&Directory::new());
    client.add_batch_of_requests(vec![req("old")], false).unwrap();
    let batch = vec![
        handled_req("a"),
        req("a"),
        req("b"),
        handled_req("b"),
        req("old"),
        req("c"),
    ];
    client.add_batch_of_requests(batch, true).unwrap();
    let meta = client.get_metadata();
    assert_eq!(meta.total_request_count, 4);
    assert_eq!(meta.handled_request_count, 1);
    assert_eq!(meta.pending_request_count, 3);
}

#[test]
fn only_a_request_that_is_written_needs_a_number() {
    let mut client = Client::open(&Directory::new());
    client.add_batch_of_requests(vec![req("a")], false).unwrap();
    let known = client.core.add_batch_of_requests(vec![req("a"), req("a")], false);
    assert!(!client.core.needs_number(&known));
    let new = client.core.add_batch_of_requests(vec![req("a"), req("b")], false);
    assert!(client.core.needs_number(&new));
    let keyless = Json::parse("{}").unwrap();
    let refused = client.core.add_batch_of_requests(vec![req("a"), keyless, req("b")], false);
    assert!(!client.core.needs_number(&refused));
}

#[test]
fn prolonging_adds_to_the_expiry() {
    let clock = TestClock::new();
    let mut client = Client::open_with_clock(&Directory::new(), &clock, false);
    client.add_batch_of_requests(vec![req("a")], false).unwrap();
    client.add_batch_of_requests(vec![req("f")], true).unwrap();
    let start = now_of(&client);
    client.fetch_next_request().unwrap();
    client.fetch_next_request().unwrap();
    clock.advance(60_000);
    let a = unique_key_to_request_id("a");
    let f = unique_key_to_request_id("f");
    assert!(client.prolong_request_lock(&a, minutes(1)).unwrap());
    assert!(client.prolong_request_lock(&f, Duration::milliseconds(1)).unwrap());
    assert_eq!(integer_of(&client.persisted("a"), "orderNo"), Some(start + 240_000));
    assert_eq!(integer_of(&client.persisted("f"), "orderNo"), Some(-(start + 180_001)));
    // The extended lock is the one that is held now.
    assert!(client.prolong_request_lock(&a, minutes(1)).unwrap());
}

#[test]
fn prolonging_needs_a_positive_time() {
    let mut client = Client::open(&Directory::new());
    let message = "lock extension must be greater than zero";
    assert_refused(client.prolong_request_lock("any", Duration::milliseconds(0)), message);
    assert_refused(client.prolong_request_lock("any", minutes(-1)), message);
    let below_a_millisecond = Duration::new(0, 999_999).unwrap();
    assert_refused(client.prolong_request_lock("any", below_a_millisecond), message);
}

#[test]
fn prolonging_stays_in_range() {
    let mut client = Client::open(&Directory::new());
    client.add_batch_of_requests(vec![req("a")], false).unwrap();
    client.fetch_next_request().unwrap();
    let id = unique_key_to_request_id("a");
    assert_refused(
        client.prolong_request_lock(&id, Duration::milliseconds(i64::MAX)),
        "lock extension exceeds the supported range",
    );
    // The lock is kept as it was.
    assert!(client.prolong_request_lock(&id, minutes(1)).unwrap());
}

#[test]
fn a_lock_that_is_not_held_is_not_prolonged() {
    let directory = Directory::new();
    let clock = TestClock::new();
    let mut client = Client::open_with_clock(&directory, &clock, false);
    client.add_batch_of_requests(vec![req("a"), req("b")], false).unwrap();
    let a = unique_key_to_request_id("a");
    assert!(!client.prolong_request_lock(&a, minutes(1)).unwrap());
    client.fetch_next_request().unwrap();
    client.fetch_next_request().unwrap();
    // Run out.
    clock.advance(180_000);
    assert!(!client.prolong_request_lock(&a, minutes(1)).unwrap());
    // Gone with its file.
    directory.files.borrow_mut().remove(&request_file_name("b"));
    assert!(!client.prolong_request_lock(&unique_key_to_request_id("b"), minutes(1)).unwrap());
    assert_eq!(text_of(&client.fetch_next_request().unwrap(), "uniqueKey"), "a");
    assert!(client.fetch_next_request().is_none());
}

#[test]
fn prolonging_needs_a_readable_file_of_the_same_request() {
    let directory = Directory::new();
    let mut client = Client::open(&directory);
    client.add_batch_of_requests(vec![req("a")], false).unwrap();
    client.fetch_next_request().unwrap();
    let id = unique_key_to_request_id("a");
    let name = request_file_name("a");
    let text = directory.read(&name).unwrap();
    directory.write(&name, "{");
    assert!(matches!(
        client.prolong_request_lock(&id, minutes(1)),
        Err(StorageError::Json(_))
    ));
    directory.write(&name, &text.replace(&id, "another"));
    assert!(!client.prolong_request_lock(&id, minutes(1)).unwrap());
    // The lock is forgotten, even though the file is put back.
    directory.write(&name, &text);
    assert!(!client.prolong_request_lock(&id, minutes(1)).unwrap());
}

#[test]
fn settling_gives_up_the_lock() {
    let mut client = Client::open(&Directory::new());
    client.add_batch_of_requests(vec![req("a")], false).unwrap();
    let id = unique_key_to_request_id("a");
    let request = client.fetch_next_request().unwrap();
    client.reclaim_request(request, false).unwrap();
    assert!(!client.prolong_request_lock(&id, minutes(1)).unwrap());
}

#[test]
fn files_without_an_order_number_are_pending() {
    let directory = Directory::new();
    directory.write("1.json", "{\"uniqueKey\": \"missing\"}");
    directory.write("2.json", "{\"uniqueKey\": \"null\", \"orderNo\": null}");
    directory.write("3.json", "{\"uniqueKey\": \"text\", \"orderNo\": \"7\"}");
    directory.write("4.json", "{\"uniqueKey\": \"stamped\", \"orderNo\": 7, \"handled_at\": \"then\"}");
    directory.write("5.json", "{\"noKey\": 1}");
    let client = Client::open(&directory);
    let meta = client.get_metadata();
    assert_eq!((meta.handled_request_count, meta.pending_request_count), (2, 2));
    assert_eq!(meta.total_request_count, 4);
}

#[test]
fn a_sole_owner_lifts_locks_on_the_side_they_are_on() {
    let directory = Directory::new();
    let clock = TestClock::new();
    let now = clock.now().timestamp_millis();
    let locked = format!("{{\"uniqueKey\": \"a\", \"orderNo\": {}}}", now + 1);
    let locked_front = format!("{{\"uniqueKey\": \"f\", \"orderNo\": {}}}", -now - 1);
    let free = "{\"uniqueKey\": \"b\", \"orderNo\": 5}";
    directory.write(&request_file_name("a"), &locked);
    directory.write(&request_file_name("f"), &locked_front);
    directory.write(&request_file_name("b"), free);
    let shared = Client::open_with_clock(&directory, &clock, false);
    assert_eq!(directory.read(&request_file_name("a")).unwrap(), locked);
    assert_eq!(shared.get_metadata().pending_request_count, 3);
    let mut sole = Client::open_with_clock(&directory, &clock, true);
    assert_eq!(integer_of(&sole.persisted("a"), "orderNo"), Some(now));
    assert_eq!(integer_of(&sole.persisted("f"), "orderNo"), Some(-now));
    assert_eq!(directory.read(&request_file_name("b")).unwrap(), free);
    let mut keys: Vec<String> = Vec::new();
    while let Some(request) = sole.fetch_next_request() {
        keys.push(text_of(&request, "uniqueKey").to_string());
    }
    assert_eq!(keys, vec!["f", "b", "a"]);
}

#[test]
fn reopening_restores_the_forefront() {
    let directory = Directory::new();
    let mut client = Client::open(&directory);
    client.add_batch_of_requests(vec![req("r")], false).unwrap();
    client.add_batch_of_requests(vec![req("f1"), req("f2"), req("f3")], true).unwrap();
    let f3 = client.fetch_next_request().unwrap();
    client.mark_request_as_handled(f3).unwrap();
    directory.files.borrow_mut().remove(&request_file_name("f2"));
    let mut reopened = Client::open(&directory);
    assert_eq!(reopened.get_metadata().forefront_request_ids, vec!["f1".to_string()]);
    assert_eq!(text_of(&reopened.fetch_next_request().unwrap(), "uniqueKey"), "f1");
    assert_eq!(text_of(&reopened.fetch_next_request().unwrap(), "uniqueKey"), "r");
}

#[test]
fn reopening_numbers_requests_by_file_name() {
    let directory = Directory::new();
    directory.write("b.json", "{\"uniqueKey\": \"second\", \"orderNo\": 5}");
    directory.write("a.json", "{\"uniqueKey\": \"first\", \"orderNo\": 5}");
    directory.write("c.json", "{\"uniqueKey\": \"third\", \"orderNo\": 5}");
    // The files that are read when a request is fetched are named by its key.
    directory.write(&request_file_name("first"), "{\"uniqueKey\": \"first\", \"orderNo\": 5}");
    let client = Client::open(&directory);
    let keys = client.core.ordered_candidate_keys(client.clock.now());
    let first = request_file_name("first");
    let mut expected = vec!["second".to_string(), "third".to_string()];
    let place = if first.as_str() < "b.json" {
        0
    } else if first.as_str() < "c.json" {
        1
    } else {
        2
    };
    expected.insert(place, "first".to_string());
    assert_eq!(keys, expected);
}

#[test]
fn purging_restarts_everything_but_the_lock_time() {
    let mut client = Client::open(&Directory::new());
    client.core.set_expected_request_processing_time(minutes(10));
    client.add_batch_of_requests(vec![req("a")], true).unwrap();
    client.fetch_next_request().unwrap();
    client.purge();
    let meta = client.get_metadata();
    assert!(meta.forefront_request_ids.is_empty());
    assert_eq!((meta.handled_request_count, meta.pending_request_count), (0, 0));
    assert!(!client.prolong_request_lock(&unique_key_to_request_id("a"), minutes(1)).unwrap());
    client.add_batch_of_requests(vec![req("a")], false).unwrap();
    client.fetch_next_request().unwrap();
    let until = now_of(&client) + 600_000;
    assert_eq!(integer_of(&client.persisted("a"), "orderNo"), Some(until));
}

#[test]
fn dropping_forgets_the_requests() {
    let mut client = Client::open(&Directory::new());
    client.add_batch_of_requests(vec![req("a")], false).unwrap();
    client.directory.files.borrow_mut().clear();
    client.core.drop_storage();
    assert!(client.is_empty());
    assert!(client.is_finished());
    assert_eq!(client.get_metadata().total_request_count, 1);
}
