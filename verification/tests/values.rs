use crawlee_storage::binding::{
    advance_test_clock, claims_sole_ownership, exception_message, pick_clock,
    record_content_type, storage_err, ClientClock, ExceptionKind, NO_TEST_CLOCK,
};
use crawlee_storage::clock::{Duration, TestClock, Timestamp, MAX_SECONDS, MIN_SECONDS};
use crawlee_storage::files::{get_request_files, is_request_file, sort_names};
use crawlee_storage::ids::{request_file_name, sha256_prefix, unique_key_to_request_id};
use crawlee_storage::json::{json_dumps, Json};
use crawlee_storage::models::{RequestQueueMetadata, StorageError};
use crawlee_storage::open::{metadata_has_id, open_target, queue_not_found, OpenTarget};
use crawlee_storage::order::{calculate_order_no, is_locked_order, keep_side};
use crawlee_storage::request::{has_handled_at, read_order_no, strip_queue_internals};
use crawlee_storage::sort::merge_sort;

fn strings(list: &[&str]) -> Vec<String> {
    list.iter().map(|s| s.to_string()).collect()
}

#[test]
fn a_future_order_number_is_a_lock() {
    assert!(is_locked_order(11, 10));
    assert!(!is_locked_order(10, 10));
    assert!(!is_locked_order(-10, 10));
    assert!(is_locked_order(-11, 10));
    assert!(is_locked_order(i64::MIN, i64::MAX));
    assert!(!is_locked_order(i64::MAX, i64::MAX));
    assert!(is_locked_order(0, -1));
}

#[test]
fn order_numbers_are_signed_times() {
    let now = Timestamp::new(1_700_000_000, 999_999_999).unwrap();
    assert_eq!(calculate_order_no(now, false), 1_700_000_000_999);
    assert_eq!(calculate_order_no(now, true), -1_700_000_000_999);
    assert_eq!(keep_side(5, 7), 7);
    assert_eq!(keep_side(-5, 7), -7);
    assert_eq!(keep_side(0, 7), -7);
}

#[test]
fn moments_round_down_to_milliseconds() {
    let before = Timestamp::new(-1, 999_999_999).unwrap();
    assert_eq!(before.timestamp_millis(), -1);
    assert_eq!(before.seconds(), -1);
    assert_eq!(before.subsec_nanos(), 999_999_999);
    assert_eq!(Timestamp::new(0, 1_999_999).unwrap().timestamp_millis(), 1);
}

#[test]
fn moments_have_a_range() {
    assert!(Timestamp::new(MIN_SECONDS, 0).is_some());
    assert!(Timestamp::new(MIN_SECONDS - 1, 0).is_none());
    assert!(Timestamp::new(MAX_SECONDS, 999_999_999).is_some());
    assert!(Timestamp::new(MAX_SECONDS + 1, 0).is_none());
    assert!(Timestamp::new(59, 1_999_999_999).is_some());
    assert!(Timestamp::new(60, 1_000_000_000).is_none());
    assert!(Timestamp::new(59, 2_000_000_000).is_none());
}

#[test]
fn the_range_of_moments_is_that_of_chrono() {
    let within: [(i64, u32); 5] = [
        (MIN_SECONDS, 0),
        (MAX_SECONDS, 999_999_999),
        (59, 1_999_999_999),
        (-1, 1_500_000_000),
        (0, 0),
    ];
    for (seconds, nanos) in within {
        assert!(chrono::DateTime::from_timestamp(seconds, nanos).is_some());
        assert!(Timestamp::new(seconds, nanos).is_some());
        assert!(!Timestamp::new(seconds, nanos).unwrap().handled_at_text().is_empty());
    }
    let outside: [(i64, u32); 4] = [
        (MIN_SECONDS - 1, 999_999_999),
        (MAX_SECONDS + 1, 0),
        (60, 1_000_000_000),
        (59, 2_000_000_000),
    ];
    for (seconds, nanos) in outside {
        assert!(chrono::DateTime::from_timestamp(seconds, nanos).is_none());
        assert!(Timestamp::new(seconds, nanos).is_none());
    }
}

#[test]
fn milliseconds_are_those_of_chrono() {
    for (seconds, nanos) in [(1_705_314_600i64, 123_456_789u32), (-7, 1), (59, 1_999_999_999)] {
        let theirs = chrono::DateTime::from_timestamp(seconds, nanos).unwrap();
        let ours = Timestamp::new(seconds, nanos).unwrap();
        assert_eq!(ours.timestamp_millis(), theirs.timestamp_millis());
    }
}

#[test]
fn moments_print_with_microseconds() {
    let moment = Timestamp::new(1_705_314_600, 123_456_789).unwrap();
    assert_eq!(moment.handled_at_text(), "2024-01-15T10:30:00.123456+00:00");
    assert_eq!(Timestamp::new(0, 0).unwrap().handled_at_text(), "1970-01-01T00:00:00.000000+00:00");
}

#[test]
fn spans_truncate_to_milliseconds() {
    assert_eq!(Duration::new(1, 999_999_999).unwrap().num_milliseconds(), 1999);
    assert_eq!(Duration::new(-1, -999_999_999).unwrap().num_milliseconds(), -1999);
    assert_eq!(Duration::new(0, -1).unwrap().num_milliseconds(), 0);
    assert_eq!(Duration::milliseconds(-1001).num_milliseconds(), -1001);
    assert_eq!(Duration::milliseconds(i64::MAX).num_milliseconds(), i64::MAX);
    assert_eq!(Duration::milliseconds(-i64::MAX).num_milliseconds(), -i64::MAX);
}

#[test]
fn spans_have_parts_of_one_sign() {
    assert!(Duration::new(1, -1).is_none());
    assert!(Duration::new(-1, 1).is_none());
    assert!(Duration::new(0, 1_000_000_000).is_none());
    assert!(Duration::new(i64::MAX, 0).is_none());
    assert!(Duration::new(i64::MIN, 0).is_none());
}

#[test]
fn spans_agree_with_chrono() {
    for (seconds, nanos) in [(0i64, 999_999u32), (-1, 1), (-2, 999_999_999), (3, 5_000_000)] {
        let theirs = chrono::TimeDelta::new(seconds, nanos).unwrap();
        let ours = Duration::new(theirs.num_seconds(), theirs.subsec_nanos()).unwrap();
        assert_eq!(ours.num_milliseconds(), theirs.num_milliseconds());
    }
}

#[test]
fn names_come_from_the_digest() {
    assert_eq!(request_file_name("abc"), "ba7816bf8f01cfe.json");
    assert_eq!(unique_key_to_request_id("abc"), "ungWv48BzpBQUDe");
    assert_eq!(request_file_name("https://example.com"), "100680ad546ce6a.json");
    assert_eq!(sha256_prefix("abc", 4), "ba78");
    assert_eq!(sha256_prefix("", 100).len(), 64);
    assert_eq!(
        sha256_prefix("", 64),
        "e3b0c44298fc1c149afbf4c8996fb92427ae41e4649b934ca495991b7852b855"
    );
}

#[test]
fn request_ids_have_no_symbols() {
    for i in 0..200 {
        let id = unique_key_to_request_id(&format!("key-{i}"));
        assert_eq!(id.len(), 15);
        assert!(id.chars().all(|c| c.is_ascii_alphanumeric()));
    }
}

#[test]
fn request_files_are_listed() {
    for i in 0..50 {
        assert!(is_request_file(&request_file_name(&format!("key-{i}"))));
    }
    let names = strings(&["__metadata__.json", "b.json", ".json", "a.txt", "json", "a.json", "x.JSON"]);
    assert_eq!(get_request_files(&names), strings(&["b.json", ".json", "a.json"]));
}

#[test]
fn names_sort_like_their_bytes() {
    let names = strings(&["b.json", "a.json", "", "\u{10000}.json", "\u{ffff}.json", "ab.json", "a"]);
    let mut expected = names.clone();
    expected.sort();
    assert_eq!(sort_names(names), expected);
}

#[test]
fn sorting_keeps_duplicates() {
    let sorted = merge_sort(strings(&["b", "a", "b", "a", "c"]));
    assert_eq!(sorted, strings(&["a", "a", "b", "b", "c"]));
}

#[test]
fn documents_survive_a_round_trip() {
    let text = "{\"a\":[],\"b\":{},\"c\":[true,false,null],\"d\":-9223372036854775808,\"e\":18446744073709551615,\"f\":\"\\\"\\n\u{1f600}\"}";
    let document = Json::parse(text).unwrap();
    let again = Json::parse(&json_dumps(&document)).unwrap();
    assert_eq!(document.to_value(), again.to_value());
    let value: serde_json::Value = serde_json::from_str(text).unwrap();
    assert_eq!(document.to_value(), value);
    assert_eq!(Json::from_value(value.clone()).to_value(), value);
}

#[test]
fn documents_print_indented() {
    let document = Json::parse("{\"b\": [1], \"a\": 2.5}").unwrap();
    assert_eq!(json_dumps(&document), "{\n  \"a\": 2.5,\n  \"b\": [\n    1\n  ]\n}");
    assert_eq!(json_dumps(&Json::Null), "null");
}

#[test]
fn deep_documents_are_exact_up_to_the_limit() {
    let deep = format!("{}{}", "[".repeat(127), "]".repeat(127));
    let document = Json::parse(&deep).unwrap();
    let again = Json::parse(&json_dumps(&document)).unwrap();
    assert_eq!(again.to_value(), document.to_value());
    let deeper = format!("{}{}", "[".repeat(128), "]".repeat(128));
    assert!(Json::parse(&deeper).is_err());
}

#[test]
fn members_are_set_and_unset() {
    let document = Json::parse("{\"a\": 1}").unwrap().set("b", Json::Integer(2));
    assert!(matches!(document.get("b"), Some(Json::Integer(2))));
    let document = document.set("a", Json::Null).unset("b");
    assert!(matches!(document.get("a"), Some(Json::Null)));
    assert!(document.get("b").is_none());
    assert!(matches!(Json::Integer(3).set("a", Json::Null), Json::Integer(3)));
    assert!(Json::parse("not json").is_err());
}

#[test]
fn queue_fields_are_read() {
    let document = Json::parse("{\"orderNo\": -5, \"handledAt\": null, \"handled_at\": 1}").unwrap();
    assert_eq!(read_order_no(&document), Some(-5));
    // A null that is there counts, even if the other spelling is set.
    assert!(!has_handled_at(&document));
    let document = Json::parse("{\"orderNo\": 9223372036854775808, \"handled_at\": 1}").unwrap();
    assert_eq!(read_order_no(&document), None);
    assert!(has_handled_at(&document));
    assert_eq!(read_order_no(&Json::parse("{\"orderNo\": 1.5}").unwrap()), None);
    assert!(strip_queue_internals(document).get("orderNo").is_none());
}

#[test]
fn a_queue_is_named_in_one_way() {
    let id = || Some("i".to_string());
    let name = || Some("n".to_string());
    let alias = || Some("a".to_string());
    for target in [
        open_target(id(), name(), None),
        open_target(id(), None, alias()),
        open_target(None, name(), alias()),
        open_target(id(), name(), alias()),
    ] {
        match target {
            Err(StorageError::InvalidArgs(message)) => {
                assert_eq!(message, "At most one of id, name, or alias may be provided")
            }
            _ => panic!("should have been refused"),
        }
    }
    assert_eq!(open_target(id(), None, None).unwrap(), OpenTarget::ById("i".to_string()));
    assert_eq!(
        open_target(None, name(), None).unwrap(),
        OpenTarget::Child { directory: "n".to_string(), name: name() }
    );
    assert_eq!(
        open_target(None, None, alias()).unwrap(),
        OpenTarget::Child { directory: "a".to_string(), name: None }
    );
    assert_eq!(
        open_target(None, None, None).unwrap(),
        OpenTarget::Child { directory: "default".to_string(), name: None }
    );
}

#[test]
fn a_name_denotes_a_direct_child() {
    for bad in ["", ".", "..", "a/b", "/", "../x", "a\\b"] {
        assert!(matches!(
            open_target(None, Some(bad.to_string()), None),
            Err(StorageError::InvalidArgs(_))
        ));
        assert!(matches!(
            open_target(None, None, Some(bad.to_string())),
            Err(StorageError::InvalidArgs(_))
        ));
    }
    assert!(open_target(None, Some("...".to_string()), None).is_ok());
}

#[test]
fn a_missing_queue_is_named_in_the_error() {
    match queue_not_found("xyz") {
        StorageError::NotFound(message) => {
            assert_eq!(message, "Request queue with id 'xyz' not found")
        }
        _ => panic!("should be NotFound"),
    }
}

#[test]
fn new_metadata_counts_nothing() {
    let now = Timestamp::new(1, 0).unwrap();
    let metadata = RequestQueueMetadata::new("id".to_string(), Some("name".to_string()), now);
    assert_eq!(metadata.base.id, "id");
    assert_eq!(metadata.base.name, Some("name".to_string()));
    assert_eq!(metadata.base.created_at, now);
    assert_eq!(metadata.total_request_count, 0);
    assert_eq!(metadata.clone(), metadata);
}

#[test]
fn errors_are_raised_as_exceptions() {
    let io = StorageError::Io(std::io::Error::new(std::io::ErrorKind::Other, "disk"));
    assert_eq!(storage_err(&io), ExceptionKind::OsError);
    let json = StorageError::Json(Json::parse("{").unwrap_err());
    assert_eq!(storage_err(&json), ExceptionKind::ValueError);
    let args = StorageError::InvalidArgs("no".to_string());
    assert_eq!(storage_err(&args), ExceptionKind::ValueError);
    let missing = StorageError::NotFound("no".to_string());
    assert_eq!(storage_err(&missing), ExceptionKind::FileNotFoundError);
    let key = StorageError::ExclusiveStartKeyNotFound("k".to_string());
    assert_eq!(storage_err(&key), ExceptionKind::ValueError);
}

#[test]
fn access_is_single_or_shared() {
    assert_eq!(claims_sole_ownership("single"), Ok(true));
    assert_eq!(claims_sole_ownership("shared"), Ok(false));
    assert_eq!(
        claims_sole_ownership("both"),
        Err("request_queue_access must be 'single' or 'shared', got 'both'".to_string())
    );
}

#[test]
fn only_a_test_clock_can_be_advanced() {
    let start = Timestamp::new(100, 900_000_000).unwrap();
    let mut test = pick_clock(true, start);
    assert_eq!(advance_test_clock(&mut test, Duration::milliseconds(250)), Ok(()));
    match test {
        ClientClock::Test(clock) => {
            assert_eq!(clock.now(), Timestamp::new(101, 150_000_000).unwrap())
        }
        ClientClock::System => panic!("should be a test clock"),
    }
    let mut system = pick_clock(false, start);
    let refused = advance_test_clock(&mut system, Duration::milliseconds(250));
    assert_eq!(refused, Err(NO_TEST_CLOCK.to_string()));
    assert!(matches!(system, ClientClock::System));
}

#[test]
fn a_test_clock_moves_by_exactly_the_span() {
    let mut clock = TestClock::new(Timestamp::new(0, 1).unwrap());
    clock.advance(Duration::new(-3, -2).unwrap());
    assert_eq!(clock.now(), Timestamp::new(-4, 999_999_999).unwrap());
    clock.advance(Duration::new(3, 2).unwrap());
    assert_eq!(clock.now(), Timestamp::new(0, 1).unwrap());
    assert!(!clock.can_advance(Duration::milliseconds(i64::MAX)));
    assert!(clock.can_advance(Duration::new(MAX_SECONDS, 0).unwrap()));
    let last = TestClock::new(Timestamp::new(MAX_SECONDS, 999_999_999).unwrap());
    assert!(!last.can_advance(Duration::new(0, 1).unwrap()));
    assert!(last.can_advance(Duration::milliseconds(0)));
}

#[test]
fn exceptions_carry_the_text_of_the_error() {
    let args = StorageError::InvalidArgs("bad".to_string());
    assert_eq!(exception_message(&args), Some("bad".to_string()));
    let missing = StorageError::NotFound("gone".to_string());
    assert_eq!(exception_message(&missing), Some("gone".to_string()));
    let key = StorageError::ExclusiveStartKeyNotFound("k".to_string());
    let message = exception_message(&key).unwrap();
    assert!(message.starts_with("exclusiveStartKey \"k\" was not found"));
    let json = StorageError::Json(Json::parse("{").unwrap_err());
    assert_eq!(exception_message(&json), None);
}

#[test]
fn metadata_is_recognised_by_its_id() {
    assert!(metadata_has_id("{\"id\": \"x\", \"name\": null}", "x"));
    assert!(!metadata_has_id("{\"id\": \"y\"}", "x"));
    assert!(!metadata_has_id("{\"id\": 1}", "1"));
    assert!(!metadata_has_id("{", "x"));
}

#[test]
fn records_have_a_content_type() {
    assert_eq!(record_content_type(None), "application/octet-stream");
    assert_eq!(record_content_type(Some("text/plain".to_string())), "text/plain");
}
