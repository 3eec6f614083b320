//! The rules of the Python binding.
use vstd::prelude::*;
use vstd::string::StringExecFns;

use crate::clock::{Duration, TestClock, Timestamp};
use crate::models::StorageError;

verus! {

/// What advancing a clock that follows the system is refused with.
pub const NO_TEST_CLOCK: &'static str =
    "advance_clock_for_testing() requires the client to have been opened with use_test_clock=True. The default SystemClock cannot be advanced.";

/// The content type of a record that is stored without one.
pub const DEFAULT_CONTENT_TYPE: &'static str = "application/octet-stream";

/// The content type that marks a record without a value, whose file is empty.
pub const NONE_CONTENT_TYPE: &'static str = "application/x-none";

/// The Python exceptions that a failed storage operation is raised as.
#[derive(Clone, Copy, Debug, PartialEq, Eq)]
pub enum ExceptionKind {
    OsError,
    ValueError,
    FileNotFoundError,
}

/// The exception that an error is raised as.
pub open spec fn kind_of(error: StorageError) -> ExceptionKind {
    match error {
        StorageError::Io(_) => ExceptionKind::OsError,
        StorageError::NotFound(_) => ExceptionKind::FileNotFoundError,
        StorageError::Json(_) => ExceptionKind::ValueError,
        StorageError::InvalidArgs(_) => ExceptionKind::ValueError,
        StorageError::ExclusiveStartKeyNotFound(_) => ExceptionKind::ValueError,
    }
}

/// The exception that an error is raised as.
pub fn storage_err(error: &StorageError) -> (kind: ExceptionKind)
    ensures
        kind == kind_of(*error),
{
    match error {
        StorageError::Io(_) => ExceptionKind::OsError,
        StorageError::NotFound(_) => ExceptionKind::FileNotFoundError,
        _ => ExceptionKind::ValueError,
    }
}

/// How the text of an error about a start key begins.
pub open spec fn start_key_text(key: Seq<char>) -> Seq<char> {
    "exclusiveStartKey \""@ + key + "\" was not found"@
}

/// The message of the exception that an error is raised as, where the error has a text of its
/// own. That of an error of the file system or of a JSON document is what it prints. Of the text
/// about a start key, no more than how it begins is promised.
pub fn exception_message(error: &StorageError) -> (message: Option<String>)
    ensures
        match (*error, message) {
            (StorageError::InvalidArgs(text), Some(m)) => m@ == text@,
            (StorageError::NotFound(text), Some(m)) => m@ == text@,
            (StorageError::ExclusiveStartKeyNotFound(key), Some(m)) => start_key_text(
                key@,
            ).is_prefix_of(m@),
            (StorageError::Io(_), None) => true,
            (StorageError::Json(_), None) => true,
            _ => false,
        },
{
    match error {
        StorageError::InvalidArgs(text) => Some(text.clone()),
        StorageError::NotFound(text) => Some(text.clone()),
        StorageError::ExclusiveStartKeyNotFound(key) => Some(
            "exclusiveStartKey \"".to_owned().concat(key.as_str()).concat("\" was not found"),
        ),
        _ => None,
    }
}

/// Whether a way to access a queue claims sole ownership, or what it is refused with.
pub fn claims_sole_ownership(request_queue_access: &str) -> (claim: Result<bool, String>)
    ensures
        match claim {
            Ok(true) => request_queue_access@ == "single"@,
            Ok(false) => request_queue_access@ == "shared"@,
            Err(message) => {
                &&& request_queue_access@ != "single"@
                &&& request_queue_access@ != "shared"@
                &&& message@ == "request_queue_access must be 'single' or 'shared', got '"@
                    + request_queue_access@ + "'"@
            },
        },
{
    let access = request_queue_access.to_owned();
    if access == "single".to_owned() {
        Ok(true)
    } else if access == "shared".to_owned() {
        Ok(false)
    } else {
        let message = "request_queue_access must be 'single' or 'shared', got '".to_owned();
        Err(message.concat(request_queue_access).concat("'"))
    }
}

/// The clock that a client reads.
pub enum ClientClock {
    /// The clock of the machine.
    System,
    /// A clock that is advanced by hand.
    Test(TestClock),
}

/// The clock of a client that is opened now.
pub fn pick_clock(use_test_clock: bool, now: Timestamp) -> (clock: ClientClock)
    ensures
        match clock {
            ClientClock::Test(test) => use_test_clock && test.spec_now() == now,
            ClientClock::System => !use_test_clock,
        },
{
    if use_test_clock {
        ClientClock::Test(TestClock::new(now))
    } else {
        ClientClock::System
    }
}

/// Advance the clock that a client reads. The clock of the machine cannot be advanced.
pub fn advance_test_clock(clock: &mut ClientClock, delta: Duration) -> (advanced: Result<
    (),
    String,
>)
    requires
        *old(clock) matches ClientClock::Test(test) ==> test.reaches(delta),
    ensures
        match *old(clock) {
            ClientClock::Test(before) => {
                &&& advanced is Ok
                &&& *final(clock) matches ClientClock::Test(after)
                &&& after.spec_now().spec_epoch_nanos() == before.spec_now().spec_epoch_nanos()
                    + delta.spec_nanos()
            },
            ClientClock::System => {
                &&& advanced matches Err(message)
                &&& message@ == NO_TEST_CLOCK@
                &&& *final(clock) == *old(clock)
            },
        },
{
    match clock {
        ClientClock::Test(test) => {
            test.advance(delta);
            Ok(())
        },
        ClientClock::System => Err(NO_TEST_CLOCK.to_owned()),
    }
}

/// The content type that a record is stored with.
pub fn record_content_type(content_type: Option<String>) -> (stored: String)
    ensures
        stored@ == match content_type {
            Some(given) => given@,
            None => DEFAULT_CONTENT_TYPE@,
        },
{
    match content_type {
        Some(given) => given,
        None => DEFAULT_CONTENT_TYPE.to_owned(),
    }
}

} // verus!
