//! The fields of a request document that the queue reads and writes.
use vstd::prelude::*;

use crate::json::{Json, JsonView};
use crate::models::StorageError;

verus! {

/// What a request without a unique key is refused with.
pub const MISSING_UNIQUE_KEY: &'static str = "Request must have a 'uniqueKey' field";

/// The unique key: a text under `uniqueKey` or, where that member is missing, `unique_key`.
pub open spec fn unique_key_of(request: JsonView) -> Option<Seq<char>> {
    let member = match request.member("uniqueKey"@) {
        Some(value) => Some(value),
        None => request.member("unique_key"@),
    };
    match member {
        Some(JsonView::Text(key)) => Some(key),
        _ => None,
    }
}

/// The request carries a handling time: `handledAt` or, where that member is missing,
/// `handled_at` is there and not null.
pub open spec fn carries_handled_at(request: JsonView) -> bool {
    let member = match request.member("handledAt"@) {
        Some(value) => Some(value),
        None => request.member("handled_at"@),
    };
    match member {
        Some(value) => !(value is Null),
        None => false,
    }
}

/// The order number on record, if `orderNo` is an integer that fits.
pub open spec fn order_no_of(request: JsonView) -> Option<i64> {
    match request.member("orderNo"@) {
        Some(JsonView::Integer(n)) => if i64::MIN <= n <= i64::MAX {
            Some(n as i64)
        } else {
            None
        },
        _ => None,
    }
}

/// The request id on record, if `id` is a text.
pub open spec fn recorded_id(request: JsonView) -> Option<Seq<char>> {
    match request.member("id"@) {
        Some(JsonView::Text(id)) => Some(id),
        _ => None,
    }
}

/// How an order number is written: a handled request has null.
pub open spec fn order_json(order_no: Option<i64>) -> JsonView {
    match order_no {
        Some(n) => JsonView::Integer(n as int),
        None => JsonView::Null,
    }
}

/// The request with this order number on record.
pub open spec fn with_order_no(request: JsonView, order_no: Option<i64>) -> JsonView {
    request.with_member("orderNo"@, order_json(order_no))
}

/// The request with this id on record, whatever id it had.
pub open spec fn with_id(request: JsonView, id: Seq<char>) -> JsonView {
    request.with_member("id"@, JsonView::Text(id))
}

/// The request as callers get to see it: without the queue's own `orderNo`.
pub open spec fn stripped(request: JsonView) -> JsonView {
    request.without_member("orderNo"@)
}

/// The unique key of a request, or the error that it has none.
pub fn extract_unique_key(request: &Json) -> (key: Result<String, StorageError>)
    ensures
        match key {
            Ok(k) => unique_key_of(request@) == Some(k@),
            Err(e) => unique_key_of(request@) is None && e.refuses_with(MISSING_UNIQUE_KEY@),
        },
{
    let member = match request.get("uniqueKey") {
        Some(value) => Some(value),
        None => request.get("unique_key"),
    };
    match member {
        Some(Json::Text(key)) => Ok(key.clone()),
        _ => Err(StorageError::InvalidArgs(MISSING_UNIQUE_KEY.to_owned())),
    }
}

/// Whether the request carries a handling time.
pub fn has_handled_at(request: &Json) -> (handled: bool)
    ensures
        handled == carries_handled_at(request@),
{
    let member = match request.get("handledAt") {
        Some(value) => Some(value),
        None => request.get("handled_at"),
    };
    match member {
        Some(Json::Null) => false,
        Some(_) => true,
        None => false,
    }
}

/// The order number on record.
pub fn read_order_no(request: &Json) -> (order_no: Option<i64>)
    ensures
        order_no == order_no_of(request@),
{
    match request.get("orderNo") {
        Some(Json::Integer(n)) => Some(*n),
        Some(Json::Large(n)) => {
            let _beyond: u64 = n.value();
            None
        },
        _ => None,
    }
}

/// The request with this order number on record.
pub fn set_order_no(request: Json, order_no: Option<i64>) -> (updated: Json)
    ensures
        updated@ == with_order_no(request@, order_no),
{
    let value = match order_no {
        Some(n) => Json::Integer(n),
        None => Json::Null,
    };
    request.set("orderNo", value)
}

/// The request with this id on record, whatever id it had.
pub fn set_id(request: Json, id: &String) -> (updated: Json)
    ensures
        updated@ == with_id(request@, id@),
{
    request.set("id", Json::Text(id.clone()))
}

/// The request as callers get to see it.
pub fn strip_queue_internals(request: Json) -> (visible: Json)
    ensures
        visible@ == stripped(request@),
        visible@.member("orderNo"@) is None,
        forall|key: Seq<char>| key != "orderNo"@ ==> #[trigger] visible@.member(key)
            == request@.member(key),
{
    request.unset("orderNo")
}

} // verus!
