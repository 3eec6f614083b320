//! Order numbers.
//!
//! The order number of an unhandled request is a signed timestamp in unix milliseconds.
//! A positive one belongs to a regular request, a negative one to a forefront request.
//! While its magnitude lies in the future the request is locked.
use vstd::prelude::*;

use crate::clock::Timestamp;

verus! {

/// A request is locked at `now` while the magnitude of its order number lies in the future.
pub open spec fn locked_at(order_no: int, now: int) -> bool {
    order_no > now || order_no < -now
}

/// The order number of a request added or returned at `now`.
pub open spec fn order_number(now: int, forefront: bool) -> int {
    if forefront {
        -now
    } else {
        now
    }
}

/// `magnitude` on the side of zero that `order_no` is on. Zero counts as forefront.
pub open spec fn on_side_of(order_no: int, magnitude: int) -> int {
    if order_no > 0 {
        magnitude
    } else {
        -magnitude
    }
}

/// Whether the order number is a lock that is still live at `now`, in unix milliseconds.
pub fn is_locked_order(order_no: i64, now: i64) -> (locked: bool)
    ensures
        locked == locked_at(order_no as int, now as int),
{
    order_no > now || (order_no as i128) < -(now as i128)
}

/// The order number of a request added or returned at `now`.
pub fn calculate_order_no(now: Timestamp, forefront: bool) -> (order_no: i64)
    ensures
        order_no == order_number(now.spec_millis(), forefront),
{
    let millis = now.timestamp_millis();
    if forefront {
        -millis
    } else {
        millis
    }
}

/// `magnitude` with the sign that keeps a regular request regular and a forefront one forefront.
pub fn keep_side(order_no: i64, magnitude: i64) -> (signed: i64)
    requires
        magnitude > i64::MIN,
    ensures
        signed == on_side_of(order_no as int, magnitude as int),
{
    if order_no > 0 {
        magnitude
    } else {
        -magnitude
    }
}

/// A request added or returned at `now` is not locked then, nor later.
///
/// Before the epoch the magnitude of `now` lies in the future, so the law starts there.
pub proof fn law_new_order_number_is_not_locked(now: int, forefront: bool, later: int)
    requires
        0 <= now <= later,
    ensures
        !locked_at(order_number(now, forefront), later),
{
}

/// A lock that runs until `until` is live before that moment and at no moment from then on.
pub proof fn law_lock_lasts_until_its_expiry(order_no: int, until: int, at: int)
    requires
        0 <= until,
    ensures
        locked_at(on_side_of(order_no, until), at) <==> at < until,
{
}

/// Locking a request keeps it regular or forefront, whichever it was.
pub proof fn law_lock_keeps_the_side(order_no: int, until: int)
    requires
        0 < until,
    ensures
        on_side_of(order_no, until) > 0 <==> order_no > 0,
{
}

} // verus!
