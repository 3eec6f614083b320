//! A request queue that lives in a directory of request files.
//!
//! Each request is a JSON file. Its order number, a signed timestamp, says where the request
//! stands in the queue, whether it is locked by a consumer and whether it has been handled, so
//! that consumers which share a directory coordinate through the files alone.
//!
//! This crate decides; it does no I/O. [`state`] holds the queue and its model, and each
//! operation has a module of its own: [`open`], [`add`], [`fetch`], [`settle`], [`prolong`],
//! [`finish`] and [`queue`]. An operation that needs a file in the middle stops there and is resumed with what
//! was read, or once the file is written. [`laws`] states what holds across operations.
pub mod add;
pub mod binding;
pub mod candidates;
pub mod clock;
pub mod fetch;
pub mod files;
pub mod finish;
pub mod ids;
pub mod json;
pub mod laws;
pub mod models;
pub mod open;
pub mod order;
pub mod prolong;
pub mod queue;
pub mod request;
pub mod settle;
pub mod sort;
pub mod state;
pub mod string_map;
