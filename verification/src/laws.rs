//! What holds of the queue as a whole, across its operations.
pub mod adding;
pub mod counting;
pub mod documents;
pub mod fetching;
pub mod finishing;
pub mod forefront;
pub mod history;
pub mod locking;
pub mod members;
pub mod mirroring;
pub mod reopening;
pub mod settling;
pub mod sharing;
pub mod steps;
pub mod values;
