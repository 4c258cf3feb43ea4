//! The operations of the tracker.
pub mod todo;
