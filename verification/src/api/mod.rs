//! The data the JSON API serves, and the logic that shapes it.
pub mod attachment;
pub mod message;
pub mod search;
pub mod senders;
pub mod stats;
pub mod tags;
pub mod thread;
