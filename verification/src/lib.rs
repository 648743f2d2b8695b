//! An embedded, append-only, log-structured key-value store.
//!
//! A log holds a sequence of checksummed key/value records. An index maps
//! each key to the offset at which its most recent record starts, and is
//! rebuilt by replaying the log.

pub mod cache;
pub mod checksum;
pub mod command;
pub mod error;
pub mod ethernet;
pub mod index;
pub mod log;
pub mod model;
pub mod record;
pub mod store;

pub use record::KeyValuePair;
pub use store::ActionKV;
