//! The failures that the store reports.

use vstd::prelude::*;

verus! {

/// Why an operation of the store failed.
#[derive(Debug, Clone, Copy, PartialEq, Eq, Structural)]
pub enum StoreError {
    /// A record declares more bytes than the log holds after its start.
    Truncated,
    /// A record's stored checksum differs from the checksum of its payload.
    Corruption,
    /// The key is not in the index.
    NotFound,
    /// The cached index could not be read back from its record.
    CacheDeserialize,
    /// The index could not be written as a cache record.
    CacheSerialize,
}

impl StoreError {
    /// A short description of the failure.
    pub fn message(&self) -> (text: &'static str)
        ensures
            text@ == match *self {
                StoreError::Truncated => "record is truncated"@,
                StoreError::Corruption => "data corruption encountered"@,
                StoreError::NotFound => "key does not exist in index"@,
                StoreError::CacheDeserialize => "cached index is unreadable"@,
                StoreError::CacheSerialize => "index cannot be cached"@,
            },
    {
        match self {
            StoreError::Truncated => "record is truncated",
            StoreError::Corruption => "data corruption encountered",
            StoreError::NotFound => "key does not exist in index",
            StoreError::CacheDeserialize => "cached index is unreadable",
            StoreError::CacheSerialize => "index cannot be cached",
        }
    }
}

} // verus!
