//! The operations that a front end asks of the store, and what it is told
//! in return.

use vstd::prelude::*;
use crate::cache::{cached_index, flushed, read_index_from_disk, write_index_to_disk};
use crate::error::StoreError;
use crate::model::{delete_outcome, deleted, inserted, lookup, StoreState};
use crate::store::ActionKV;

verus! {

/// One operation on the store.
#[derive(Debug, Clone, PartialEq, Eq)]
pub enum Subcommands {
    /// Retrieves the value at key from the store.
    Get { key: Vec<u8> },
    /// Adds a key-value pair to the store.
    Insert { key: Vec<u8>, value: Vec<u8> },
    /// Removes a key-value pair from the store.
    Delete { key: Vec<u8> },
    /// Replaces an old value with a new one.
    Update { key: Vec<u8>, value: Vec<u8> },
    /// Retrieves the value at key from the store, to be shown as text.
    Show { key: Vec<u8> },
}

/// What the store answers to one operation.
#[derive(Debug, Clone, PartialEq, Eq)]
pub enum Reply {
    /// The key has this value.
    Value(Vec<u8>),
    /// The key is not in the index.
    Absent,
    /// The pair was inserted.
    Inserted,
    /// The key was deleted.
    Deleted,
    /// The value was replaced.
    Updated,
    /// The operation failed.
    Failed(StoreError),
}

/// An answer, its value as the bytes that it holds.
pub enum Answer {
    Value(Seq<u8>),
    Absent,
    Inserted,
    Deleted,
    Updated,
    Failed(StoreError),
}

impl View for Reply {
    type V = Answer;

    open spec fn view(&self) -> Answer {
        match *self {
            Reply::Value(value) => Answer::Value(value@),
            Reply::Absent => Answer::Absent,
            Reply::Inserted => Answer::Inserted,
            Reply::Deleted => Answer::Deleted,
            Reply::Updated => Answer::Updated,
            Reply::Failed(error) => Answer::Failed(error),
        }
    }
}

/// What came of one operation: the failure to read the index cache before
/// it, if the cache was asked for and did not read; the answer; and what
/// came of writing the index cache after it, if that was due.
#[derive(Debug, Clone, PartialEq, Eq)]
pub struct Report {
    pub cache_read: Option<StoreError>,
    pub reply: Reply,
    pub cache_write: Option<Result<(), StoreError>>,
}

impl Subcommands {
    /// Whether the key and the value are short enough for a record: each
    /// length fits in 32 bits.
    pub open spec fn fits(&self) -> bool {
        match *self {
            Subcommands::Get { key } => key@.len() <= u32::MAX,
            Subcommands::Insert { key, value } => key@.len() <= u32::MAX && value@.len()
                <= u32::MAX,
            Subcommands::Delete { key } => key@.len() <= u32::MAX,
            Subcommands::Update { key, value } => key@.len() <= u32::MAX && value@.len()
                <= u32::MAX,
            Subcommands::Show { key } => key@.len() <= u32::MAX,
        }
    }

    /// Whether the operation writes to the store: every one but `Get` and
    /// `Show`.
    pub open spec fn writes(&self) -> bool {
        !(*self is Get || *self is Show)
    }

    /// The store after the operation alone.
    pub open spec fn applied(&self, s: StoreState) -> StoreState {
        match *self {
            Subcommands::Get { key } => s,
            Subcommands::Insert { key, value } => inserted(s, key@, value@),
            Subcommands::Delete { key } => deleted(s, key@),
            Subcommands::Update { key, value } => inserted(s, key@, value@),
            Subcommands::Show { key } => s,
        }
    }

    /// The answer to the operation alone.
    pub open spec fn answer(&self, s: StoreState) -> Answer {
        match *self {
            Subcommands::Get { key } => found_answer(lookup(s, key@)),
            Subcommands::Insert { key, value } => Answer::Inserted,
            Subcommands::Delete { key } => match delete_outcome(s, key@) {
                Ok(_) => Answer::Deleted,
                Err(error) => Answer::Failed(error),
            },
            Subcommands::Update { key, value } => Answer::Updated,
            Subcommands::Show { key } => found_answer(lookup(s, key@)),
        }
    }

    /// Whether the operation fits in a record.
    pub fn is_fit(&self) -> (fit: bool)
        ensures
            fit == self.fits(),
    {
        let limit = u32::MAX as u64;
        match self {
            Subcommands::Get { key } => key.len() as u64 <= limit,
            Subcommands::Insert { key, value } => key.len() as u64 <= limit && value.len() as u64
                <= limit,
            Subcommands::Delete { key } => key.len() as u64 <= limit,
            Subcommands::Update { key, value } => key.len() as u64 <= limit && value.len() as u64
                <= limit,
            Subcommands::Show { key } => key.len() as u64 <= limit,
        }
    }

    /// Whether the operation writes to the store.
    pub fn is_write(&self) -> (write: bool)
        ensures
            write == self.writes(),
    {
        match self {
            Subcommands::Get { .. } => false,
            Subcommands::Show { .. } => false,
            _ => true,
        }
    }

    /// Carries the operation out on the store alone, with no index cache.
    pub fn apply(&self, store: &mut ActionKV) -> (reply: Reply)
        requires
            self.fits(),
        ensures
            final(store)@ == self.applied(old(store)@),
            reply@ == self.answer(old(store)@),
    {
        match self {
            Subcommands::Get { key } => answer_of(store.get(key.as_slice())),
            Subcommands::Show { key } => answer_of(store.get(key.as_slice())),
            Subcommands::Insert { key, value } => {
                match store.insert(key.as_slice(), value.as_slice()) {
                    Ok(_) => Reply::Inserted,
                    Err(error) => Reply::Failed(error),
                }
            },
            Subcommands::Delete { key } => {
                match store.delete(key.as_slice()) {
                    Ok(_) => Reply::Deleted,
                    Err(error) => Reply::Failed(error),
                }
            },
            Subcommands::Update { key, value } => {
                match store.update(key.as_slice(), value.as_slice()) {
                    Ok(_) => Reply::Updated,
                    Err(error) => Reply::Failed(error),
                }
            },
        }
    }

    /// Carries the operation out. With `disk_index`, the index is first
    /// taken from the cache record, where that reads, and an operation that
    /// writes is followed by writing the index to the cache record.
    pub fn execute(&self, store: &mut ActionKV, disk_index: bool) -> (report: Report)
        requires
            self.fits(),
        ensures
            report.cache_read == cache_read_failure(old(store)@, disk_index),
            report.reply@ == self.answer(after_cache_read(old(store)@, disk_index)),
            report.cache_write is Some <==> disk_index && self.writes(),
            written(
                self.applied(after_cache_read(old(store)@, disk_index)),
                report.cache_write,
                final(store)@,
            ),
    {
        let mut cache_read: Option<StoreError> = None;
        if disk_index {
            match read_index_from_disk(store) {
                Ok(_) => {},
                Err(error) => {
                    cache_read = Some(error);
                },
            }
        }
        let reply = self.apply(store);
        let mut cache_write: Option<Result<(), StoreError>> = None;
        if disk_index && self.is_write() {
            cache_write = Some(write_index_to_disk(store));
        }
        Report { cache_read, reply, cache_write }
    }
}

/// The answer that stands for what `get` returned.
pub open spec fn found_answer(outcome: Result<Option<Seq<u8>>, StoreError>) -> Answer {
    match outcome {
        Ok(Some(value)) => Answer::Value(value),
        Ok(None) => Answer::Absent,
        Err(error) => Answer::Failed(error),
    }
}

/// The store after the index was taken from the cache record, where that
/// was asked for and the record reads; else the store as it was.
pub open spec fn after_cache_read(s: StoreState, disk_index: bool) -> StoreState {
    if disk_index {
        match cached_index(s) {
            Ok(index) => StoreState { log: s.log, index },
            Err(_) => s,
        }
    } else {
        s
    }
}

/// Why the cache record did not read, where it was asked for and did not.
pub open spec fn cache_read_failure(s: StoreState, disk_index: bool) -> Option<StoreError> {
    if disk_index {
        match cached_index(s) {
            Ok(_) => None,
            Err(error) => Some(error),
        }
    } else {
        None
    }
}

/// How the store `after` follows from the store `before` by what came of
/// writing the index cache: where a write was due, the store is as the
/// write left it; where none was, nothing changed.
pub open spec fn written(
    before: StoreState,
    outcome: Option<Result<(), StoreError>>,
    after: StoreState,
) -> bool {
    match outcome {
        Some(result) => flushed(before, result, after),
        None => after == before,
    }
}

/// The reply that stands for what `get` returned.
pub fn answer_of(outcome: Result<Option<Vec<u8>>, StoreError>) -> (reply: Reply)
    ensures
        reply@ == found_answer(crate::store::found(outcome)),
{
    match outcome {
        Ok(Some(value)) => Reply::Value(value),
        Ok(None) => Reply::Absent,
        Err(error) => Reply::Failed(error),
    }
}

} // verus!
