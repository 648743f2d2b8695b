//! The append-only log: a byte sequence that only grows and is read at
//! absolute offsets.

use vstd::prelude::*;
use vstd::slice::slice_subrange;
use crate::record::put;

verus! {

/// What a reader that is positioned at `offset` finds: the bytes of `log`
/// from there on, and nothing where `offset` is not before its end.
pub open spec fn tail(log: Seq<u8>, offset: int) -> Seq<u8> {
    if 0 <= offset < log.len() {
        log.skip(offset)
    } else {
        Seq::empty()
    }
}

/// The first `length` bytes of `log`, and all of it where it has no more.
pub open spec fn kept(log: Seq<u8>, length: int) -> Seq<u8> {
    if 0 <= length < log.len() {
        log.take(length)
    } else {
        log
    }
}

/// An append-only sequence of bytes.
pub struct Log {
    bytes: Vec<u8>,
}

impl View for Log {
    type V = Seq<u8>;

    closed spec fn view(&self) -> Seq<u8> {
        self.bytes@
    }
}

impl Log {
    /// A log that holds `contents`.
    pub fn new(contents: Vec<u8>) -> (log: Log)
        ensures
            log@ == contents@,
    {
        Log { bytes: contents }
    }

    /// A log is never longer than an offset can say.
    pub proof fn lemma_len_fits(&self)
        ensures
            self@.len() <= u64::MAX,
    {
        assert(self.bytes.len() <= usize::MAX);
    }

    /// The number of bytes in the log: the offset at which the next append
    /// will start.
    pub fn len(&self) -> (length: u64)
        ensures
            length == self@.len(),
    {
        self.bytes.len() as u64
    }

    /// Writes `bytes` at the end of the log and gives the offset at which
    /// they start.
    pub fn append(&mut self, bytes: &[u8]) -> (offset: u64)
        ensures
            offset == old(self)@.len(),
            final(self)@ == old(self)@ + bytes@,
    {
        let offset = self.bytes.len() as u64;
        put(&mut self.bytes, bytes);
        offset
    }

    /// Drops what was appended since the log was `length` bytes long. A
    /// log that is no longer than that stays as it is.
    pub fn truncate(&mut self, length: u64)
        ensures
            final(self)@ == kept(old(self)@, length as int),
    {
        if length < self.bytes.len() as u64 {
            self.bytes.truncate(length as usize);
        }
        proof {
            assert(self.bytes@ =~= kept(old(self).bytes@, length as int));
        }
    }

    /// The bytes of the log from `offset` on.
    pub fn read_at(&self, offset: u64) -> (source: &[u8])
        ensures
            source@ == tail(self@, offset as int),
    {
        let length = self.bytes.len();
        if offset < length as u64 {
            slice_subrange(self.bytes.as_slice(), offset as usize, length)
        } else {
            slice_subrange(self.bytes.as_slice(), length, length)
        }
    }
}

} // verus!
