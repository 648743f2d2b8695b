//! The store: a log and the index over it.

use vstd::prelude::*;
use crate::error::StoreError;
use crate::index::{as_map, distinct_keys, pairs, Index};
use crate::log::{kept, tail, Log};
use crate::model::{
    delete_outcome, deleted, faithful, inserted, lemma_append_keeps_faithful, lemma_load_faithful,
    lookup, replay, storable, Replay, StoreState,
};
use crate::record::{
    decode, encode, encoded_len, lemma_parse_encoded, lemma_record_fits, HEADER_LEN,
};

verus! {

/// What the result of `get` stands for, the value as the bytes that it holds.
pub open spec fn found(outcome: Result<Option<Vec<u8>>, StoreError>) -> Result<
    Option<Seq<u8>>,
    StoreError,
> {
    match outcome {
        Ok(Some(value)) => Ok(Some(value@)),
        Ok(None) => Ok(None),
        Err(error) => Err(error),
    }
}

/// A key-value store: an append-only log of records and an index from each
/// key to the offset of its most recent record.
pub struct ActionKV {
    log: Log,
    index: Index,
}

impl View for ActionKV {
    type V = StoreState;

    closed spec fn view(&self) -> StoreState {
        StoreState { log: self.log@, index: self.index@ }
    }
}

impl ActionKV {
    /// Attaches a store to a log that holds `contents`. The index starts
    /// empty: `load` fills it.
    pub fn open(contents: Vec<u8>) -> (store: ActionKV)
        ensures
            store@.log == contents@,
            store@.index == Map::<Seq<u8>, u64>::empty(),
            contents@.len() == 0 ==> faithful(store@),
    {
        let store = ActionKV { log: Log::new(contents), index: Index::new() };
        proof {
            if contents@.len() == 0 {
                assert(tail(store.log@, 0) =~= Seq::<u8>::empty());
            }
        }
        store
    }

    /// The log of a store is never longer than an offset can say.
    pub proof fn lemma_storable(&self)
        ensures
            storable(self@),
    {
        self.log.lemma_len_fits();
    }

    /// Replays the log from its start into the index: a record with a value
    /// maps its key to the record's offset, and a record with an empty value
    /// is read as a deletion and takes its key out. A record that cannot be
    /// read stops the replay: the failure is returned, and the index holds
    /// what was replayed before it.
    pub fn load(&mut self) -> (outcome: Result<(), StoreError>)
        ensures
            final(self)@.log == old(self)@.log,
            final(self)@.index == replay(old(self)@.log, 0, old(self)@.index).index,
            outcome == (match replay(old(self)@.log, 0, old(self)@.index).error {
                None => Ok::<(), StoreError>(()),
                Some(error) => Err::<(), StoreError>(error),
            }),
            old(self)@.index == Map::<Seq<u8>, u64>::empty() && outcome is Ok ==> faithful(
                final(self)@,
            ),
            faithful(old(self)@) ==> outcome is Ok && final(self)@ == old(self)@,
    {
        let mut position: u64 = 0;
        let end = self.log.len();
        let mut done = false;
        let mut failure: Option<StoreError> = None;
        while !done
            invariant
                self.log@ == old(self).log@,
                end == self.log@.len(),
                position <= end,
                !done ==> failure is None,
                !done ==> replay(self.log@, position as nat, self.index@) == replay(
                    old(self).log@,
                    0,
                    old(self).index@,
                ),
                done ==> replay(old(self).log@, 0, old(self).index@) == (Replay {
                    index: self.index@,
                    error: failure,
                }),
            decreases end - position + (if done { 0int } else { 1int }),
        {
            let source = self.log.read_at(position);
            match decode(source) {
                Ok(None) => {
                    done = true;
                },
                Ok(Some(pair)) => {
                    proof {
                        lemma_record_fits(source@);
                        assert(encoded_len(pair.key@, pair.value@) <= source@.len());
                    }
                    if pair.value.len() == 0 {
                        self.index.remove(pair.key.as_slice());
                    } else {
                        self.index.set(pair.key.as_slice(), position);
                    }
                    position = position + HEADER_LEN as u64 + pair.key.len() as u64
                        + pair.value.len() as u64;
                },
                Err(error) => {
                    failure = Some(error);
                    done = true;
                },
            }
        }
        proof {
            old(self).lemma_storable();
            lemma_load_faithful(old(self)@);
        }
        match failure {
            None => Ok(()),
            Some(error) => Err(error),
        }
    }

    /// The value of `key`: `None` where the key is not in the index, else
    /// the value of the record at the key's offset.
    pub fn get(&self, key: &[u8]) -> (outcome: Result<Option<Vec<u8>>, StoreError>)
        ensures
            found(outcome) == lookup(self@, key@),
    {
        match self.index.lookup(key) {
            Some(position) => {
                match decode(self.log.read_at(position)) {
                    Ok(Some(pair)) => Ok(Some(pair.value)),
                    Ok(None) => Err(StoreError::Truncated),
                    Err(error) => Err(error),
                }
            },
            None => Ok(None),
        }
    }

    /// Appends the record of `key` and `value` to the log and maps the key
    /// to it, whether or not the key was in the index.
    ///
    /// The record of an empty value cannot be told from the record that a
    /// delete writes. This store gives the empty value for the key; a store
    /// that is later loaded from the same log reads the record as a
    /// deletion. So only an insert of a value that is not empty keeps the
    /// index faithful to the log.
    pub fn insert(&mut self, key: &[u8], value: &[u8]) -> (outcome: Result<(), StoreError>)
        requires
            key@.len() <= u32::MAX,
            value@.len() <= u32::MAX,
        ensures
            outcome is Ok,
            final(self)@ == inserted(old(self)@, key@, value@),
            faithful(old(self)@) && value@.len() > 0 ==> faithful(final(self)@),
    {
        let bytes = encode(key, value);
        let position = self.log.append(bytes.as_slice());
        self.index.set(key, position);
        proof {
            self.log.lemma_len_fits();
            lemma_parse_encoded(key@, value@, Seq::empty());
            if faithful(old(self)@) && value@.len() > 0 {
                lemma_append_keeps_faithful(old(self)@, key@, value@);
            }
        }
        Ok(())
    }

    /// Deletes `key`: appends a record with an empty value and takes the
    /// key out of the index. Fails, and changes nothing, where the key is
    /// not in the index.
    pub fn delete(&mut self, key: &[u8]) -> (outcome: Result<(), StoreError>)
        requires
            key@.len() <= u32::MAX,
        ensures
            outcome == delete_outcome(old(self)@, key@),
            final(self)@ == deleted(old(self)@, key@),
            faithful(old(self)@) ==> faithful(final(self)@),
    {
        if self.index.lookup(key).is_none() {
            return Err(StoreError::NotFound);
        }
        let tombstone: Vec<u8> = Vec::new();
        let bytes = encode(key, tombstone.as_slice());
        let position = self.log.append(bytes.as_slice());
        self.index.set(key, position);
        self.index.remove(key);
        proof {
            self.log.lemma_len_fits();
            assert(tombstone@ =~= Seq::<u8>::empty());
            lemma_parse_encoded(key@, tombstone@, Seq::empty());
            if faithful(old(self)@) {
                lemma_append_keeps_faithful(old(self)@, key@, tombstone@);
            }
            assert(old(self).index@.insert(key@, position).remove(key@) =~= old(
                self,
            ).index@.remove(key@));
        }
        Ok(())
    }

    /// Replaces the value of `key`; a key that is not in the index is
    /// created. The same as `insert`.
    pub fn update(&mut self, key: &[u8], value: &[u8]) -> (outcome: Result<(), StoreError>)
        requires
            key@.len() <= u32::MAX,
            value@.len() <= u32::MAX,
        ensures
            outcome is Ok,
            final(self)@ == inserted(old(self)@, key@, value@),
            faithful(old(self)@) && value@.len() > 0 ==> faithful(final(self)@),
    {
        self.insert(key, value)
    }

    /// The offset of the most recent record of `key`, if the key is in the
    /// index.
    pub fn offset_of(&self, key: &[u8]) -> (offset: Option<u64>)
        ensures
            offset == (if self@.index.contains_key(key@) {
                Some(self@.index[key@])
            } else {
                None
            }),
    {
        self.index.lookup(key)
    }

    /// The number of bytes in the log.
    pub fn log_len(&self) -> (length: u64)
        ensures
            length == self@.log.len(),
    {
        self.log.len()
    }

    /// The bytes of the log from `offset` on: what was appended since the
    /// log had `offset` bytes.
    pub fn log_since(&self, offset: u64) -> (bytes: &[u8])
        ensures
            bytes@ == tail(self@.log, offset as int),
    {
        self.log.read_at(offset)
    }

    /// Takes the store back to an earlier state: drops what was appended
    /// to the log since it was `length` bytes long, and puts the mapping
    /// that `mapping` stands for in the place of the index. With the length
    /// and a snapshot of the index that were taken before some operations,
    /// the store is again what it was before them.
    pub fn restore(&mut self, length: u64, mapping: Vec<(Vec<u8>, u64)>)
        ensures
            final(self)@.log == kept(old(self)@.log, length as int),
            final(self)@.index == as_map(pairs(mapping@)),
    {
        self.log.truncate(length);
        self.index.replace(mapping);
    }

    /// A copy of the index, as a list of entries without repeated keys.
    pub fn index_snapshot(&self) -> (mapping: Vec<(Vec<u8>, u64)>)
        ensures
            distinct_keys(pairs(mapping@)),
            as_map(pairs(mapping@)) == self@.index,
    {
        self.index.snapshot()
    }

    /// Puts the mapping that `mapping` stands for in the place of the
    /// index. The log stays as it is.
    pub fn replace_index(&mut self, mapping: Vec<(Vec<u8>, u64)>)
        ensures
            final(self)@.log == old(self)@.log,
            final(self)@.index == as_map(pairs(mapping@)),
    {
        self.index.replace(mapping);
    }
}

} // verus!
