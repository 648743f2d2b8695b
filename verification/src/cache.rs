//! The index cache: a snapshot of the index, kept as the value of a record
//! under a reserved key, from which a store can take its index without
//! replaying the log.

use vstd::prelude::*;
use crate::error::StoreError;
use crate::index::{as_map, distinct_keys, lemma_as_map_remove, pairs, same_bytes};
use crate::model::{faithful, inserted, lookup, replay, StoreState};
use crate::store::ActionKV;

verus! {

/// The reserved key under which the index is cached: the text `+index+`.
pub const INDEX_KEY: [u8; 7] = [43, 105, 110, 100, 101, 120, 43];

/// `bincode::ErrorKind`, the failure of `bincode::serialize` and of
/// `bincode::deserialize`. Nothing is read from it.
#[verifier::external_type_specification]
#[verifier::external_body]
pub struct ExErrorKind(bincode::ErrorKind);

/// The bytes that `bincode::serialize` makes of a list of entries, and
/// `None` where it fails.
pub uninterp spec fn bincode_serialized(list: Seq<(Seq<u8>, u64)>) -> Option<Seq<u8>>;

/// The list of entries that `bincode::deserialize` reads from `bytes`, and
/// `None` where it fails.
pub uninterp spec fn bincode_deserialized(bytes: Seq<u8>) -> Option<Seq<(Seq<u8>, u64)>>;

/// Calls `bincode::serialize` on a list of entries. Whether it succeeds,
/// and the bytes that it gives, depend on the entries alone: the contract
/// says that they are what `bincode_serialized` names, and no more.
#[verifier::external_body]
fn serialize_entries(entries: &Vec<(Vec<u8>, u64)>) -> (outcome: Result<
    Vec<u8>,
    Box<bincode::ErrorKind>,
>)
    ensures
        match outcome {
            Ok(bytes) => bincode_serialized(pairs(entries@)) == Some(bytes@),
            Err(_) => bincode_serialized(pairs(entries@)) is None,
        },
{
    bincode::serialize(entries)
}

/// Calls `bincode::deserialize` for a list of entries. Whether it
/// succeeds, and the list that it gives, depend on the bytes alone: the
/// contract says that they are what `bincode_deserialized` names, and no
/// more.
#[verifier::external_body]
fn deserialize_entries(bytes: &[u8]) -> (outcome: Result<
    Vec<(Vec<u8>, u64)>,
    Box<bincode::ErrorKind>,
>)
    ensures
        match outcome {
            Ok(entries) => bincode_deserialized(bytes@) == Some(pairs(entries@)),
            Err(_) => bincode_deserialized(bytes@) is None,
        },
{
    bincode::deserialize(bytes)
}

/// A blob, as the bytes that it holds.
pub open spec fn blob_view(blob: Option<Vec<u8>>) -> Option<Seq<u8>> {
    match blob {
        Some(bytes) => Some(bytes@),
        None => None,
    }
}

/// The reserved key, as the bytes that it holds.
pub open spec fn reserved_key() -> Seq<u8> {
    INDEX_KEY@
}

/// Whether `list` lists, without repeated keys, the entries of `index`
/// but the one of the reserved key: what is serialised for the cache.
pub open spec fn lists_for_cache(list: Seq<(Seq<u8>, u64)>, index: Map<Seq<u8>, u64>) -> bool {
    distinct_keys(list) && as_map(list) == index.remove(reserved_key())
}

/// Whether `blob` can be the value of the cache record: it is not empty,
/// since a record with an empty value is a tombstone, and its length fits
/// in 32 bits.
pub open spec fn usable(blob: Seq<u8>) -> bool {
    0 < blob.len() <= u32::MAX
}

/// How writing `blob` as the cache record takes the store `before` to the
/// store `after`: a usable blob is inserted under the reserved key; with
/// no blob, or one that is not usable, the write fails and nothing
/// changes.
pub open spec fn cache_stored(
    before: StoreState,
    blob: Option<Seq<u8>>,
    outcome: Result<(), StoreError>,
    after: StoreState,
) -> bool {
    match blob {
        Some(bytes) if usable(bytes) => outcome is Ok && after == inserted(
            before,
            reserved_key(),
            bytes,
        ),
        _ => outcome == Err::<(), StoreError>(StoreError::CacheSerialize) && after == before,
    }
}

/// How writing the index to the cache record takes the store `before` to
/// the store `after`: some list of the entries for the cache is
/// serialised, and what `bincode::serialize` makes of it is written as the
/// cache record. The write succeeds exactly where those bytes are usable.
pub open spec fn flushed(
    before: StoreState,
    outcome: Result<(), StoreError>,
    after: StoreState,
) -> bool {
    exists|list: Seq<(Seq<u8>, u64)>|
        lists_for_cache(list, before.index) && cache_stored(
            before,
            #[trigger] bincode_serialized(list),
            outcome,
            after,
        )
}

/// The index that the cache record of a store stands for, or why the
/// store has none: the reserved key is not in the index, its record does
/// not read, or its value is no list of entries. The reserved key keeps its
/// own offset.
pub open spec fn cached_index(s: StoreState) -> Result<Map<Seq<u8>, u64>, StoreError> {
    match lookup(s, reserved_key()) {
        Err(error) => Err(error),
        Ok(None) => Err(StoreError::NotFound),
        Ok(Some(blob)) => match bincode_deserialized(blob) {
            None => Err(StoreError::CacheDeserialize),
            Some(list) => Ok(as_map(list).insert(reserved_key(), s.index[reserved_key()])),
        },
    }
}

/// The entries of the index but the one of the reserved key, as a list
/// without repeated keys.
pub fn cacheable_entries(store: &ActionKV) -> (entries: Vec<(Vec<u8>, u64)>)
    ensures
        distinct_keys(pairs(entries@)),
        as_map(pairs(entries@)) == store@.index.remove(reserved_key()),
{
    let mut entries = store.index_snapshot();
    let ghost all = pairs(entries@);
    let mut i: usize = 0;
    while i < entries.len()
        invariant
            i <= entries@.len(),
            pairs(entries@) == all,
            distinct_keys(all),
            as_map(all) == store@.index,
            forall|j: int| 0 <= j < i ==> (#[trigger] all[j]).0 != reserved_key(),
        decreases entries@.len() - i,
    {
        if same_bytes(entries[i].0.as_slice(), INDEX_KEY.as_slice()) {
            proof {
                assert(all[i as int].0 == reserved_key());
                lemma_as_map_remove(all, i as int);
            }
            entries.remove(i);
            proof {
                assert(pairs(entries@) =~= all.remove(i as int));
            }
            return entries;
        }
        proof {
            assert(all[i as int].0 == entries@[i as int].0@);
        }
        i += 1;
    }
    proof {
        crate::index::lemma_as_map(all);
        assert(!crate::index::has_key(all, reserved_key()));
        assert(as_map(all).remove(reserved_key()) =~= as_map(all));
    }
    entries
}

/// Writes `blob` as the value of the cache record. Fails, and changes
/// nothing, where there is no blob, where it is empty, or where it is too
/// long to be a value.
pub fn store_cache(store: &mut ActionKV, blob: Option<Vec<u8>>) -> (outcome: Result<
    (),
    StoreError,
>)
    ensures
        cache_stored(old(store)@, blob_view(blob), outcome, final(store)@),
        faithful(old(store)@) ==> faithful(final(store)@),
{
    match blob {
        Some(bytes) => {
            if bytes.len() == 0 || bytes.len() as u64 > u32::MAX as u64 {
                return Err(StoreError::CacheSerialize);
            }
            store.insert(INDEX_KEY.as_slice(), bytes.as_slice())
        },
        None => Err(StoreError::CacheSerialize),
    }
}

/// Writes the index to the log as the cache record: serialises the entries
/// of the index but the one of the reserved key, and inserts the bytes
/// under the reserved key, which is thereby mapped to the new record.
/// Fails, and changes nothing, where the entries do not serialise to bytes
/// that can be a value.
pub fn write_index_to_disk(store: &mut ActionKV) -> (outcome: Result<(), StoreError>)
    ensures
        flushed(old(store)@, outcome, final(store)@),
        faithful(old(store)@) ==> faithful(final(store)@),
{
    let entries = cacheable_entries(store);
    let blob = match serialize_entries(&entries) {
        Ok(bytes) => Some(bytes),
        Err(_) => None,
    };
    let outcome = store_cache(store, blob);
    proof {
        assert(blob_view(blob) == bincode_serialized(pairs(entries@)));
        assert(lists_for_cache(pairs(entries@), old(store)@.index));
    }
    outcome
}

/// Puts the index that `entries` stands for in the place of the store's
/// index; the reserved key, where the index has it, keeps its offset.
/// Fails, and changes nothing, where there are no entries.
pub fn adopt_index(store: &mut ActionKV, entries: Option<Vec<(Vec<u8>, u64)>>) -> (outcome: Result<
    (),
    StoreError,
>)
    ensures
        final(store)@.log == old(store)@.log,
        match entries {
            Some(list) => outcome is Ok && final(store)@.index == (if old(store)@.index.contains_key(reserved_key()) {
                as_map(pairs(list@)).insert(reserved_key(), old(store)@.index[reserved_key()])
            } else {
                as_map(pairs(list@))
            }),
            None => outcome == Err::<(), StoreError>(StoreError::CacheDeserialize) && final(store)@
                == old(store)@,
        },
{
    match entries {
        Some(list) => {
            let own = store.offset_of(INDEX_KEY.as_slice());
            let mut list = list;
            let ghost cached = pairs(list@);
            match own {
                Some(offset) => {
                    list.push((crate::index::bytes_of(INDEX_KEY.as_slice()), offset));
                    proof {
                        assert(pairs(list@).drop_last() =~= cached);
                        assert(pairs(list@).last() == (reserved_key(), offset));
                    }
                },
                None => {},
            }
            store.replace_index(list);
            Ok(())
        },
        None => Err(StoreError::CacheDeserialize),
    }
}

/// Takes the index from the cache record, without replaying the log.
/// Fails, and changes nothing, where the reserved key is not in the index,
/// where its record does not read, or where its value is no list of
/// entries.
pub fn read_index_from_disk(store: &mut ActionKV) -> (outcome: Result<(), StoreError>)
    ensures
        final(store)@.log == old(store)@.log,
        match cached_index(old(store)@) {
            Ok(index) => outcome is Ok && final(store)@.index == index,
            Err(error) => outcome == Err::<(), StoreError>(error) && final(store)@ == old(store)@,
        },
{
    match store.get(INDEX_KEY.as_slice()) {
        Ok(Some(blob)) => {
            let entries = match deserialize_entries(blob.as_slice()) {
                Ok(list) => Some(list),
                Err(_) => None,
            };
            adopt_index(store, entries)
        },
        Ok(None) => Err(StoreError::NotFound),
        Err(error) => Err(error),
    }
}

/// Whether a failure to take the index from the cache record is one that
/// a replay of the log makes up for: the record is missing, or its value
/// is no list of entries.
pub open spec fn recoverable(error: StoreError) -> bool {
    error == StoreError::NotFound || error == StoreError::CacheDeserialize
}

/// What `load_with_cache` returns where the cache record gave no index for
/// the reason `why` and the log was replayed: the reason, for the caller
/// to report, or the failure of the replay.
pub open spec fn replayed_instead(why: StoreError, error: Option<StoreError>) -> Result<
    Option<StoreError>,
    StoreError,
> {
    match error {
        None => Ok(Some(why)),
        Some(error) => Err(error),
    }
}

/// Fills the index: from the cache record where the store has one that
/// reads, else by replaying the log from its start. A cache record that
/// is missing or holds no list of entries is no failure: the log is
/// replayed, and the reason is returned beside the success, for the caller
/// to report. A cache record that does not read is a failure.
pub fn load_with_cache(store: &mut ActionKV) -> (outcome: Result<Option<StoreError>, StoreError>)
    ensures
        final(store)@.log == old(store)@.log,
        match cached_index(old(store)@) {
            Ok(index) => outcome matches Ok(None) && final(store)@.index == index,
            Err(why) => if recoverable(why) {
                &&& final(store)@.index == replay(old(store)@.log, 0, old(store)@.index).index
                &&& outcome == replayed_instead(
                    why,
                    replay(old(store)@.log, 0, old(store)@.index).error,
                )
            } else {
                outcome == Err::<Option<StoreError>, StoreError>(why) && final(store)@ == old(store)@
            },
        },
{
    match read_index_from_disk(store) {
        Ok(()) => Ok(None),
        Err(why) => {
            if why == StoreError::NotFound || why == StoreError::CacheDeserialize {
                match store.load() {
                    Ok(()) => Ok(Some(why)),
                    Err(error) => Err(error),
                }
            } else {
                Err(why)
            }
        },
    }
}

} // verus!
