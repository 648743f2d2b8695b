//! The store as a mathematical object: a log and an index, and what each
//! operation makes of them.

use vstd::prelude::*;
use crate::error::StoreError;
use crate::log::{kept, tail};
use crate::record::{encoded, encoded_len, lemma_parse_encoded, parse, Frame};

verus! {

/// What a store holds: the bytes of its log and the mapping of its index.
pub struct StoreState {
    pub log: Seq<u8>,
    pub index: Map<Seq<u8>, u64>,
}

/// What a replay leaves behind: the index as far as it was built, and the
/// failure that stopped the replay, if one did.
pub struct Replay {
    pub index: Map<Seq<u8>, u64>,
    pub error: Option<StoreError>,
}

/// What `get` returns for `key`: nothing where the key is not in the index,
/// else the value of the one record that starts at the key's offset.
pub open spec fn lookup(s: StoreState, key: Seq<u8>) -> Result<Option<Seq<u8>>, StoreError> {
    if !s.index.contains_key(key) {
        Ok(None)
    } else {
        match parse(tail(s.log, s.index[key] as int)) {
            Frame::Record { key: _, value } => Ok(Some(value)),
            Frame::Corrupt => Err(StoreError::Corruption),
            Frame::Truncated => Err(StoreError::Truncated),
            Frame::End => Err(StoreError::Truncated),
        }
    }
}

/// The store after `insert`: the record is appended, and the key is mapped
/// to the offset at which the record starts.
pub open spec fn inserted(s: StoreState, key: Seq<u8>, value: Seq<u8>) -> StoreState {
    StoreState { log: s.log + encoded(key, value), index: s.index.insert(key, s.log.len() as u64) }
}

/// What `delete` returns: it fails exactly where the key is not in the
/// index.
pub open spec fn delete_outcome(s: StoreState, key: Seq<u8>) -> Result<(), StoreError> {
    if s.index.contains_key(key) {
        Ok(())
    } else {
        Err(StoreError::NotFound)
    }
}

/// The store after `delete`. Where the key is in the index, a record with
/// an empty value is appended and the key leaves the index; where it is
/// not, nothing changes.
pub open spec fn deleted(s: StoreState, key: Seq<u8>) -> StoreState {
    if s.index.contains_key(key) {
        StoreState { log: s.log + encoded(key, Seq::empty()), index: s.index.remove(key) }
    } else {
        s
    }
}

/// The store that is opened on the log of `s` and loaded.
pub open spec fn reloaded(s: StoreState) -> StoreState {
    StoreState { log: s.log, index: replayed(s.log).index }
}

/// What a replay makes of an index on reading one record at `offset`. A
/// record with an empty value is a tombstone: it takes the key out of the
/// index. Any other record maps the key to `offset`.
pub open spec fn recorded(
    index: Map<Seq<u8>, u64>,
    key: Seq<u8>,
    value: Seq<u8>,
    offset: u64,
) -> Map<Seq<u8>, u64> {
    if value.len() == 0 {
        index.remove(key)
    } else {
        index.insert(key, offset)
    }
}

/// Replays `log` from the offset `from` on into `index`, record by record:
/// a record with a value maps its key to the offset at which the record
/// starts, and a tombstone takes its key out. The replay stops at the clean
/// end of the log, or at the first record that cannot be read.
pub open spec fn replay(log: Seq<u8>, from: nat, index: Map<Seq<u8>, u64>) -> Replay
    decreases log.len() - from,
{
    match parse(tail(log, from as int)) {
        Frame::End => Replay { index, error: None },
        Frame::Record { key, value } => replay(
            log,
            from + encoded_len(key, value),
            recorded(index, key, value, from as u64),
        ),
        Frame::Truncated => Replay { index, error: Some(StoreError::Truncated) },
        Frame::Corrupt => Replay { index, error: Some(StoreError::Corruption) },
    }
}

/// The keys of the records that a replay of `log` from `from` on reads.
pub open spec fn touched(log: Seq<u8>, from: nat) -> Set<Seq<u8>>
    decreases log.len() - from,
{
    match parse(tail(log, from as int)) {
        Frame::Record { key, value } => touched(log, from + encoded_len(key, value)).insert(key),
        _ => Set::empty(),
    }
}

/// Whether a record that reads without failure starts at `offset` and
/// holds the key `key`.
pub open spec fn holds_key(log: Seq<u8>, offset: u64, key: Seq<u8>) -> bool {
    match parse(tail(log, offset as int)) {
        Frame::Record { key: found, value: _ } => found == key,
        _ => false,
    }
}

/// Whether the log is no longer than a log can be: offsets are 64 bits wide.
pub open spec fn storable(s: StoreState) -> bool {
    s.log.len() <= u64::MAX
}

/// What a replay of the whole of `log` builds from nothing.
pub open spec fn replayed(log: Seq<u8>) -> Replay {
    replay(log, 0, Map::empty())
}

/// Whether the store's index is what its log stands for: the log replays
/// without failure, and the index is the one that the replay builds.
pub open spec fn faithful(s: StoreState) -> bool {
    &&& storable(s)
    &&& replayed(s.log).error is None
    &&& s.index == replayed(s.log).index
}

/// Whether every key of the index is mapped to the start of a record that
/// reads without failure and holds that key.
pub open spec fn sound(s: StoreState) -> bool {
    forall|key: Seq<u8>| #[trigger] s.index.contains_key(key) ==> holds_key(s.log, s.index[key], key)
}

/// A record that reads without failure reads the same whatever is appended
/// to the bytes that it is read from.
pub proof fn lemma_parse_prefix(source: Seq<u8>, suffix: Seq<u8>)
    requires
        parse(source) is Record,
    ensures
        parse(source + suffix) == parse(source),
{
    let longer = source + suffix;
    assert(longer.subrange(0, 4) =~= source.subrange(0, 4));
    assert(longer.subrange(4, 8) =~= source.subrange(4, 8));
    assert(longer.subrange(8, 12) =~= source.subrange(8, 12));
    let key_len = crate::record::le_value(source.subrange(4, 8)) as int;
    let value_len = crate::record::le_value(source.subrange(8, 12)) as int;
    assert(longer.subrange(12, 12 + key_len + value_len) =~= source.subrange(
        12,
        12 + key_len + value_len,
    ));
}

/// A record of the log that reads without failure reads the same after an
/// append.
pub proof fn lemma_record_stable(log: Seq<u8>, suffix: Seq<u8>, offset: int)
    requires
        parse(tail(log, offset)) is Record,
    ensures
        parse(tail(log + suffix, offset)) == parse(tail(log, offset)),
{
    assert(0 <= offset < log.len());
    assert(tail(log + suffix, offset) =~= tail(log, offset) + suffix);
    lemma_parse_prefix(tail(log, offset), suffix);
}

/// A replay that starts from an index gives that index without the keys
/// of the records that it reads, overridden by what the same replay builds
/// from nothing, and stops on the same failure.
pub proof fn lemma_replay_from_index(log: Seq<u8>, from: nat, index: Map<Seq<u8>, u64>)
    ensures
        replay(log, from, index).error == replay(log, from, Map::empty()).error,
        replay(log, from, index).index == index.remove_keys(
            touched(log, from),
        ).union_prefer_right(replay(log, from, Map::empty()).index),
    decreases log.len() - from,
{
    let nothing = Map::<Seq<u8>, u64>::empty();
    match parse(tail(log, from as int)) {
        Frame::Record { key, value } => {
            let next = from + encoded_len(key, value);
            let one = recorded(nothing, key, value, from as u64);
            lemma_replay_from_index(log, next, recorded(index, key, value, from as u64));
            lemma_replay_from_index(log, next, one);
            let later = touched(log, next);
            let rest = replay(log, next, nothing).index;
            assert(recorded(index, key, value, from as u64).remove_keys(later).union_prefer_right(
                rest,
            ) =~= index.remove_keys(later.insert(key)).union_prefer_right(
                one.remove_keys(later).union_prefer_right(rest),
            ));
        },
        _ => {
            assert(index.remove_keys(Set::empty()).union_prefer_right(nothing) =~= index);
        },
    }
}

/// Replaying a log to which one record was appended gives what the replay
/// of the log gave, and then what the replay makes of that record at the
/// old end of the log.
pub proof fn lemma_replay_append(
    log: Seq<u8>,
    from: nat,
    index: Map<Seq<u8>, u64>,
    key: Seq<u8>,
    value: Seq<u8>,
)
    requires
        log.len() <= u64::MAX,
        from <= log.len(),
        replay(log, from, index).error is None,
        key.len() <= u32::MAX,
        value.len() <= u32::MAX,
    ensures
        replay(log + encoded(key, value), from, index) == (Replay {
            index: recorded(replay(log, from, index).index, key, value, log.len() as u64),
            error: None,
        }),
    decreases log.len() - from,
{
    let record = encoded(key, value);
    let longer = log + record;
    lemma_parse_encoded(key, value, Seq::empty());
    assert(record + Seq::<u8>::empty() =~= record);
    match parse(tail(log, from as int)) {
        Frame::Record { key: found_key, value: found_value } => {
            crate::record::lemma_record_fits(tail(log, from as int));
            lemma_record_stable(log, record, from as int);
            lemma_replay_append(
                log,
                from + encoded_len(found_key, found_value),
                recorded(index, found_key, found_value, from as u64),
                key,
                value,
            );
        },
        Frame::End => {
            assert(from == log.len());
            assert(tail(longer, from as int) =~= record);
            assert(parse(tail(longer, from as int)) == (Frame::Record { key, value }));
            let after = from + encoded_len(key, value);
            assert(tail(longer, after as int) =~= Seq::<u8>::empty());
            assert(replay(longer, after, recorded(index, key, value, from as u64)) == (Replay {
                index: recorded(index, key, value, from as u64),
                error: None,
            }));
        },
        _ => {},
    }
}

/// A replay into a sound index leaves a sound index.
pub proof fn lemma_replay_sound(log: Seq<u8>, from: nat, index: Map<Seq<u8>, u64>)
    requires
        log.len() <= u64::MAX,
        sound(StoreState { log, index }),
    ensures
        sound(StoreState { log, index: replay(log, from, index).index }),
    decreases log.len() - from,
{
    match parse(tail(log, from as int)) {
        Frame::Record { key, value } => {
            let next = recorded(index, key, value, from as u64);
            assert(sound(StoreState { log, index: next })) by {
                assert forall|other: Seq<u8>| #[trigger] next.contains_key(other) implies holds_key(
                    log,
                    next[other],
                    other,
                ) by {
                    if other != key {
                        let before = StoreState { log, index };
                        assert(before.index.contains_key(other));
                        assert(holds_key(log, before.index[other], other));
                        assert(next[other] == index[other]);
                    } else {
                        assert(from < log.len());
                        assert(next[other] == from);
                    }
                }
            }
            lemma_replay_sound(log, from + encoded_len(key, value), next);
        },
        _ => {},
    }
}

/// After an insert, the key's value is the one that was inserted.
pub proof fn lemma_get_after_insert(s: StoreState, key: Seq<u8>, value: Seq<u8>)
    requires
        storable(s),
        key.len() <= u32::MAX,
        value.len() <= u32::MAX,
    ensures
        lookup(inserted(s, key, value), key) == Ok::<Option<Seq<u8>>, StoreError>(Some(value)),
{
    let record = encoded(key, value);
    lemma_parse_encoded(key, value, Seq::empty());
    assert(record + Seq::<u8>::empty() =~= record);
    assert(tail(s.log + record, s.log.len() as int) =~= record);
}

/// An insert leaves the value of every other key that reads without
/// failure as it was.
pub proof fn lemma_insert_keeps_other_values(
    s: StoreState,
    key: Seq<u8>,
    value: Seq<u8>,
    other: Seq<u8>,
)
    requires
        other != key,
        lookup(s, other) is Ok,
    ensures
        lookup(inserted(s, key, value), other) == lookup(s, other),
{
    if s.index.contains_key(other) {
        lemma_record_stable(s.log, encoded(key, value), s.index[other] as int);
    }
}

/// Last write wins: after two inserts of one key, the key's value is the
/// second one.
pub proof fn lemma_last_write_wins(s: StoreState, key: Seq<u8>, first: Seq<u8>, second: Seq<u8>)
    requires
        storable(inserted(s, key, first)),
        key.len() <= u32::MAX,
        first.len() <= u32::MAX,
        second.len() <= u32::MAX,
    ensures
        lookup(inserted(inserted(s, key, first), key, second), key) == Ok::<
            Option<Seq<u8>>,
            StoreError,
        >(Some(second)),
{
    lemma_get_after_insert(inserted(s, key, first), key, second);
}

/// A key that was inserted and then deleted is absent, and a second delete
/// of it fails because the key is not found.
pub proof fn lemma_delete_after_insert(s: StoreState, key: Seq<u8>, value: Seq<u8>)
    ensures
        delete_outcome(inserted(s, key, value), key) == Ok::<(), StoreError>(()),
        lookup(deleted(inserted(s, key, value), key), key) == Ok::<Option<Seq<u8>>, StoreError>(
            None,
        ),
        delete_outcome(deleted(inserted(s, key, value), key), key) == Err::<(), StoreError>(
            StoreError::NotFound,
        ),
        deleted(deleted(inserted(s, key, value), key), key) == deleted(
            inserted(s, key, value),
            key,
        ),
{
}

/// A delete leaves the value of every other key that reads without failure
/// as it was.
pub proof fn lemma_delete_keeps_other_values(s: StoreState, key: Seq<u8>, other: Seq<u8>)
    requires
        other != key,
        lookup(s, other) is Ok,
    ensures
        lookup(deleted(s, key), other) == lookup(s, other),
{
    if s.index.contains_key(key) && s.index.contains_key(other) {
        lemma_record_stable(s.log, encoded(key, Seq::empty()), s.index[other] as int);
    }
}

/// A load leaves an index that is faithful to the log where it starts from
/// an empty index and reads the whole log, and where it starts from an
/// index that is faithful to the log, in which case it does read the whole
/// log and leaves the index as it was.
pub proof fn lemma_load_faithful(s: StoreState)
    requires
        storable(s),
    ensures
        s.index == Map::<Seq<u8>, u64>::empty() && replay(s.log, 0, s.index).error is None
            ==> faithful(StoreState { log: s.log, index: replay(s.log, 0, s.index).index }),
        faithful(s) ==> replay(s.log, 0, s.index) == (Replay { index: s.index, error: None }),
{
    if faithful(s) {
        lemma_replay_from_index(s.log, 0, s.index);
        assert(s.index.remove_keys(touched(s.log, 0)).union_prefer_right(s.index) =~= s.index);
    }
}

/// An index that is faithful to its log is sound: each key is mapped to a
/// record that reads without failure and holds that key.
pub proof fn lemma_faithful_is_sound(s: StoreState)
    requires
        faithful(s),
    ensures
        sound(s),
{
    let nothing = Map::<Seq<u8>, u64>::empty();
    assert(sound(StoreState { log: s.log, index: nothing }));
    lemma_replay_sound(s.log, 0, nothing);
}

/// Appending a record, and doing to the index what a replay makes of that
/// record, keeps the index faithful to the log.
pub proof fn lemma_append_keeps_faithful(s: StoreState, key: Seq<u8>, value: Seq<u8>)
    requires
        faithful(s),
        s.log.len() + encoded_len(key, value) <= u64::MAX,
        key.len() <= u32::MAX,
        value.len() <= u32::MAX,
    ensures
        faithful(
            StoreState {
                log: s.log + encoded(key, value),
                index: recorded(s.index, key, value, s.log.len() as u64),
            },
        ),
{
    lemma_replay_append(s.log, 0, Map::empty(), key, value);
    lemma_parse_encoded(key, value, Seq::empty());
}

/// Replay: a store whose index is faithful to its log is the store that is
/// opened on the same log and loaded, so the two give the same answer for
/// every key, and that answer is no failure.
pub proof fn lemma_reload_agrees(s: StoreState, key: Seq<u8>)
    requires
        faithful(s),
    ensures
        reloaded(s) == s,
        lookup(reloaded(s), key) == lookup(s, key),
        lookup(s, key) is Ok,
{
    lemma_faithful_is_sound(s);
}

/// Replay: a key that was deleted is absent from the store that is opened
/// on the same log and loaded, as it is from the store itself.
pub proof fn lemma_deleted_key_stays_absent(s: StoreState, key: Seq<u8>)
    requires
        faithful(s),
        s.log.len() + encoded_len(key, Seq::empty()) <= u64::MAX,
        key.len() <= u32::MAX,
    ensures
        faithful(deleted(s, key)),
        lookup(deleted(s, key), key) == Ok::<Option<Seq<u8>>, StoreError>(None),
        lookup(reloaded(deleted(s, key)), key) == Ok::<Option<Seq<u8>>, StoreError>(None),
{
    if s.index.contains_key(key) {
        lemma_append_keeps_faithful(s, key, Seq::empty());
    }
}

/// Replay: an insert of a value that is not empty keeps the index faithful
/// to the log, so the store that is opened on the same log and loaded gives
/// the inserted value too.
pub proof fn lemma_inserted_value_survives(s: StoreState, key: Seq<u8>, value: Seq<u8>)
    requires
        faithful(s),
        s.log.len() + encoded_len(key, value) <= u64::MAX,
        key.len() <= u32::MAX,
        0 < value.len() <= u32::MAX,
    ensures
        faithful(inserted(s, key, value)),
        lookup(reloaded(inserted(s, key, value)), key) == Ok::<Option<Seq<u8>>, StoreError>(
            Some(value),
        ),
{
    lemma_append_keeps_faithful(s, key, value);
    lemma_get_after_insert(s, key, value);
}

/// The one kind of write that a reload does not reproduce: the record of
/// an empty value cannot be told from a tombstone. The store that inserted
/// it gives the empty value; the store that is opened on the same log and
/// loaded reads the record as a deletion and gives nothing.
pub proof fn lemma_empty_value_reads_as_deleted(s: StoreState, key: Seq<u8>)
    requires
        faithful(s),
        s.log.len() + encoded_len(key, Seq::empty()) <= u64::MAX,
        key.len() <= u32::MAX,
    ensures
        lookup(inserted(s, key, Seq::empty()), key) == Ok::<Option<Seq<u8>>, StoreError>(
            Some(Seq::empty()),
        ),
        lookup(reloaded(inserted(s, key, Seq::empty())), key) == Ok::<
            Option<Seq<u8>>,
            StoreError,
        >(None),
{
    lemma_get_after_insert(s, key, Seq::empty());
    lemma_replay_append(s.log, 0, Map::empty(), key, Seq::empty());
}

/// The log that holds the records of `records`, each a key and a value,
/// in their order and nothing else.
pub open spec fn written_log(records: Seq<(Seq<u8>, Seq<u8>)>) -> Seq<u8>
    decreases records.len(),
{
    if records.len() == 0 {
        Seq::empty()
    } else {
        written_log(records.drop_last()) + encoded(records.last().0, records.last().1)
    }
}

/// The index that the records of `records` stand for: each key is mapped to
/// the offset of its last record, unless that record holds an empty value.
pub open spec fn written_index(records: Seq<(Seq<u8>, Seq<u8>)>) -> Map<Seq<u8>, u64>
    decreases records.len(),
{
    if records.len() == 0 {
        Map::empty()
    } else {
        recorded(
            written_index(records.drop_last()),
            records.last().0,
            records.last().1,
            written_log(records.drop_last()).len() as u64,
        )
    }
}

/// A log that holds whole records and nothing else replays without
/// failure, and the replay builds the index that the records stand for.
pub proof fn lemma_replay_of_written(records: Seq<(Seq<u8>, Seq<u8>)>)
    requires
        forall|i: int|
            0 <= i < records.len() ==> (#[trigger] records[i]).0.len() <= u32::MAX
                && records[i].1.len() <= u32::MAX,
        written_log(records).len() <= u64::MAX,
    ensures
        replayed(written_log(records)) == (Replay { index: written_index(records), error: None }),
    decreases records.len(),
{
    if records.len() == 0 {
        assert(tail(written_log(records), 0) =~= Seq::<u8>::empty());
    } else {
        let front = records.drop_last();
        assert forall|i: int| 0 <= i < front.len() implies (#[trigger] front[i]).0.len()
            <= u32::MAX && front[i].1.len() <= u32::MAX by {
            assert(front[i] == records[i]);
        }
        lemma_replay_of_written(front);
        lemma_replay_append(
            written_log(front),
            0,
            Map::empty(),
            records.last().0,
            records.last().1,
        );
    }
}

/// Dropping what was appended since the log had its old length gives the
/// old log back: with a snapshot of the old index, a store is taken back to
/// what it was before an insert or a delete.
pub proof fn lemma_append_undone(s: StoreState, key: Seq<u8>, value: Seq<u8>)
    ensures
        kept(inserted(s, key, value).log, s.log.len() as int) == s.log,
        kept(deleted(s, key).log, s.log.len() as int) == s.log,
{
    assert(kept(s.log + encoded(key, value), s.log.len() as int) =~= s.log);
    assert(kept(s.log + encoded(key, Seq::empty()), s.log.len() as int) =~= s.log);
}

} // verus!
