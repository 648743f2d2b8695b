use actionkv::cache::{load_with_cache, read_index_from_disk, write_index_to_disk};
use actionkv::error::StoreError;
use actionkv::ActionKV;

fn after_first_session() -> ActionKV {
    let mut store = ActionKV::open(Vec::new());
    store.load().unwrap();
    store.insert(b"a", b"1").unwrap();
    store.insert(b"b", b"2").unwrap();
    store.delete(b"a").unwrap();
    store.update(b"b", b"3").unwrap();
    store
}

#[test]
fn two_inserts_are_both_found() {
    let mut store = ActionKV::open(Vec::new());
    store.insert(b"a", b"1").unwrap();
    store.insert(b"b", b"2").unwrap();
    assert_eq!(store.get(b"a"), Ok(Some(b"1".to_vec())));
    assert_eq!(store.get(b"b"), Ok(Some(b"2".to_vec())));
}

#[test]
fn delete_then_get_then_delete_again() {
    let mut store = ActionKV::open(Vec::new());
    store.insert(b"a", b"1").unwrap();
    store.insert(b"b", b"2").unwrap();
    assert_eq!(store.delete(b"a"), Ok(()));
    assert_eq!(store.get(b"a"), Ok(None));
    assert_eq!(store.delete(b"a"), Err(StoreError::NotFound));
}

#[test]
fn update_then_get() {
    let mut store = ActionKV::open(Vec::new());
    store.insert(b"b", b"2").unwrap();
    store.update(b"b", b"3").unwrap();
    assert_eq!(store.get(b"b"), Ok(Some(b"3".to_vec())));
}

#[test]
fn reopened_store_gives_what_the_closed_one_gave() {
    let first = after_first_session();
    let mut second = ActionKV::open(first.log_since(0).to_vec());
    assert_eq!(second.load(), Ok(()));
    assert_eq!(second.get(b"b"), Ok(Some(b"3".to_vec())));
    assert_eq!(second.get(b"a"), Ok(None));
    assert_eq!(second.get(b"never"), Ok(None));
}

#[test]
fn reopened_store_has_the_same_index() {
    let mut first = after_first_session();
    first.insert(b"c", b"4").unwrap();
    first.insert(b"a", b"5").unwrap();
    first.delete(b"c").unwrap();
    let mut second = ActionKV::open(first.log_since(0).to_vec());
    second.load().unwrap();
    let mut before = first.index_snapshot();
    let mut after = second.index_snapshot();
    before.sort();
    after.sort();
    assert_eq!(before, after);
    assert_eq!(after, vec![(b"a".to_vec(), 69), (b"b".to_vec(), 41)]);
}

#[test]
fn an_empty_value_is_read_as_a_deletion_after_reopening() {
    let mut first = ActionKV::open(Vec::new());
    first.insert(b"a", b"1").unwrap();
    first.update(b"a", b"").unwrap();
    assert_eq!(first.get(b"a"), Ok(Some(Vec::new())));
    let mut second = ActionKV::open(first.log_since(0).to_vec());
    second.load().unwrap();
    assert_eq!(second.get(b"a"), Ok(None));
}

#[test]
fn one_damaged_byte_in_a_record_fails_the_load() {
    let first = after_first_session();
    let bytes = first.log_since(0).to_vec();
    let start = first.offset_of(b"b").unwrap() as usize;
    for at in start + 12..bytes.len() {
        let mut damaged = bytes.clone();
        damaged[at] = !damaged[at];
        let mut second = ActionKV::open(damaged);
        assert_eq!(second.load(), Err(StoreError::Corruption));
    }
}

#[test]
fn index_cache_flow() {
    let mut first = after_first_session();
    assert_eq!(write_index_to_disk(&mut first), Ok(()));
    assert_eq!(read_index_from_disk(&mut first), Ok(()));
    assert_eq!(first.get(b"b"), Ok(Some(b"3".to_vec())));
    assert_eq!(first.get(b"a"), Ok(None));

    let mut second = ActionKV::open(first.log_since(0).to_vec());
    assert_eq!(load_with_cache(&mut second), Ok(Some(StoreError::NotFound)));
    assert_eq!(second.get(b"b"), Ok(Some(b"3".to_vec())));
    assert_eq!(second.get(b"a"), Ok(None));
    assert_eq!(load_with_cache(&mut second), Ok(None));
    assert_eq!(second.get(b"b"), Ok(Some(b"3".to_vec())));
    assert_eq!(second.get(b"a"), Ok(None));
}
