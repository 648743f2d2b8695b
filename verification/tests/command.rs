use actionkv::command::{answer_of, Reply, Report, Subcommands};
use actionkv::error::StoreError;
use actionkv::record::encode;
use actionkv::ActionKV;

fn get(key: &[u8]) -> Subcommands {
    Subcommands::Get { key: key.to_vec() }
}

fn insert(key: &[u8], value: &[u8]) -> Subcommands {
    Subcommands::Insert { key: key.to_vec(), value: value.to_vec() }
}

fn plain(reply: Reply) -> Report {
    Report { cache_read: None, reply, cache_write: None }
}

#[test]
fn operations_without_an_index_cache() {
    let mut store = ActionKV::open(Vec::new());
    assert_eq!(insert(b"a", b"1").execute(&mut store, false), plain(Reply::Inserted));
    assert_eq!(get(b"a").execute(&mut store, false), plain(Reply::Value(b"1".to_vec())));
    assert_eq!(
        Subcommands::Show { key: b"a".to_vec() }.execute(&mut store, false),
        plain(Reply::Value(b"1".to_vec()))
    );
    assert_eq!(
        Subcommands::Update { key: b"a".to_vec(), value: b"2".to_vec() }
            .execute(&mut store, false),
        plain(Reply::Updated)
    );
    assert_eq!(get(b"a").execute(&mut store, false), plain(Reply::Value(b"2".to_vec())));
    assert_eq!(
        Subcommands::Delete { key: b"a".to_vec() }.execute(&mut store, false),
        plain(Reply::Deleted)
    );
    assert_eq!(get(b"a").execute(&mut store, false), plain(Reply::Absent));
    assert_eq!(
        Subcommands::Delete { key: b"a".to_vec() }.execute(&mut store, false),
        plain(Reply::Failed(StoreError::NotFound))
    );
    assert_eq!(store.offset_of(b"+index+"), None);
}

#[test]
fn a_write_with_the_index_cache_flushes_the_index() {
    let mut store = ActionKV::open(Vec::new());
    let report = insert(b"a", b"1").execute(&mut store, true);
    assert_eq!(
        report,
        Report {
            cache_read: Some(StoreError::NotFound),
            reply: Reply::Inserted,
            cache_write: Some(Ok(())),
        }
    );
    let mut blob = Vec::new();
    blob.extend_from_slice(&1u64.to_le_bytes());
    blob.extend_from_slice(&1u64.to_le_bytes());
    blob.push(b'a');
    blob.extend_from_slice(&0u64.to_le_bytes());
    let mut log = encode(b"a", b"1");
    log.extend_from_slice(&encode(b"+index+", &blob));
    assert_eq!(store.log_since(0), log.as_slice());
    assert_eq!(store.offset_of(b"+index+"), Some(14));
}

#[test]
fn a_read_with_the_index_cache_takes_the_index_from_it() {
    let mut store = ActionKV::open(Vec::new());
    insert(b"a", b"1").execute(&mut store, true);
    store.insert(b"b", b"2").unwrap();
    let before = store.log_len();
    let report = get(b"b").execute(&mut store, true);
    assert_eq!(report, plain(Reply::Absent));
    assert_eq!(store.log_len(), before);
    assert_eq!(get(b"a").execute(&mut store, true), plain(Reply::Value(b"1".to_vec())));
}

#[test]
fn a_failed_delete_with_the_index_cache_still_flushes() {
    let mut store = ActionKV::open(Vec::new());
    let before = store.log_len();
    let report = Subcommands::Delete { key: b"a".to_vec() }.execute(&mut store, true);
    assert_eq!(
        report,
        Report {
            cache_read: Some(StoreError::NotFound),
            reply: Reply::Failed(StoreError::NotFound),
            cache_write: Some(Ok(())),
        }
    );
    assert_eq!(store.log_since(before), encode(b"+index+", &0u64.to_le_bytes()).as_slice());
}

#[test]
fn an_unreadable_cache_is_reported_and_the_operation_goes_on() {
    let mut store = ActionKV::open(Vec::new());
    store.insert(b"a", b"1").unwrap();
    store.insert(b"+index+", &[7]).unwrap();
    let report = get(b"a").execute(&mut store, true);
    assert_eq!(
        report,
        Report {
            cache_read: Some(StoreError::CacheDeserialize),
            reply: Reply::Value(b"1".to_vec()),
            cache_write: None,
        }
    );
}

#[test]
fn apply_leaves_the_index_cache_alone() {
    let mut store = ActionKV::open(Vec::new());
    assert_eq!(insert(b"a", b"1").apply(&mut store), Reply::Inserted);
    assert_eq!(store.log_since(0), encode(b"a", b"1").as_slice());
    assert_eq!(get(b"a").apply(&mut store), Reply::Value(b"1".to_vec()));
    assert_eq!(get(b"b").apply(&mut store), Reply::Absent);
}

#[test]
fn only_get_and_show_do_not_write() {
    assert!(!get(b"a").is_write());
    assert!(!Subcommands::Show { key: b"a".to_vec() }.is_write());
    assert!(insert(b"a", b"1").is_write());
    assert!(Subcommands::Update { key: b"a".to_vec(), value: Vec::new() }.is_write());
    assert!(Subcommands::Delete { key: b"a".to_vec() }.is_write());
}

#[test]
fn short_operations_fit() {
    assert!(get(b"").is_fit());
    assert!(insert(b"key", b"value").is_fit());
    assert!(Subcommands::Delete { key: vec![0; 70_000] }.is_fit());
    assert!(Subcommands::Update { key: vec![1], value: vec![0; 70_000] }.is_fit());
    assert!(Subcommands::Show { key: vec![1] }.is_fit());
}

#[test]
fn answer_of_names_each_outcome() {
    assert_eq!(answer_of(Ok(Some(vec![1, 2]))), Reply::Value(vec![1, 2]));
    assert_eq!(answer_of(Ok(None)), Reply::Absent);
    assert_eq!(answer_of(Err(StoreError::Corruption)), Reply::Failed(StoreError::Corruption));
}
