use actionkv::index::{bytes_of, same_bytes, Index};

#[test]
fn new_index_is_empty() {
    let index = Index::new();
    assert_eq!(index.len(), 0);
    assert_eq!(index.lookup(b"a"), None);
    assert!(index.snapshot().is_empty());
}

#[test]
fn set_overwrites() {
    let mut index = Index::new();
    index.set(b"a", 0);
    index.set(b"b", 14);
    index.set(b"a", 28);
    assert_eq!(index.len(), 2);
    assert_eq!(index.lookup(b"a"), Some(28));
    assert_eq!(index.lookup(b"b"), Some(14));
    assert_eq!(index.lookup(b"c"), None);
}

#[test]
fn remove_gives_the_offset_once() {
    let mut index = Index::new();
    index.set(b"a", 5);
    index.set(b"b", 6);
    assert_eq!(index.remove(b"a"), Some(5));
    assert_eq!(index.remove(b"a"), None);
    assert_eq!(index.lookup(b"a"), None);
    assert_eq!(index.lookup(b"b"), Some(6));
    assert_eq!(index.len(), 1);
}

#[test]
fn keys_are_compared_byte_by_byte() {
    let mut index = Index::new();
    index.set(b"", 1);
    index.set(b"a", 2);
    index.set(b"ab", 3);
    index.set(&[0], 4);
    assert_eq!(index.lookup(b""), Some(1));
    assert_eq!(index.lookup(b"a"), Some(2));
    assert_eq!(index.lookup(b"ab"), Some(3));
    assert_eq!(index.lookup(&[0]), Some(4));
    assert_eq!(index.lookup(b"b"), None);
}

#[test]
fn snapshot_lists_each_key_once() {
    let mut index = Index::new();
    index.set(b"a", 1);
    index.set(b"b", 2);
    index.set(b"a", 3);
    let mut mapping = index.snapshot();
    mapping.sort();
    assert_eq!(mapping, vec![(b"a".to_vec(), 3), (b"b".to_vec(), 2)]);
}

#[test]
fn replace_takes_the_last_entry_of_a_key() {
    let mut index = Index::new();
    index.set(b"gone", 9);
    index.replace(vec![(b"a".to_vec(), 1), (b"b".to_vec(), 2), (b"a".to_vec(), 3)]);
    assert_eq!(index.len(), 2);
    assert_eq!(index.lookup(b"a"), Some(3));
    assert_eq!(index.lookup(b"b"), Some(2));
    assert_eq!(index.lookup(b"gone"), None);
}

#[test]
fn same_bytes_compares_contents() {
    assert!(same_bytes(b"", b""));
    assert!(same_bytes(b"abc", b"abc"));
    assert!(!same_bytes(b"abc", b"abd"));
    assert!(!same_bytes(b"abc", b"ab"));
    assert!(!same_bytes(b"", b"a"));
}

#[test]
fn bytes_of_copies() {
    assert_eq!(bytes_of(b"abc"), b"abc".to_vec());
    assert_eq!(bytes_of(b""), Vec::<u8>::new());
}
