//! The persistent storage of a runtime.

use polkadot_re_mock::store::{bytes_eq, Storage};

#[test]
fn a_fresh_storage_holds_nothing() {
    let storage = Storage::new();
    assert_eq!(storage.get(b"k"), None);
    assert_eq!(storage.get(b""), None);
}

#[test]
fn what_was_written_is_read() {
    let mut storage = Storage::new();
    assert!(!storage.insert(b"k".to_vec(), b"v".to_vec()));
    assert_eq!(storage.get(b"k"), Some(&b"v".to_vec()));
    assert_eq!(storage.get(b"other"), None);
}

#[test]
fn a_second_write_replaces_the_first() {
    let mut storage = Storage::new();
    assert!(!storage.insert(b"k".to_vec(), b"v".to_vec()));
    assert!(storage.insert(b"k".to_vec(), b"w".to_vec()));
    assert_eq!(storage.get(b"k"), Some(&b"w".to_vec()));
}

#[test]
fn keys_do_not_disturb_each_other() {
    let mut storage = Storage::new();
    storage.insert(b"a".to_vec(), b"1".to_vec());
    storage.insert(b"ab".to_vec(), b"2".to_vec());
    storage.insert(Vec::new(), b"3".to_vec());
    storage.insert(b"a".to_vec(), b"4".to_vec());
    assert_eq!(storage.get(b"a"), Some(&b"4".to_vec()));
    assert_eq!(storage.get(b"ab"), Some(&b"2".to_vec()));
    assert_eq!(storage.get(b""), Some(&b"3".to_vec()));
    assert_eq!(storage.get(b"b"), None);
}

#[test]
fn bytes_eq_compares_length_and_bytes() {
    assert!(bytes_eq(b"", b""));
    assert!(bytes_eq(b"abc", b"abc"));
    assert!(!bytes_eq(b"abc", b"abd"));
    assert!(!bytes_eq(b"abc", b"ab"));
    assert!(!bytes_eq(b"", b"a"));
}
