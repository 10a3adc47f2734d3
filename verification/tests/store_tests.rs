use minigit::error::GitError;
use minigit::store::ObjectStore;

#[test]
fn write_is_idempotent() {
    let mut store = ObjectStore::new();
    let first = store.write(b"blob 4\0data");
    let second = store.write(b"blob 4\0data");
    assert_eq!(first, second);
    assert!(store.contains(first.as_slice()));
}

#[test]
fn read_blob() {
    let mut store = ObjectStore::new();
    let id = store.store_blob(b"hello world");
    assert_eq!(store.read_blob(id.as_slice()).unwrap(), b"hello world".to_vec());
}

#[test]
fn end_to_end_hello_world() {
    let mut store = ObjectStore::new();
    let id = store.store_blob(b"hello world");
    assert_eq!(id, b"95d09f2b10159347eece71399a7e2e907ea3df4f".to_vec());
    let raw = store.read_blob(id.as_slice()).unwrap();
    assert_eq!(raw, b"hello world".to_vec());
}

#[test]
fn read_returns_encoded_bytes() {
    let mut store = ObjectStore::new();
    let id = store.store_blob(b"hello world");
    let encoded = store.read(id.as_slice()).unwrap();
    assert_eq!(encoded, b"blob 11\0hello world".to_vec());
}

#[test]
fn missing_object_not_found() {
    let store = ObjectStore::new();
    let absent = b"0000000000000000000000000000000000000000";
    assert_eq!(store.read(absent), Err(GitError::ObjectNotFound));
    assert_eq!(store.read_blob(absent), Err(GitError::ObjectNotFound));
    assert!(!store.contains(absent));
}

#[test]
fn store_binary_blob_round_trip() {
    let mut store = ObjectStore::new();
    let raw = vec![0u8, 255, 1, 0, 32, 10];
    let id = store.store_blob(&raw);
    assert_eq!(store.read_blob(id.as_slice()).unwrap(), raw);
}

#[test]
fn distinct_content_stored_separately() {
    let mut store = ObjectStore::new();
    let a = store.store_blob(b"first");
    let b = store.store_blob(b"second");
    assert_ne!(a, b);
    assert_eq!(store.read_blob(a.as_slice()).unwrap(), b"first".to_vec());
    assert_eq!(store.read_blob(b.as_slice()).unwrap(), b"second".to_vec());
}
