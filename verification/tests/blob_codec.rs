use minigit::blob::{blob_decode, blob_decode_validated, blob_encode};
use minigit::error::GitError;

#[test]
fn encode_exact_bytes() {
    let encoded = blob_encode(b"hello world");
    assert_eq!(encoded, b"blob 11\0hello world".to_vec());
}

#[test]
fn encode_empty() {
    let encoded = blob_encode(b"");
    assert_eq!(encoded, b"blob 0\0".to_vec());
}

#[test]
fn round_trip_simple() {
    let raw = b"hello world".to_vec();
    let decoded = blob_decode(blob_encode(&raw).as_slice()).unwrap();
    assert_eq!(decoded, raw);
}

#[test]
fn round_trip_empty() {
    let raw: Vec<u8> = Vec::new();
    let decoded = blob_decode(blob_encode(&raw).as_slice()).unwrap();
    assert_eq!(decoded, raw);
}

#[test]
fn round_trip_binary_content() {
    let raw = vec![0u8, 1, 2, 255, 0, 32, 10, 13];
    let decoded = blob_decode(blob_encode(&raw).as_slice()).unwrap();
    assert_eq!(decoded, raw);
}

#[test]
fn decode_without_null_is_malformed() {
    assert_eq!(blob_decode(b"no null byte here"), Err(GitError::MalformedObject));
}

#[test]
fn decode_splits_at_first_null() {
    assert_eq!(blob_decode(b"blob 3\0a\0b"), Ok(b"a\0b".to_vec()));
}

#[test]
fn validated_decode_accepts_encoded() {
    assert_eq!(blob_decode_validated(b"blob 11\0hello world"), Ok(b"hello world".to_vec()));
    assert_eq!(blob_decode_validated(b"blob 0\0"), Ok(Vec::new()));
}

#[test]
fn validated_decode_rejects_wrong_length() {
    assert_eq!(blob_decode_validated(b"blob 5\0abc"), Err(GitError::MalformedObject));
}

#[test]
fn validated_decode_rejects_wrong_kind() {
    assert_eq!(blob_decode_validated(b"tree 3\0abc"), Err(GitError::MalformedObject));
}
