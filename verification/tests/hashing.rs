use minigit::git::Git;
use minigit::hash::{digest, to_hex};

#[test]
fn known_blob_identifier() {
    let id = Git::get_hash(b"blob 11\0hello world");
    assert_eq!(id, b"95d09f2b10159347eece71399a7e2e907ea3df4f".to_vec());
}

#[test]
fn known_digest_vector() {
    assert_eq!(to_hex(digest(b"abc").as_slice()), b"a9993e364706816aba3e25717850c26c9cd0d89d".to_vec());
}

#[test]
fn digest_is_twenty_bytes() {
    assert_eq!(digest(b"").len(), 20);
    assert_eq!(digest(b"abc").len(), 20);
}

#[test]
fn hex_rendering_exact() {
    assert_eq!(to_hex(&[0x00, 0x01, 0xab, 0xff]), b"0001abff".to_vec());
}

#[test]
fn repeated_hashing_agrees() {
    assert!(Git::content_addressing_deterministic(b"hello world"));
    assert_eq!(Git::get_hash(b"same input"), Git::get_hash(b"same input"));
}

#[test]
fn distinct_content_distinct_digest() {
    assert_ne!(digest(b"a"), digest(b"b"));
    assert_ne!(Git::get_hash(b"hello world"), Git::get_hash(b"hello worle"));
}
