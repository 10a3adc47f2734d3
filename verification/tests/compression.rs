use minigit::error::GitError;
use minigit::zlib::{compress, compression_round_trip, decompress};

#[test]
fn round_trip_data() {
    let data = b"the quick brown fox jumps over the lazy dog".to_vec();
    let inflated = decompress(compress(&data).as_slice()).unwrap();
    assert_eq!(inflated, data);
}

#[test]
fn compress_round_trip_empty() {
    let data: Vec<u8> = Vec::new();
    let inflated = decompress(compress(&data).as_slice()).unwrap();
    assert_eq!(inflated, data);
}

#[test]
fn round_trip_binary() {
    let mut data: Vec<u8> = Vec::new();
    let mut i: u32 = 0;
    while i < 1000 {
        data.push((i % 251) as u8);
        i += 1;
    }
    assert_eq!(compression_round_trip(&data), data);
}

#[test]
fn compress_actually_transforms() {
    // The compressed form of an empty input is a non-empty stream: the
    // codec never hands its input back unchanged.
    assert!(!compress(b"").is_empty());
}

#[test]
fn garbage_stream_is_corrupt() {
    assert_eq!(decompress(b"this is not a zlib stream"), Err(GitError::CorruptObject));
}

#[test]
fn truncated_stream_is_corrupt() {
    let compressed = compress(b"some content that will be cut off mid-stream");
    let truncated = &compressed[..compressed.len() / 2];
    assert_eq!(decompress(truncated), Err(GitError::CorruptObject));
}
