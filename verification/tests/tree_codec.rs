use minigit::error::GitError;
use minigit::git::Git;
use minigit::render::render_entries;
use minigit::tree::{tree_decode, tree_encode, GitObjects, TreeEntry};

fn two_entry_payload() -> Vec<u8> {
    let mut payload: Vec<u8> = Vec::new();
    payload.extend_from_slice(b"100644 file.txt\0");
    payload.extend_from_slice(&[0u8; 20]);
    payload.extend_from_slice(b"40000 subdir\0");
    payload.extend_from_slice(&[1u8; 20]);
    payload
}

#[test]
fn decode_two_entries_exactly() {
    let payload = two_entry_payload();
    let entries = tree_decode(&payload).unwrap();
    assert_eq!(entries.len(), 2);

    assert_eq!(entries[0].mode, b"100644".to_vec());
    assert_eq!(entries[0].file_type, GitObjects::Blob);
    assert_eq!(entries[0].file_name, b"file.txt".to_vec());
    assert_eq!(entries[0].sha_hash, vec![0u8; 20]);

    assert_eq!(entries[1].mode, b"40000".to_vec());
    assert_eq!(entries[1].file_type, GitObjects::Tree);
    assert_eq!(entries[1].file_name, b"subdir".to_vec());
    assert_eq!(entries[1].sha_hash, vec![1u8; 20]);

    let lines = render_entries(&entries, true);
    assert_eq!(lines, vec![b"file.txt".to_vec(), b"subdir".to_vec()]);
}

#[test]
fn decode_empty_payload() {
    let entries = tree_decode(&Vec::new()).unwrap();
    assert_eq!(entries.len(), 0);
}

#[test]
fn truncated_hash_is_malformed() {
    let mut payload: Vec<u8> = Vec::new();
    payload.extend_from_slice(b"100644 file.txt\0");
    payload.extend_from_slice(&[0u8; 19]);
    assert_eq!(tree_decode(&payload).unwrap_err(), GitError::MalformedObject);
}

#[test]
fn partial_trailing_record_is_malformed() {
    // A well-formed first record followed by a record cut off mid-hash must
    // fail whole, never return just the first entry.
    let mut payload = two_entry_payload();
    payload.truncate(payload.len() - 5);
    assert_eq!(tree_decode(&payload).unwrap_err(), GitError::MalformedObject);
}

#[test]
fn missing_space_is_malformed() {
    let payload = b"100644".to_vec();
    assert_eq!(tree_decode(&payload).unwrap_err(), GitError::MalformedObject);
}

#[test]
fn missing_null_is_malformed() {
    let payload = b"100644 file.txt".to_vec();
    assert_eq!(tree_decode(&payload).unwrap_err(), GitError::MalformedObject);
}

#[test]
fn row_parser_reports_offsets() {
    let payload = two_entry_payload();
    let (next, entry) = Git::parse_tree_object_row(0, &payload).unwrap();
    assert_eq!(next, 36);
    assert_eq!(entry.mode, b"100644".to_vec());
    assert_eq!(entry.file_type, GitObjects::Blob);
    let (end, second) = Git::parse_tree_object_row(next, &payload).unwrap();
    assert_eq!(end, payload.len());
    assert_eq!(second.file_type, GitObjects::Tree);
}

#[test]
fn encode_inverts_decode() {
    let payload = two_entry_payload();
    let entries = tree_decode(&payload).unwrap();
    assert_eq!(tree_encode(&entries), payload);
}

#[test]
fn decode_inverts_encode() {
    let entries = vec![
        TreeEntry {
            mode: b"100755".to_vec(),
            file_type: GitObjects::Blob,
            sha_hash: vec![7u8; 20],
            file_name: b"run.sh".to_vec(),
        },
        TreeEntry {
            mode: b"40000".to_vec(),
            file_type: GitObjects::Tree,
            sha_hash: vec![9u8; 20],
            file_name: b"nested dir".to_vec(),
        },
    ];
    let decoded = tree_decode(&tree_encode(&entries)).unwrap();
    assert_eq!(decoded.len(), 2);
    assert_eq!(decoded[0].mode, entries[0].mode);
    assert_eq!(decoded[0].file_type, entries[0].file_type);
    assert_eq!(decoded[0].sha_hash, entries[0].sha_hash);
    assert_eq!(decoded[0].file_name, entries[0].file_name);
    assert_eq!(decoded[1].mode, entries[1].mode);
    assert_eq!(decoded[1].file_type, entries[1].file_type);
    assert_eq!(decoded[1].sha_hash, entries[1].sha_hash);
    assert_eq!(decoded[1].file_name, entries[1].file_name);
}

#[test]
fn render_long_form() {
    let payload = two_entry_payload();
    let entries = tree_decode(&payload).unwrap();
    let lines = render_entries(&entries, false);
    let mut first = b"100644 blob ".to_vec();
    first.extend_from_slice(b"0000000000000000000000000000000000000000");
    first.extend_from_slice(b" file.txt");
    let mut second = b"40000 tree ".to_vec();
    second.extend_from_slice(b"0101010101010101010101010101010101010101");
    second.extend_from_slice(b" subdir");
    assert_eq!(lines, vec![first, second]);
}
