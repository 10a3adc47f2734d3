use minigit::error::GitError;
use minigit::git::Git;

#[test]
fn resolves_directory_and_file() {
    let id = "e69de29bb2d1d6434b8b29ae775ad8c2e48c5391";
    let (dir, file) = Git::path_for(id).unwrap();
    assert_eq!(dir, "e6");
    assert_eq!(file, "9de29bb2d1d6434b8b29ae775ad8c2e48c5391");
}

#[test]
fn object_dir_and_file_names() {
    let id = "e69de29bb2d1d6434b8b29ae775ad8c2e48c5391";
    assert_eq!(Git::get_object_dir_name_from_hash(id), ".git/objects/e6");
    assert_eq!(Git::get_object_file_name_from_hash(id), "9de29bb2d1d6434b8b29ae775ad8c2e48c5391");
    assert_eq!(
        Git::get_object_path_from_hash(id),
        ".git/objects/e6/9de29bb2d1d6434b8b29ae775ad8c2e48c5391"
    );
}

#[test]
fn short_identifier_rejected() {
    assert_eq!(Git::path_for(""), Err(GitError::InvalidIdentifier));
    assert_eq!(Git::path_for("e"), Err(GitError::InvalidIdentifier));
}
