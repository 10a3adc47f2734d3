//! The `Git` type: the object path resolver, the identifier computation,
//! and the single-record tree parser.

use crate::bytes::{bytes_eq, find_byte_from, lemma_find_byte_props};
use crate::error::GitError;
use crate::hash::{id_of, lemma_hex_of_len, sha1_of};
use crate::tree::{kind_of, parse_row, tree_mode, GitObjects, TreeEntry, TreeEntryModel};
use vstd::prelude::*;
use vstd::string::StrSliceExecFns;

verus! {

/// Relies on `String::push_str`: appends the characters of `suffix` to `s`.
#[verifier::external_body]
fn push_str(s: &mut String, suffix: &str)
    ensures
        final(s)@ == old(s)@ + suffix@,
{
    s.push_str(suffix)
}

/// Whether `mode` is the literal subtree mode `"40000"`.
fn mode_is_tree(mode: &[u8]) -> (r: bool)
    ensures
        r == (mode@ == tree_mode()),
{
    if mode.len() != 5 {
        proof {
            assert(mode@.len() != tree_mode().len());
        }
        return false;
    }
    let r = mode[0] == 52 && mode[1] == 48 && mode[2] == 48 && mode[3] == 48 && mode[4] == 48;
    proof {
        if r {
            assert(mode@ =~= tree_mode());
        } else {
            assert(mode@ != tree_mode()) by {
                if mode@ == tree_mode() {
                    assert(mode@[0] == 52u8);
                    assert(mode@[1] == 48u8);
                    assert(mode@[2] == 48u8);
                    assert(mode@[3] == 48u8);
                    assert(mode@[4] == 48u8);
                }
            }
        }
    }
    r
}

/// The object database facade: path resolution, content addressing, and
/// record-level tree parsing.
pub struct Git {}

impl Git {
    /// The two-level directory for an identifier: `".git/objects/"` plus its
    /// first two characters.
    pub fn get_object_dir_name_from_hash(hash: &str) -> (r: String)
        requires
            hash@.len() >= 2,
        ensures
            r@ == ".git/objects/"@ + hash@.subrange(0, 2),
    {
        let mut s = ".git/objects/".to_owned();
        let prefix = hash.substring_char(0, 2);
        push_str(&mut s, prefix);
        s
    }

    /// The file name for an identifier: everything after its first two
    /// characters.
    pub fn get_object_file_name_from_hash(hash: &str) -> (r: &str)
        requires
            hash@.len() >= 2,
        ensures
            r@ == hash@.subrange(2, hash@.len() as int),
    {
        let len = hash.unicode_len();
        hash.substring_char(2, len)
    }

    /// The full storage path for an identifier: directory, a slash, then the
    /// file name.
    pub fn get_object_path_from_hash(hash: &str) -> (r: String)
        requires
            hash@.len() >= 2,
        ensures
            r@ == ".git/objects/"@ + hash@.subrange(0, 2) + "/"@ + hash@.subrange(
                2,
                hash@.len() as int,
            ),
    {
        let mut s = Self::get_object_dir_name_from_hash(hash);
        push_str(&mut s, "/");
        push_str(&mut s, Self::get_object_file_name_from_hash(hash));
        s
    }

    /// Splits an identifier into its directory (first two characters) and
    /// file name (the rest), rejecting identifiers too short to resolve.
    pub fn path_for(identifier: &str) -> (r: Result<(String, String), GitError>)
        ensures
            identifier@.len() < 2 ==> r == Err::<(String, String), GitError>(
                GitError::InvalidIdentifier,
            ),
            identifier@.len() >= 2 ==> (r matches Ok(p) && p.0@ == identifier@.subrange(0, 2)
                && p.1@ == identifier@.subrange(2, identifier@.len() as int)),
    {
        let len = identifier.unicode_len();
        if len < 2 {
            return Err(GitError::InvalidIdentifier);
        }
        let dir = identifier.substring_char(0, 2).to_owned();
        let file = identifier.substring_char(2, len).to_owned();
        Ok((dir, file))
    }

    /// The 40-character lowercase hexadecimal identifier of encoded content:
    /// the hex rendering of its digest.
    pub fn get_hash(content: &[u8]) -> (r: Vec<u8>)
        ensures
            r@ == id_of(content@),
            r@.len() == 40,
    {
        let d = crate::hash::digest(content);
        let h = crate::hash::to_hex(d.as_slice());
        proof {
            lemma_hex_of_len(sha1_of(content@));
        }
        h
    }

    /// Hashing the same bytes twice yields the same identifier: content
    /// addressing is deterministic.
    pub fn content_addressing_deterministic(x: &[u8]) -> (agree: bool)
        ensures
            agree,
    {
        let first = Self::get_hash(x);
        let second = Self::get_hash(x);
        bytes_eq(first.as_slice(), second.as_slice())
    }

    /// Parses the single record that starts at `starting_byte`: the mode up
    /// to a space, the name up to a null byte, then exactly 20 hash bytes.
    /// Returns the offset just past the record together with the entry, or
    /// fails when a delimiter is missing or the hash is cut short.
    pub fn parse_tree_object_row(starting_byte: usize, bytes: &Vec<u8>) -> (r: Result<
        (usize, TreeEntry),
        GitError,
    >)
        requires
            starting_byte <= bytes@.len(),
        ensures
            match r {
                Ok((next, entry)) => parse_row(bytes@, starting_byte as int) == Some(
                    (next as int, entry@),
                ) && starting_byte < next <= bytes@.len(),
                Err(err) => err == GitError::MalformedObject && parse_row(
                    bytes@,
                    starting_byte as int,
                ) is None,
            },
    {
        let n = bytes.len();
        let sp = match find_byte_from(bytes.as_slice(), starting_byte, 32) {
            Some(sp) => sp,
            None => {
                return Err(GitError::MalformedObject);
            },
        };
        proof {
            lemma_find_byte_props(bytes@, starting_byte as int, 32u8);
            assert(sp < n);
        }
        let nul = match find_byte_from(bytes.as_slice(), sp + 1, 0) {
            Some(nul) => nul,
            None => {
                return Err(GitError::MalformedObject);
            },
        };
        proof {
            lemma_find_byte_props(bytes@, sp + 1, 0u8);
            assert(nul < n);
        }
        if n - nul < 21 {
            return Err(GitError::MalformedObject);
        }
        let mode = vstd::slice::slice_to_vec(
            vstd::slice::slice_subrange(bytes.as_slice(), starting_byte, sp),
        );
        let name = vstd::slice::slice_to_vec(
            vstd::slice::slice_subrange(bytes.as_slice(), sp + 1, nul),
        );
        let sha = vstd::slice::slice_to_vec(
            vstd::slice::slice_subrange(bytes.as_slice(), nul + 1, nul + 21),
        );
        let file_type = if mode_is_tree(mode.as_slice()) {
            GitObjects::Tree
        } else {
            GitObjects::Blob
        };
        let entry = TreeEntry { mode, file_type, sha_hash: sha, file_name: name };
        proof {
            assert(entry@.file_type == kind_of(bytes@.subrange(
                starting_byte as int,
                sp as int,
            )));
            assert(parse_row(bytes@, starting_byte as int) == Some(
                ((nul + 21) as int, entry@),
            ));
        }
        Ok((nul + 21, entry))
    }
}

} // verus!
