//! The tree codec: a decoded tree payload is an ordered sequence of entries,
//! each self-delimiting — ASCII decimal mode up to a space, name up to a
//! null byte, then exactly 20 raw hash bytes. End of payload is the only
//! terminator; a partial trailing record is an error, never dropped.

use crate::bytes::{find_byte, lemma_find_byte_first_hit, lemma_find_byte_props};
use crate::error::GitError;
use crate::git::Git;
use vstd::prelude::*;

verus! {

/// The kind of object a tree entry points at, derived from its mode string.
#[derive(Clone, Copy, Debug, PartialEq, Eq, Structural)]
pub enum GitObjects {
    Tree,
    Blob,
}

/// One decoded tree entry: the mode text kept verbatim, the derived kind,
/// the 20 raw digest bytes, and the name bytes.
#[derive(Debug)]
pub struct TreeEntry {
    pub mode: Vec<u8>,
    pub file_type: GitObjects,
    pub sha_hash: Vec<u8>,
    pub file_name: Vec<u8>,
}

/// The mathematical value of a tree entry.
pub struct TreeEntryModel {
    pub mode: Seq<u8>,
    pub file_type: GitObjects,
    pub sha_hash: Seq<u8>,
    pub file_name: Seq<u8>,
}

impl View for TreeEntry {
    type V = TreeEntryModel;

    open spec fn view(&self) -> TreeEntryModel {
        TreeEntryModel {
            mode: self.mode@,
            file_type: self.file_type,
            sha_hash: self.sha_hash@,
            file_name: self.file_name@,
        }
    }
}

/// The models of a sequence of entries, in order.
pub open spec fn views_of(s: Seq<TreeEntry>) -> Seq<TreeEntryModel> {
    s.map_values(|e: TreeEntry| e@)
}

/// The literal mode bytes `"40000"`, the one mode that denotes a subtree.
pub open spec fn tree_mode() -> Seq<u8> {
    seq![52u8, 48u8, 48u8, 48u8, 48u8]
}

/// The kind a mode string denotes: `"40000"` is a subtree, every other mode
/// a blob.
pub open spec fn kind_of(mode: Seq<u8>) -> GitObjects {
    if mode == tree_mode() {
        GitObjects::Tree
    } else {
        GitObjects::Blob
    }
}

/// What parsing one record at offset `i` yields: the offset just past the
/// record and its entry, or nothing when a delimiter is missing or fewer
/// than 20 bytes follow the null.
pub open spec fn parse_row(b: Seq<u8>, i: int) -> Option<(int, TreeEntryModel)> {
    match find_byte(b, i, 32u8) {
        None => None,
        Some(sp) => match find_byte(b, sp + 1, 0u8) {
            None => None,
            Some(nul) => if nul + 21 <= b.len() {
                Some(
                    (
                        nul + 21,
                        TreeEntryModel {
                            mode: b.subrange(i, sp),
                            file_type: kind_of(b.subrange(i, sp)),
                            sha_hash: b.subrange(nul + 1, nul + 21),
                            file_name: b.subrange(sp + 1, nul),
                        },
                    ),
                )
            } else {
                None
            },
        },
    }
}

/// A parsed record always makes progress and never runs past the payload,
/// and its hash holds exactly 20 bytes.
pub proof fn lemma_parse_row_bounds(b: Seq<u8>, i: int)
    requires
        0 <= i,
    ensures
        parse_row(b, i) matches Some((j, e)) ==> i < j <= b.len() && e.sha_hash.len() == 20,
{
    lemma_find_byte_props(b, i, 32u8);
    match find_byte(b, i, 32u8) {
        Some(sp) => {
            lemma_find_byte_props(b, sp + 1, 0u8);
        },
        None => {},
    }
}

/// What parsing the whole payload from offset `i` yields: the records in
/// order, exactly when the payload is consumed record by record down to its
/// very end; nothing as soon as one record is malformed.
pub open spec fn parse_tree_from(b: Seq<u8>, i: int) -> Option<Seq<TreeEntryModel>>
    decreases b.len() - i,
        when 0 <= i <= b.len()
        via parse_tree_from_decreases
{
    if i == b.len() {
        Some(Seq::empty())
    } else {
        match parse_row(b, i) {
            None => None,
            Some((j, e)) => match parse_tree_from(b, j) {
                None => None,
                Some(rest) => Some(seq![e] + rest),
            },
        }
    }
}

#[via_fn]
proof fn parse_tree_from_decreases(b: Seq<u8>, i: int) {
    if 0 <= i < b.len() {
        lemma_parse_row_bounds(b, i);
    }
}

/// Decodes a tree payload (already stripped of any header) into its ordered
/// entries, failing on any malformed or truncated record.
pub fn tree_decode(payload: &Vec<u8>) -> (r: Result<Vec<TreeEntry>, GitError>)
    ensures
        match r {
            Ok(entries) => parse_tree_from(payload@, 0) == Some(views_of(entries@)),
            Err(e) => e == GitError::MalformedObject && parse_tree_from(payload@, 0) is None,
        },
{
    let ghost b = payload@;
    let mut entries: Vec<TreeEntry> = Vec::new();
    let mut idx: usize = 0;
    while idx < payload.len()
        invariant
            idx <= b.len(),
            b == payload@,
            (match parse_tree_from(b, idx as int) {
                Some(rest) => parse_tree_from(b, 0) == Some(views_of(entries@) + rest),
                None => parse_tree_from(b, 0) is None,
            }),
        decreases b.len() - idx,
    {
        match Git::parse_tree_object_row(idx, payload) {
            Ok((next, entry)) => {
                proof {
                    let e = entry@;
                    let j = next as int;
                    assert(parse_tree_from(b, idx as int) == (match parse_tree_from(b, j) {
                        None => None::<Seq<TreeEntryModel>>,
                        Some(rest) => Some(seq![e] + rest),
                    }));
                    assert(views_of(entries@.push(entry)) =~= views_of(entries@).push(e));
                    match parse_tree_from(b, j) {
                        Some(rest) => {
                            assert(views_of(entries@) + (seq![e] + rest) =~= views_of(
                                entries@.push(entry),
                            ) + rest);
                        },
                        None => {},
                    }
                }
                entries.push(entry);
                idx = next;
            },
            Err(_) => {
                return Err(GitError::MalformedObject);
            },
        }
    }
    proof {
        assert(parse_tree_from(b, idx as int) == Some(Seq::<TreeEntryModel>::empty()));
        assert(views_of(entries@) + Seq::<TreeEntryModel>::empty() =~= views_of(entries@));
    }
    Ok(entries)
}

/// A payload whose last record is cut off before its 20 hash bytes — the
/// mode and name delimiters are found, but fewer than 20 bytes follow the
/// null — is rejected whole: no partial entry is ever returned.
pub proof fn lemma_truncated_tree_rejected(b: Seq<u8>, i: int, sp: int, nul: int)
    requires
        0 <= i,
        find_byte(b, i, 32u8) == Some(sp),
        find_byte(b, sp + 1, 0u8) == Some(nul),
        b.len() < nul + 21,
    ensures
        parse_tree_from(b, i) is None,
{
    lemma_find_byte_props(b, i, 32u8);
}

/// The encoded bytes of one entry: mode, space, name, null, then the 20
/// hash bytes.
pub open spec fn encode_entry(e: TreeEntryModel) -> Seq<u8> {
    e.mode + seq![32u8] + e.file_name + seq![0u8] + e.sha_hash
}

/// The encoded bytes of a whole tree: the entries' encodings concatenated
/// in the given order, with no count prefix and no terminator.
pub open spec fn encode_tree(s: Seq<TreeEntryModel>) -> Seq<u8>
    decreases s.len(),
{
    if s.len() == 0 {
        Seq::empty()
    } else {
        encode_entry(s[0]) + encode_tree(s.drop_first())
    }
}

/// Appending one entry to a tree appends its encoding to the tree's bytes.
pub proof fn lemma_encode_tree_snoc(s: Seq<TreeEntryModel>, e: TreeEntryModel)
    ensures
        encode_tree(s.push(e)) == encode_tree(s) + encode_entry(e),
    decreases s.len(),
{
    assert(s.push(e)[0] == if s.len() == 0 { e } else { s[0] });
    if s.len() == 0 {
        assert(s.push(e).drop_first() =~= Seq::<TreeEntryModel>::empty());
        assert(encode_tree(s.push(e)) == encode_entry(e) + encode_tree(
            Seq::<TreeEntryModel>::empty(),
        ));
        assert(encode_entry(e) + Seq::<u8>::empty() =~= encode_entry(e));
        assert(encode_tree(s) == Seq::<u8>::empty());
        assert(Seq::<u8>::empty() + encode_entry(e) =~= encode_entry(e));
    } else {
        assert(s.push(e).drop_first() =~= s.drop_first().push(e));
        lemma_encode_tree_snoc(s.drop_first(), e);
        assert(encode_tree(s.push(e)) == encode_entry(s[0]) + (encode_tree(s.drop_first())
            + encode_entry(e)));
        assert(encode_tree(s) == encode_entry(s[0]) + encode_tree(s.drop_first()));
        assert(encode_entry(s[0]) + (encode_tree(s.drop_first()) + encode_entry(e)) =~= (
        encode_entry(s[0]) + encode_tree(s.drop_first())) + encode_entry(e));
    }
}

/// What an entry must satisfy for its encoding to decode back to itself:
/// the mode holds no space byte, the name holds no null byte, the hash is
/// exactly 20 bytes, and the kind is the one its mode denotes.
pub open spec fn entry_encodable(e: TreeEntryModel) -> bool {
    &&& !e.mode.contains(32u8)
    &&& !e.file_name.contains(0u8)
    &&& e.sha_hash.len() == 20
    &&& e.file_type == kind_of(e.mode)
}

proof fn lemma_tree_round_trip_from(b: Seq<u8>, i: int, s: Seq<TreeEntryModel>)
    requires
        0 <= i <= b.len(),
        b.subrange(i, b.len() as int) == encode_tree(s),
        forall|k: int| 0 <= k < s.len() ==> entry_encodable(#[trigger] s[k]),
    ensures
        parse_tree_from(b, i) == Some(s),
    decreases s.len(),
{
    let suffix = b.subrange(i, b.len() as int);
    if s.len() == 0 {
        assert(suffix.len() == 0);
        assert(i == b.len());
    } else {
        let e = s[0];
        let rest = s.drop_first();
        assert(entry_encodable(e));
        assert(suffix == encode_entry(e) + encode_tree(rest));
        let mode_len = e.mode.len() as int;
        let name_len = e.file_name.len() as int;
        let sp = i + mode_len;
        let nul = sp + 1 + name_len;
        let j = nul + 21;
        assert(encode_entry(e).len() == mode_len + 1 + name_len + 1 + 20);
        assert(j - i <= suffix.len());
        assert forall|k: int| i <= k < sp implies b[k] != 32u8 by {
            assert(suffix[k - i] == e.mode[k - i]);
            assert(!(exists|m: int| 0 <= m < e.mode.len() && e.mode[m] == 32u8));
        }
        assert(b[sp] == suffix[sp - i]);
        assert(suffix[mode_len] == 32u8);
        lemma_find_byte_first_hit(b, i, 32u8, sp);
        assert forall|k: int| sp + 1 <= k < nul implies b[k] != 0u8 by {
            assert(suffix[k - i] == e.file_name[k - (sp + 1)]);
            assert(!(exists|m: int| 0 <= m < e.file_name.len() && e.file_name[m] == 0u8));
        }
        assert(b[nul] == suffix[nul - i]);
        assert(suffix[mode_len + 1 + name_len] == 0u8);
        lemma_find_byte_first_hit(b, sp + 1, 0u8, nul);
        assert(b.subrange(i, sp) =~= e.mode);
        assert forall|t: int| 0 <= t < name_len implies b.subrange(sp + 1, nul)[t]
            == e.file_name[t] by {
            assert(b.subrange(sp + 1, nul)[t] == b[sp + 1 + t]);
            assert(b[sp + 1 + t] == suffix[mode_len + 1 + t]);
            assert(suffix[mode_len + 1 + t] == e.file_name[t]);
        }
        assert(b.subrange(sp + 1, nul) =~= e.file_name);
        assert forall|t: int| 0 <= t < 20 implies b.subrange(nul + 1, nul + 21)[t]
            == e.sha_hash[t] by {
            assert(b.subrange(nul + 1, nul + 21)[t] == b[nul + 1 + t]);
            assert(b[nul + 1 + t] == suffix[mode_len + 1 + name_len + 1 + t]);
            assert(suffix[mode_len + 1 + name_len + 1 + t] == e.sha_hash[t]);
        }
        assert(b.subrange(nul + 1, nul + 21) =~= e.sha_hash);
        assert(parse_row(b, i) == Some(
            (
                j,
                TreeEntryModel {
                    mode: e.mode,
                    file_type: kind_of(e.mode),
                    sha_hash: e.sha_hash,
                    file_name: e.file_name,
                },
            ),
        ));
        assert(parse_row(b, i) == Some((j, e)));
        assert forall|t: int| 0 <= t < b.len() - j implies b.subrange(j, b.len() as int)[t]
            == encode_tree(rest)[t] by {
            assert(b.subrange(j, b.len() as int)[t] == b[j + t]);
            assert(b[j + t] == suffix[(j - i) + t]);
            assert(suffix[encode_entry(e).len() + t] == encode_tree(rest)[t]);
        }
        assert(b.subrange(j, b.len() as int) =~= encode_tree(rest));
        lemma_tree_round_trip_from(b, j, rest);
        assert(seq![e] + rest =~= s);
    }
}

/// Decoding an encoded tree returns exactly the given entries, in order,
/// provided every entry is encodable.
pub proof fn lemma_tree_round_trip(s: Seq<TreeEntryModel>)
    requires
        forall|k: int| 0 <= k < s.len() ==> entry_encodable(#[trigger] s[k]),
    ensures
        parse_tree_from(encode_tree(s), 0) == Some(s),
{
    let b = encode_tree(s);
    assert(b.subrange(0, b.len() as int) =~= b);
    lemma_tree_round_trip_from(b, 0, s);
}

/// Encodes entries back to payload bytes: the inverse concatenation of the
/// same three fields per record, in the given order.
pub fn tree_encode(entries: &Vec<TreeEntry>) -> (r: Vec<u8>)
    ensures
        r@ == encode_tree(views_of(entries@)),
{
    let mut out: Vec<u8> = Vec::new();
    let mut i: usize = 0;
    while i < entries.len()
        invariant
            i <= entries@.len(),
            out@ == encode_tree(views_of(entries@).take(i as int)),
        decreases entries@.len() - i,
    {
        let ghost before = out@;
        let entry = &entries[i];
        crate::bytes::append_bytes(&mut out, entry.mode.as_slice());
        out.push(32);
        crate::bytes::append_bytes(&mut out, entry.file_name.as_slice());
        out.push(0);
        crate::bytes::append_bytes(&mut out, entry.sha_hash.as_slice());
        proof {
            assert(out@ =~= before + encode_entry(entries@[i as int]@));
            assert(views_of(entries@).take(i as int).push(entries@[i as int]@) =~= views_of(
                entries@,
            ).take(i + 1));
            lemma_encode_tree_snoc(views_of(entries@).take(i as int), entries@[i as int]@);
        }
        i = i + 1;
    }
    proof {
        assert(views_of(entries@).take(entries@.len() as int) =~= views_of(entries@));
    }
    out
}

} // verus!
