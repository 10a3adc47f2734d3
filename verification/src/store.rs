//! The object store: persists a fully encoded object, compressed, under its
//! content-derived identifier, and loads it back losslessly. Objects are
//! immutable once written; writing existing content again is a no-op.

use crate::blob::{blob_decode, blob_decode_spec, blob_encode, blob_encoded, lemma_blob_round_trip};
use crate::error::GitError;
use crate::git::Git;
use crate::hash::id_of;
use crate::zlib::{compress, compressed_of, decompress, inflated_of};
use vstd::pervasive::unreached;
use vstd::prelude::*;

verus! {

/// One stored object: its identifier, its compressed bytes, and — as ghost
/// information — the encoded content it was written with.
struct StoredObject {
    id: Vec<u8>,
    data: Vec<u8>,
    content: Ghost<Seq<u8>>,
}

impl StoredObject {
    /// The identifier addresses the content, and the data is its compressed
    /// form, which inflates back to the content.
    spec fn wf(&self) -> bool {
        &&& self.id@ == id_of(self.content@)
        &&& self.data@ == compressed_of(self.content@)
        &&& inflated_of(self.data@) == Some(self.content@)
    }
}

/// The store's mapping after `content` is written: unchanged when its
/// identifier is already present (the idempotent no-op), else extended by
/// the identifier and the content.
pub open spec fn store_after_write(m: Map<Seq<u8>, Seq<u8>>, content: Seq<u8>) -> Map<
    Seq<u8>,
    Seq<u8>,
> {
    if m.contains_key(id_of(content)) {
        m
    } else {
        m.insert(id_of(content), content)
    }
}

/// Writing identical bytes twice stores the object once: the second write
/// changes nothing (and, the identifier being a function of the content
/// alone, it returns the same identifier).
pub proof fn lemma_write_idempotent(m: Map<Seq<u8>, Seq<u8>>, content: Seq<u8>)
    ensures
        store_after_write(store_after_write(m, content), content) == store_after_write(m, content),
{
    assert(store_after_write(m, content).contains_key(id_of(content)));
}

/// Writing a blob into a store that does not yet hold its identifier, then
/// decoding what that identifier maps to, returns the raw bytes exactly.
pub proof fn lemma_store_blob_round_trip(m: Map<Seq<u8>, Seq<u8>>, raw: Seq<u8>)
    ensures
        ({
            let id = id_of(blob_encoded(raw));
            let after = store_after_write(m, blob_encoded(raw));
            !m.contains_key(id) ==> after.contains_key(id) && blob_decode_spec(after[id])
                == Some(raw)
        }),
{
    lemma_blob_round_trip(raw);
}

/// The in-memory object store, one compressed object per identifier.
pub struct ObjectStore {
    objects: Vec<StoredObject>,
}

impl ObjectStore {
    /// The stored mapping: each identifier to the (uncompressed) encoded
    /// bytes written under it.
    pub closed spec fn as_map(&self) -> Map<Seq<u8>, Seq<u8>> {
        Self::map_of(self.objects@)
    }

    spec fn map_of(s: Seq<StoredObject>) -> Map<Seq<u8>, Seq<u8>>
        decreases s.len(),
    {
        if s.len() == 0 {
            Map::empty()
        } else {
            Self::map_of(s.drop_last()).insert(s.last().id@, s.last().content@)
        }
    }

    /// Every entry is well formed and identifiers are pairwise distinct.
    pub closed spec fn wf(&self) -> bool {
        &&& (forall|i: int| 0 <= i < self.objects@.len() ==> (#[trigger] self.objects@[i]).wf())
        &&& (forall|i: int, j: int|
            0 <= i < j < self.objects@.len() ==> self.objects@[i].id@ != self.objects@[j].id@)
    }

    /// With pairwise distinct identifiers, the mapping holds exactly the
    /// entries' identifiers, each bound to that entry's content.
    proof fn lemma_map_of_props(s: Seq<StoredObject>)
        requires
            forall|i: int, j: int| 0 <= i < j < s.len() ==> s[i].id@ != s[j].id@,
        ensures
            forall|k: Seq<u8>|
                #[trigger] Self::map_of(s).contains_key(k) <==> (exists|i: int|
                    0 <= i < s.len() && s[i].id@ == k),
            forall|i: int|
                0 <= i < s.len() ==> Self::map_of(s)[#[trigger] s[i].id@] == s[i].content@,
        decreases s.len(),
    {
        if s.len() > 0 {
            let t = s.drop_last();
            Self::lemma_map_of_props(t);
            let last = s.last();
            assert forall|k: Seq<u8>| #[trigger]
                Self::map_of(s).contains_key(k) implies (exists|i: int|
                0 <= i < s.len() && s[i].id@ == k) by {
                if k == last.id@ {
                    assert(s[s.len() - 1].id@ == k);
                } else {
                    assert(Self::map_of(t).contains_key(k));
                    let i = choose|i: int| 0 <= i < t.len() && t[i].id@ == k;
                    assert(s[i].id@ == k);
                }
            }
            assert forall|k: Seq<u8>| (exists|i: int|
                0 <= i < s.len() && s[i].id@ == k) implies #[trigger] Self::map_of(
                s,
            ).contains_key(k) by {
                let i = choose|i: int| 0 <= i < s.len() && s[i].id@ == k;
                if i < s.len() - 1 {
                    assert(t[i].id@ == k);
                    assert(Self::map_of(t).contains_key(k));
                }
            }
            assert forall|i: int| 0 <= i < s.len() implies Self::map_of(s)[#[trigger] s[i].id@]
                == s[i].content@ by {
                if i < s.len() - 1 {
                    assert(s[i].id@ != last.id@);
                    assert(Self::map_of(s)[s[i].id@] == Self::map_of(t)[t[i].id@]);
                }
            }
        }
    }

    /// Creates an empty store.
    pub fn new() -> (r: ObjectStore)
        ensures
            r.wf(),
            r.as_map() == Map::<Seq<u8>, Seq<u8>>::empty(),
    {
        ObjectStore { objects: Vec::new() }
    }

    /// The position of the entry stored under `id`, if any.
    fn find_index(&self, id: &[u8]) -> (r: Option<usize>)
        ensures
            match r {
                Some(i) => i < self.objects@.len() && self.objects@[i as int].id@ == id@,
                None => forall|j: int|
                    0 <= j < self.objects@.len() ==> self.objects@[j].id@ != id@,
            },
    {
        let mut i: usize = 0;
        while i < self.objects.len()
            invariant
                i <= self.objects@.len(),
                forall|j: int| 0 <= j < i ==> self.objects@[j].id@ != id@,
            decreases self.objects@.len() - i,
        {
            if crate::bytes::bytes_eq(self.objects[i].id.as_slice(), id) {
                return Some(i);
            }
            i = i + 1;
        }
        None
    }

    /// Whether an object is stored under `id`.
    pub fn contains(&self, id: &[u8]) -> (r: bool)
        requires
            self.wf(),
        ensures
            r == self.as_map().contains_key(id@),
    {
        proof {
            Self::lemma_map_of_props(self.objects@);
        }
        match self.find_index(id) {
            Some(_) => true,
            None => false,
        }
    }

    /// Computes the identifier over the exact bytes given, compresses them,
    /// and persists the compressed bytes under the identifier. Writing an
    /// object that already exists leaves the store unchanged; the
    /// identifier is returned either way.
    pub fn write(&mut self, content: &[u8]) -> (id: Vec<u8>)
        requires
            old(self).wf(),
        ensures
            final(self).wf(),
            id@ == id_of(content@),
            final(self).as_map() == store_after_write(old(self).as_map(), content@),
    {
        let id = Git::get_hash(content);
        proof {
            Self::lemma_map_of_props(self.objects@);
        }
        match self.find_index(id.as_slice()) {
            Some(_) => {
                proof {
                    assert(self.as_map().contains_key(id@));
                }
                id
            },
            None => {
                let data = compress(content);
                let stored_id = vstd::slice::slice_to_vec(id.as_slice());
                self.objects.push(
                    StoredObject { id: stored_id, data, content: Ghost(content@) },
                );
                proof {
                    assert(!old(self).as_map().contains_key(id@));
                    assert(self.objects@.drop_last() =~= old(self).objects@);
                    assert(self.objects@.last().id@ == id@);
                    assert(self.as_map() == old(self).as_map().insert(id@, content@));
                    assert forall|i: int| 0 <= i < self.objects@.len() implies (
                    #[trigger] self.objects@[i]).wf() by {
                        if i < self.objects@.len() - 1 {
                            assert(self.objects@[i] == old(self).objects@[i]);
                        }
                    }
                }
                id
            },
        }
    }

    /// Loads the object stored under `id` and returns its original
    /// (uncompressed) encoded bytes, exactly as written.
    pub fn read(&self, id: &[u8]) -> (r: Result<Vec<u8>, GitError>)
        requires
            self.wf(),
        ensures
            match r {
                Ok(v) => self.as_map().contains_key(id@) && v@ == self.as_map()[id@],
                Err(e) => e == GitError::ObjectNotFound && !self.as_map().contains_key(id@),
            },
    {
        proof {
            Self::lemma_map_of_props(self.objects@);
        }
        match self.find_index(id) {
            Some(i) => {
                let obj = &self.objects[i];
                match decompress(obj.data.as_slice()) {
                    Ok(v) => Ok(v),
                    Err(_) => unreached(),
                }
            },
            None => Err(GitError::ObjectNotFound),
        }
    }

    /// Encodes raw bytes as a blob object and stores it; the identifier
    /// addresses the encoded `blob <size>\0` form.
    pub fn store_blob(&mut self, raw: &[u8]) -> (id: Vec<u8>)
        requires
            old(self).wf(),
        ensures
            final(self).wf(),
            id@ == id_of(blob_encoded(raw@)),
            final(self).as_map() == store_after_write(old(self).as_map(), blob_encoded(raw@)),
    {
        let encoded = blob_encode(raw);
        self.write(encoded.as_slice())
    }

    /// Reads the object under `id` and strips its blob header, returning
    /// the raw content bytes.
    pub fn read_blob(&self, id: &[u8]) -> (r: Result<Vec<u8>, GitError>)
        requires
            self.wf(),
        ensures
            match r {
                Ok(v) => self.as_map().contains_key(id@) && blob_decode_spec(
                    self.as_map()[id@],
                ) == Some(v@),
                Err(e) => {
                    &&& (e == GitError::ObjectNotFound || e == GitError::MalformedObject)
                    &&& e == GitError::ObjectNotFound ==> !self.as_map().contains_key(id@)
                    &&& e == GitError::MalformedObject ==> self.as_map().contains_key(id@)
                        && blob_decode_spec(self.as_map()[id@]) is None
                },
            },
    {
        match self.read(id) {
            Ok(stored) => blob_decode(stored.as_slice()),
            Err(e) => Err(e),
        }
    }
}

} // verus!
