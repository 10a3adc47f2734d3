//! Byte-level helpers shared by the codecs: delimiter search, comparison,
//! and concatenation.

use vstd::prelude::*;

verus! {

/// The index of the first occurrence of `target` in `b` at or after `from`,
/// if there is one.
pub open spec fn find_byte(b: Seq<u8>, from: int, target: u8) -> Option<int>
    decreases b.len() - from,
{
    if from < 0 || from >= b.len() {
        None
    } else if b[from] == target {
        Some(from)
    } else {
        find_byte(b, from + 1, target)
    }
}

/// What `find_byte` returns: a hit is the first occurrence at or after
/// `from`; a miss means no occurrence at or after `from`.
pub proof fn lemma_find_byte_props(b: Seq<u8>, from: int, target: u8)
    requires
        0 <= from,
    ensures
        match find_byte(b, from, target) {
            Some(k) => from <= k < b.len() && b[k] == target && (forall|j: int|
                from <= j < k ==> b[j] != target),
            None => forall|j: int| from <= j < b.len() ==> b[j] != target,
        },
    decreases b.len() - from,
{
    if from < b.len() && b[from] != target {
        lemma_find_byte_props(b, from + 1, target);
    }
}

/// `find_byte` finds exactly the first occurrence: if `b[k] == target` and
/// nothing before `k` (at or after `from`) matches, the search from `from`
/// lands on `k`.
pub proof fn lemma_find_byte_first_hit(b: Seq<u8>, from: int, target: u8, k: int)
    requires
        0 <= from <= k < b.len(),
        b[k] == target,
        forall|j: int| from <= j < k ==> b[j] != target,
    ensures
        find_byte(b, from, target) == Some(k),
    decreases k - from,
{
    if from < k {
        lemma_find_byte_first_hit(b, from + 1, target, k);
    }
}

/// The first occurrence of `target` in `b` at or after `from`, scanning
/// forward one byte at a time.
pub fn find_byte_from(bytes: &[u8], from: usize, target: u8) -> (r: Option<usize>)
    requires
        from <= bytes@.len(),
    ensures
        match r {
            Some(k) => find_byte(bytes@, from as int, target) == Some(k as int),
            None => find_byte(bytes@, from as int, target) is None,
        },
{
    let mut i: usize = from;
    while i < bytes.len()
        invariant
            from <= i <= bytes@.len(),
            find_byte(bytes@, from as int, target) == find_byte(bytes@, i as int, target),
        decreases bytes@.len() - i,
    {
        if bytes[i] == target {
            return Some(i);
        }
        i = i + 1;
    }
    None
}

/// Whether two byte slices hold the same bytes.
pub fn bytes_eq(a: &[u8], b: &[u8]) -> (r: bool)
    ensures
        r == (a@ == b@),
{
    if a.len() != b.len() {
        return false;
    }
    let mut i: usize = 0;
    while i < a.len()
        invariant
            0 <= i <= a@.len(),
            a@.len() == b@.len(),
            forall|j: int| 0 <= j < i ==> a@[j] == b@[j],
        decreases a@.len() - i,
    {
        if a[i] != b[i] {
            return false;
        }
        i = i + 1;
    }
    proof {
        assert(a@ =~= b@);
    }
    true
}

/// Appends every byte of `src` to `dst`, in order.
pub fn append_bytes(dst: &mut Vec<u8>, src: &[u8])
    ensures
        final(dst)@ == old(dst)@ + src@,
{
    let mut i: usize = 0;
    while i < src.len()
        invariant
            0 <= i <= src@.len(),
            dst@ == old(dst)@ + src@.subrange(0, i as int),
        decreases src@.len() - i,
    {
        dst.push(src[i]);
        proof {
            assert(old(dst)@ + src@.subrange(0, i as int) + seq![src@[i as int]] =~= old(
                dst,
            )@ + src@.subrange(0, i + 1));
        }
        i = i + 1;
    }
    proof {
        assert(src@.subrange(0, src@.len() as int) =~= src@);
    }
}

} // verus!
