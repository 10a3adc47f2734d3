//! The blob codec: builds the canonical `blob <size>\0<content>` byte buffer
//! from raw bytes, and strips that header back off on read.

use crate::bytes::{append_bytes, find_byte, find_byte_from, lemma_find_byte_first_hit,
    lemma_find_byte_props};
use crate::error::GitError;
use vstd::prelude::*;

verus! {

/// The ASCII decimal digits of `n`, most significant first, no sign and no
/// leading zero (except for `n == 0` itself).
pub open spec fn dec_digits(n: nat) -> Seq<u8>
    decreases n,
{
    if n < 10 {
        seq![(48 + n) as u8]
    } else {
        dec_digits(n / 10).push((48 + n % 10) as u8)
    }
}

/// Every byte of a decimal rendering is an ASCII digit; in particular none
/// is the null byte.
pub proof fn lemma_dec_digits_are_digits(n: nat)
    ensures
        dec_digits(n).len() >= 1,
        forall|i: int| 0 <= i < dec_digits(n).len() ==> 48 <= #[trigger] dec_digits(n)[i] <= 57,
    decreases n,
{
    if n >= 10 {
        lemma_dec_digits_are_digits(n / 10);
    }
}

/// The object header for a blob payload of `n` bytes: `"blob "`, the decimal
/// length, and a null byte.
pub open spec fn blob_header(n: nat) -> Seq<u8> {
    seq![98u8, 108u8, 111u8, 98u8, 32u8] + dec_digits(n) + seq![0u8]
}

/// The encoded form of a blob: header followed by the raw bytes unchanged.
pub open spec fn blob_encoded(b: Seq<u8>) -> Seq<u8> {
    blob_header(b.len()) + b
}

/// What decoding stored blob bytes yields: everything after the first null
/// byte, or nothing when no null byte is present.
pub open spec fn blob_decode_spec(stored: Seq<u8>) -> Option<Seq<u8>> {
    match find_byte(stored, 0, 0u8) {
        Some(i) => Some(stored.subrange(i + 1, stored.len() as int)),
        None => None,
    }
}

/// Appends the ASCII decimal digits of `n` to `out`.
fn push_dec(out: &mut Vec<u8>, n: usize)
    ensures
        final(out)@ == old(out)@ + dec_digits(n as nat),
    decreases n,
{
    if n < 10 {
        out.push(48 + n as u8);
        proof {
            assert(old(out)@.push((48 + n as nat) as u8) =~= old(out)@ + dec_digits(n as nat));
        }
    } else {
        push_dec(out, n / 10);
        out.push(48 + (n % 10) as u8);
        proof {
            assert((old(out)@ + dec_digits((n / 10) as nat)).push((48 + (n % 10) as nat) as u8)
                =~= old(out)@ + dec_digits(n as nat));
        }
    }
}

/// Builds `"blob " + decimal(len(raw)) + "\0" + raw`.
pub fn blob_encode(raw: &[u8]) -> (r: Vec<u8>)
    ensures
        r@ == blob_encoded(raw@),
{
    let mut out: Vec<u8> = Vec::new();
    out.push(98);
    out.push(108);
    out.push(111);
    out.push(98);
    out.push(32);
    proof {
        assert(out@ =~= seq![98u8, 108u8, 111u8, 98u8, 32u8]);
    }
    push_dec(&mut out, raw.len());
    out.push(0);
    append_bytes(&mut out, raw);
    proof {
        assert(out@ =~= blob_encoded(raw@));
    }
    out
}

/// Strips the header off stored blob bytes: returns everything after the
/// first null byte, and fails when no null byte is present.
pub fn blob_decode(stored: &[u8]) -> (r: Result<Vec<u8>, GitError>)
    ensures
        match r {
            Ok(v) => blob_decode_spec(stored@) == Some(v@),
            Err(e) => e == GitError::MalformedObject && blob_decode_spec(stored@) is None,
        },
{
    match find_byte_from(stored, 0, 0) {
        Some(i) => {
            let n = stored.len();
            proof {
                lemma_find_byte_props(stored@, 0, 0u8);
                assert(i < n);
            }
            let tail = vstd::slice::slice_subrange(stored, i + 1, n);
            Ok(vstd::slice::slice_to_vec(tail))
        },
        None => Err(GitError::MalformedObject),
    }
}

/// What validated decoding yields: the bytes after the first null, provided
/// the whole buffer is exactly the blob encoding of those bytes — kind
/// `blob` and a declared length that matches the payload.
pub open spec fn blob_decode_validated_spec(stored: Seq<u8>) -> Option<Seq<u8>> {
    match blob_decode_spec(stored) {
        Some(payload) => if stored == blob_encoded(payload) {
            Some(payload)
        } else {
            None
        },
        None => None,
    }
}

/// Strips the header off stored blob bytes and validates it: the kind must
/// be `blob` and the declared decimal length must equal the payload's
/// actual length, else the object is malformed.
pub fn blob_decode_validated(stored: &[u8]) -> (r: Result<Vec<u8>, GitError>)
    ensures
        match r {
            Ok(v) => blob_decode_validated_spec(stored@) == Some(v@),
            Err(e) => e == GitError::MalformedObject && blob_decode_validated_spec(
                stored@,
            ) is None,
        },
{
    match blob_decode(stored) {
        Ok(payload) => {
            let reencoded = blob_encode(payload.as_slice());
            if crate::bytes::bytes_eq(reencoded.as_slice(), stored) {
                Ok(payload)
            } else {
                Err(GitError::MalformedObject)
            }
        },
        Err(e) => Err(e),
    }
}

/// Decoding an encoded blob returns exactly the original bytes, with or
/// without header validation.
pub proof fn lemma_blob_round_trip(b: Seq<u8>)
    ensures
        blob_decode_spec(blob_encoded(b)) == Some(b),
        blob_decode_validated_spec(blob_encoded(b)) == Some(b),
{
    let s = blob_encoded(b);
    let nul = 5 + dec_digits(b.len()).len() as int;
    lemma_dec_digits_are_digits(b.len());
    assert(s[nul] == 0u8);
    assert forall|j: int| 0 <= j < nul implies s[j] != 0u8 by {
        if j >= 5 {
            assert(s[j] == dec_digits(b.len())[j - 5]);
        }
    }
    lemma_find_byte_first_hit(s, 0, 0u8, nul);
    assert(s.subrange(nul + 1, s.len() as int) =~= b);
}

} // verus!
