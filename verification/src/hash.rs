//! The hash engine: a stable 20-byte digest over a byte buffer, and its
//! rendering as a 40-character lowercase hexadecimal identifier.

use sha1::{Digest, Sha1};
use vstd::prelude::*;

verus! {

/// The 20-byte digest that the hash engine computes over `b`: a function of
/// the input bytes alone.
pub uninterp spec fn sha1_of(b: Seq<u8>) -> Seq<u8>;

/// The lowercase hexadecimal digit (as an ASCII byte) for a nibble.
pub open spec fn hex_digit(n: u8) -> u8 {
    if n < 10 {
        (48 + n) as u8
    } else {
        (87 + n) as u8
    }
}

/// The lowercase hexadecimal rendering of a byte sequence: two digits per
/// byte, high nibble first.
pub open spec fn hex_of(b: Seq<u8>) -> Seq<u8>
    decreases b.len(),
{
    if b.len() == 0 {
        Seq::empty()
    } else {
        seq![hex_digit(b[0] / 16), hex_digit(b[0] % 16)] + hex_of(b.drop_first())
    }
}

/// The object identifier of encoded content: the hex rendering of its digest.
pub open spec fn id_of(content: Seq<u8>) -> Seq<u8> {
    hex_of(sha1_of(content))
}

/// A hex rendering holds two digits for each input byte.
pub proof fn lemma_hex_of_len(b: Seq<u8>)
    ensures
        hex_of(b).len() == 2 * b.len(),
    decreases b.len(),
{
    if b.len() > 0 {
        lemma_hex_of_len(b.drop_first());
    }
}

/// Relies on `sha1::Sha1` (through the `Digest` trait): a fixed 20-byte
/// digest computed from the input bytes alone.
#[verifier::external_body]
pub(crate) fn sha1_digest(data: &[u8]) -> (r: Vec<u8>)
    ensures
        r@ == sha1_of(data@),
        r@.len() == 20,
{
    let mut hasher = Sha1::new();
    hasher.update(data);
    hasher.finalize().to_vec()
}

/// Relies on `hex::encode`: each byte becomes two lowercase hexadecimal
/// digits, high nibble first.
#[verifier::external_body]
pub(crate) fn hex_encode(data: &[u8]) -> (r: Vec<u8>)
    ensures
        r@ == hex_of(data@),
{
    hex::encode(data).into_bytes()
}

/// The 20-byte digest of `data`.
pub fn digest(data: &[u8]) -> (r: Vec<u8>)
    ensures
        r@ == sha1_of(data@),
        r@.len() == 20,
{
    sha1_digest(data)
}

/// The lowercase hexadecimal rendering of `data`.
pub fn to_hex(data: &[u8]) -> (r: Vec<u8>)
    ensures
        r@ == hex_of(data@),
{
    hex_encode(data)
}

} // verus!
