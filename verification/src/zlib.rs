//! The compression codec: every object is persisted as the output of a
//! lossless deflate-family compressor over its encoded bytes.

use crate::error::GitError;
use std::io::Read;
use std::io::Write;
use vstd::pervasive::unreached;
use vstd::prelude::*;

verus! {

/// The compressed form of `b` under the codec's fixed default level: a
/// function of the input bytes alone.
pub uninterp spec fn compressed_of(b: Seq<u8>) -> Seq<u8>;

/// What inflating `b` yields: the decoded bytes for a valid compressed
/// stream, nothing for an invalid or truncated one. A function of the input
/// bytes alone.
pub uninterp spec fn inflated_of(b: Seq<u8>) -> Option<Seq<u8>>;

/// Relies on `flate2::write::ZlibEncoder` at the default level: compression
/// is a function of the input bytes alone, and is lossless, so inflating its
/// output returns the input. Writing into a `Vec` sink cannot fail.
#[verifier::external_body]
pub(crate) fn zlib_compress(data: &[u8]) -> (r: Vec<u8>)
    ensures
        r@ == compressed_of(data@),
        inflated_of(r@) == Some(data@),
{
    let mut encoder = flate2::write::ZlibEncoder::new(Vec::new(), flate2::Compression::default());
    encoder.write_all(data).unwrap();
    encoder.finish().unwrap()
}

/// Relies on `flate2::read::ZlibDecoder`: inflating is a function of the
/// input bytes alone; an invalid or truncated stream is reported as an
/// error, never silently returned as partial data.
#[verifier::external_body]
pub(crate) fn zlib_decompress(data: &[u8]) -> (r: Result<Vec<u8>, GitError>)
    ensures
        match inflated_of(data@) {
            Some(s) => r matches Ok(v) && v@ == s,
            None => r == Err::<Vec<u8>, GitError>(GitError::CorruptObject),
        },
{
    let mut decoder = flate2::read::ZlibDecoder::new(data);
    let mut out: Vec<u8> = Vec::new();
    match decoder.read_to_end(&mut out) {
        Ok(_) => Ok(out),
        Err(_) => Err(GitError::CorruptObject),
    }
}

/// Compresses `data` losslessly at the codec's fixed level.
pub fn compress(data: &[u8]) -> (r: Vec<u8>)
    ensures
        r@ == compressed_of(data@),
        inflated_of(r@) == Some(data@),
{
    zlib_compress(data)
}

/// Inflates a compressed stream, failing on an invalid or truncated one.
pub fn decompress(data: &[u8]) -> (r: Result<Vec<u8>, GitError>)
    ensures
        match inflated_of(data@) {
            Some(s) => r matches Ok(v) && v@ == s,
            None => r == Err::<Vec<u8>, GitError>(GitError::CorruptObject),
        },
{
    zlib_decompress(data)
}

/// Compressing and then decompressing returns the input unchanged, for
/// every byte sequence including the empty one.
pub fn compression_round_trip(data: &[u8]) -> (r: Vec<u8>)
    ensures
        r@ == data@,
{
    let compressed = compress(data);
    match decompress(compressed.as_slice()) {
        Ok(v) => v,
        Err(_) => unreached(),
    }
}

} // verus!
