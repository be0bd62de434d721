//! The compression pass, done by the `flate2` crate.
//!
//! Nothing in this file is proved: the two functions below call `flate2`,
//! and their contracts say what this library takes that crate to do.

use flate2::read::ZlibDecoder;
use flate2::write::ZlibEncoder;
use flate2::Compression;
use std::io::Read;
use std::io::Write;
use vstd::prelude::*;

verus! {

/// What `flate2`'s zlib encoder, at its default level, makes of `data`:
/// the compressed stream, or `None` if it reports an error.
pub uninterp spec fn zlib_compressed(data: Seq<u8>) -> Option<Seq<u8>>;

/// What `flate2`'s zlib decoder yields when asked for the inflated bytes of
/// `stream`, `limit` of them at most: those bytes, or `None` if the stream is
/// damaged or breaks off before its end.
pub uninterp spec fn zlib_inflated(stream: Seq<u8>, limit: nat) -> Option<Seq<u8>>;

/// The bytes of an optional buffer.
pub open spec fn bytes_of(r: Option<Vec<u8>>) -> Option<Seq<u8>> {
    match r {
        Some(v) => Some(v@),
        None => None,
    }
}

/// Compresses `data` in one pass with `flate2::write::ZlibEncoder` at
/// `Compression::default()`, writing into memory.
///
/// Taken on trust: the result depends on `data` alone, and the stream that
/// the encoder made of `data` inflates back to exactly `data`.
#[verifier::external_body]
pub(crate) fn compress(data: &[u8]) -> (r: Option<Vec<u8>>)
    ensures
        bytes_of(r) == zlib_compressed(data@),
        r matches Some(out) ==> zlib_inflated(out@, data@.len()) == Some(data@),
{
    let mut encoder = ZlibEncoder::new(Vec::new(), Compression::default());
    encoder.write_all(data).ok()?;
    encoder.finish().ok()
}

/// Inflates `stream` with `flate2::read::ZlibDecoder`, reading through
/// `std::io::Read::take` until the inflated data ends or `limit` bytes have
/// come out.
///
/// Taken on trust: the result depends on `stream` and `limit` alone.
#[verifier::external_body]
pub(crate) fn inflate(stream: &[u8], limit: usize) -> (r: Option<Vec<u8>>)
    ensures
        bytes_of(r) == zlib_inflated(stream@, limit as nat),
{
    let mut out = Vec::new();
    match ZlibDecoder::new(stream).take(limit as u64).read_to_end(&mut out) {
        Ok(_) => Some(out),
        Err(_) => None,
    }
}

} // verus!
