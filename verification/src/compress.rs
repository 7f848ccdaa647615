//! Object payload compression. Payloads are zlib-compressed before they are
//! handed out for storage and decompressed when they come back.

use vstd::prelude::*;
use std::io::{Read, Write};

verus! {

/// What zlib decompression returns on a byte sequence: `None` where the
/// bytes are not a well-formed stream. A function of the bytes alone.
pub uninterp spec fn zlib_inflate(b: Seq<u8>) -> Option<Seq<u8>>;

/// Relies on `flate2::write::ZlibEncoder` with a `Vec<u8>` sink (whose
/// `Write` impl never fails): compression is lossless, so decompressing the
/// result yields the input again.
#[verifier::external_body]
pub fn compress_bytes(b: &[u8]) -> (r: Vec<u8>)
    ensures
        zlib_inflate(r@) == Some(b@),
{
    let mut encoder = flate2::write::ZlibEncoder::new(Vec::new(), flate2::Compression::default());
    if encoder.write_all(b).is_err() {
        return Vec::new();
    }
    match encoder.finish() {
        Ok(v) => v,
        Err(_) => Vec::new(),
    }
}

/// Relies on `flate2::read::ZlibDecoder`: decompression is a function of the
/// compressed bytes alone, failing exactly on malformed streams.
#[verifier::external_body]
pub fn decompress_bytes(b: &[u8]) -> (r: Option<Vec<u8>>)
    ensures
        match r {
            Some(v) => zlib_inflate(b@) == Some(v@),
            None => zlib_inflate(b@) is None,
        },
{
    let mut decoder = flate2::read::ZlibDecoder::new(b);
    let mut out = Vec::new();
    match decoder.read_to_end(&mut out) {
        Ok(_) => Some(out),
        Err(_) => None,
    }
}

} // verus!
