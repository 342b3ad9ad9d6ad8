//! Decompression of MDX block payloads: zlib deflate and LZO1X.

use vstd::prelude::*;

verus! {

/// What expanding a zlib stream yields: the decompressed bytes, or nothing
/// when the stream is not a well-formed zlib stream. The result is a fixed
/// function of the input bytes.
pub uninterp spec fn inflate_of(src: Seq<u8>) -> Option<Seq<u8>>;

/// Relies on `flate2::read::ZlibDecoder` (with `Read::read_to_end`):
/// expanding a zlib stream held wholly in memory depends on the input bytes
/// alone, and so does whether the expansion fails.
#[verifier::external_body]
pub fn zlib_inflate(src: &[u8]) -> (r: Option<Vec<u8>>)
    ensures
        match r {
            Some(v) => inflate_of(src@) == Some(v@),
            None => inflate_of(src@) is None,
        },
{
    let mut out: Vec<u8> = Vec::new();
    let mut decoder = flate2::read::ZlibDecoder::new(src);
    match std::io::Read::read_to_end(&mut decoder, &mut out) {
        Ok(_) => Some(out),
        Err(_) => None,
    }
}

/// What LZO1X decompression into a buffer of `dst_len` bytes yields, or
/// nothing when the stream is rejected. A fixed function of its arguments.
pub uninterp spec fn lzo_of(src: Seq<u8>, dst_len: nat) -> Option<Seq<u8>>;

/// Relies on `minilzo_rs::LZO::{init, decompress_safe}`: LZO1X decompression
/// into a buffer of exactly `dst_len` bytes, a fixed function of the input;
/// the vector handed back on success has length `dst_len`.
#[verifier::external_body]
pub(crate) fn lzo_decompress(src: &[u8], dst_len: usize) -> (r: Option<Vec<u8>>)
    ensures
        match r {
            Some(v) => lzo_of(src@, dst_len as nat) == Some(v@) && v@.len() == dst_len,
            None => lzo_of(src@, dst_len as nat) is None,
        },
{
    let lzo = match minilzo_rs::LZO::init() {
        Ok(l) => l,
        Err(_) => return None,
    };
    match lzo.decompress_safe(src, dst_len) {
        Ok(v) => Some(v),
        Err(_) => None,
    }
}

} // verus!
