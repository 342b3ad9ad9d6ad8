//! Decoding of one compressed MDX block, as both key blocks and record
//! blocks store it: a four-byte tag (low nibble: compression method, high
//! nibble: encryption method), a big-endian Adler-32 of the decompressed
//! payload, then the payload bytes.

use vstd::prelude::*;

use crate::MdxError;
use crate::checksum::{adler32_checksum, adler32_spec};
use crate::compress::{inflate_of, lzo_decompress, lzo_of, zlib_inflate};
use crate::crypto::{fast_decrypt, fast_decrypt_spec, ripemd128_digest, ripemd128_of};
use crate::unpack::{be_val, le_val_first, lemma_be_val_bound, lemma_le_val_first_bound, pow256,
    read_be_at, read_le_u32_at};

verus! {

/// What decoding one block yields: the verified decompressed payload, or the
/// error that stops it. `dsize` is the decompressed size announced by the
/// enclosing size table (LZO needs it). An LZO body that only decompresses
/// after a leading `0xF0` byte is stripped — a framing some writers emit —
/// is tolerated.
pub open spec fn block_decode_spec(block: Seq<u8>, dsize: nat) -> Result<Seq<u8>, MdxError> {
    if block.len() < 8 {
        Err(MdxError::Malformed)
    } else {
        let tag = le_val_first(block.subrange(0, 4)) as u32;
        let expected = be_val(block.subrange(4, 8)) as u32;
        let enc_method = (tag >> 4) & 0xf;
        let comp_method = tag & 0xf;
        let body = block.skip(8);
        if enc_method != 0 && enc_method != 1 {
            Err(MdxError::Unsupported)
        } else {
            let data = if enc_method == 0 {
                body
            } else {
                fast_decrypt_spec(body, ripemd128_of(block.subrange(4, 8)))
            };
            let payload = if comp_method == 0 {
                Ok(data)
            } else if comp_method == 1 {
                match lzo_of(data, dsize) {
                    Some(p) => Ok(p),
                    None => if data.len() > 0 && data[0] == 0xF0 {
                        match lzo_of(data.skip(1), dsize) {
                            Some(p) => Ok(p),
                            None => Err(MdxError::Decompress),
                        }
                    } else {
                        Err(MdxError::Decompress)
                    },
                }
            } else if comp_method == 2 {
                match inflate_of(data) {
                    Some(p) => Ok(p),
                    None => Err(MdxError::Decompress),
                }
            } else {
                Err(MdxError::Unsupported)
            };
            match payload {
                Ok(p) => if adler32_spec(p) == expected {
                    Ok(p)
                } else {
                    Err(MdxError::ChecksumMismatch)
                },
                Err(e) => Err(e),
            }
        }
    }
}

/// Decodes one block: reads the tag, decrypts (method 1: stream cipher keyed
/// by the RIPEMD-128 digest of the checksum bytes), decompresses (stored,
/// LZO — framed or not — or deflate), and verifies the payload against the
/// stored Adler-32. An LZO payload always comes back with exactly the
/// announced decompressed size.
pub fn decode_block(block: &[u8], dsize: usize) -> (r: Result<Vec<u8>, MdxError>)
    ensures
        match r {
            Ok(v) => {
                &&& block_decode_spec(block@, dsize as nat) == Ok::<Seq<u8>, MdxError>(v@)
                &&& block@.len() >= 8
                &&& adler32_spec(v@) == be_val(block@.subrange(4, 8))
                &&& (le_val_first(block@.subrange(0, 4)) as u32) & 0xf == 1 ==> v@.len() == dsize
            },
            Err(e) => block_decode_spec(block@, dsize as nat) == Err::<Seq<u8>, MdxError>(e),
        },
{
    if block.len() < 8 {
        return Err(MdxError::Malformed);
    }
    let tag = read_le_u32_at(block, 0);
    let expected64 = read_be_at(block, 4, 4);
    proof {
        lemma_le_val_first_bound(block@.subrange(0, 4));
        lemma_be_val_bound(block@.subrange(4, 8));
        reveal_with_fuel(pow256, 5);
    }
    let expected = expected64 as u32;
    let enc_method = (tag >> 4) & 0xf;
    let comp_method = tag & 0xf;
    let body = vstd::slice::slice_subrange(block, 8, block.len());
    proof {
        assert(body@ =~= block@.skip(8));
    }
    if enc_method != 0 && enc_method != 1 {
        return Err(MdxError::Unsupported);
    }
    let data: Vec<u8> = if enc_method == 0 {
        vstd::slice::slice_to_vec(body)
    } else {
        let checksum_bytes = vstd::slice::slice_subrange(block, 4, 8);
        let key = ripemd128_digest(checksum_bytes);
        fast_decrypt(body, key.as_slice())
    };
    let payload: Vec<u8> = if comp_method == 0 {
        data
    } else if comp_method == 1 {
        match lzo_decompress(data.as_slice(), dsize) {
            Some(p) => p,
            None => {
                if data.len() > 0 && data[0] == 0xF0 {
                    let unframed = vstd::slice::slice_subrange(data.as_slice(), 1, data.len());
                    proof {
                        assert(unframed@ =~= data@.skip(1));
                    }
                    match lzo_decompress(unframed, dsize) {
                        Some(p) => p,
                        None => return Err(MdxError::Decompress),
                    }
                } else {
                    return Err(MdxError::Decompress);
                }
            },
        }
    } else if comp_method == 2 {
        match zlib_inflate(data.as_slice()) {
            Some(p) => p,
            None => return Err(MdxError::Decompress),
        }
    } else {
        return Err(MdxError::Unsupported);
    };
    if adler32_checksum(payload.as_slice(), expected) {
        Ok(payload)
    } else {
        Err(MdxError::ChecksumMismatch)
    }
}

} // verus!
