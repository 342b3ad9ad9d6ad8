//! The MDict fast stream cipher and the RIPEMD-128 digest that keys it.

use vstd::prelude::*;

verus! {

/// High and low nibble of a byte exchanged.
pub open spec fn swap_nibbles(b: u8) -> u8 {
    (b >> 4) | (b << 4)
}

/// One byte of the stream-cipher output: the nibble-swapped cipher byte,
/// XORed with the previous (pre-transform) cipher byte — 0x36 before the
/// first — the low byte of the index, and the key byte at `i mod |key|`.
pub open spec fn decrypt_byte(cipher: Seq<u8>, key: Seq<u8>, i: int) -> u8
    recommends
        0 <= i < cipher.len(),
        key.len() > 0,
{
    let prev: u8 = if i == 0 {
        0x36
    } else {
        cipher[i - 1]
    };
    swap_nibbles(cipher[i]) ^ prev ^ ((i % 256) as u8) ^ key[i % (key.len() as int)]
}

/// The whole decrypted stream.
pub open spec fn fast_decrypt_spec(cipher: Seq<u8>, key: Seq<u8>) -> Seq<u8> {
    Seq::new(cipher.len(), |i: int| decrypt_byte(cipher, key, i))
}

/// Decrypts MDict's fast stream cipher with the given key.
pub fn fast_decrypt(encrypted: &[u8], key: &[u8]) -> (r: Vec<u8>)
    requires
        key@.len() > 0,
    ensures
        r@ == fast_decrypt_spec(encrypted@, key@),
{
    let mut buf: Vec<u8> = Vec::new();
    let mut prev: u8 = 0x36;
    let n = encrypted.len();
    let klen = key.len();
    let mut i: usize = 0;
    while i < n
        invariant
            0 <= i <= n,
            n == encrypted@.len(),
            klen == key@.len(),
            klen > 0,
            buf@.len() == i,
            forall|j: int| 0 <= j < i ==> buf@[j] == decrypt_byte(encrypted@, key@, j),
            prev == if i == 0 {
                0x36u8
            } else {
                encrypted@[i - 1]
            },
        decreases n - i,
    {
        let c = encrypted[i];
        let t = (c >> 4) | (c << 4);
        let out = t ^ prev ^ ((i % 256) as u8) ^ key[i % klen];
        buf.push(out);
        prev = c;
        i = i + 1;
    }
    proof {
        assert(buf@ =~= fast_decrypt_spec(encrypted@, key@));
    }
    buf
}

/// The RIPEMD-128 digest of a byte sequence. The algorithm is not restated
/// here; the digest is a fixed function of its input, named so that contracts
/// can relate the key-derivation steps that share it.
pub uninterp spec fn ripemd128_of(data: Seq<u8>) -> Seq<u8>;

/// Relies on `ripemd::Ripemd128` through the `Digest` trait: a 16-byte digest
/// computed from the input bytes alone.
#[verifier::external_body]
pub(crate) fn ripemd128_digest(data: &[u8]) -> (r: Vec<u8>)
    ensures
        r@ == ripemd128_of(data@),
        r@.len() == 16,
{
    let digest = <ripemd::Ripemd128 as ripemd::Digest>::digest(data);
    digest.to_vec()
}

} // verus!
