//! Adler-32, the rolling checksum that the MDX format stores at four layers
//! (header text, key-block meta, key-block info, and each compressed block).

use vstd::prelude::*;

verus! {

/// Modulus of both Adler-32 state words.
pub const ADLER_MOD: u32 = 65521;

/// Low word of the checksum: 1 plus the sum of all bytes, mod 65521.
pub open spec fn adler_a(s: Seq<u8>) -> int
    decreases s.len(),
{
    if s.len() == 0 {
        1
    } else {
        (adler_a(s.drop_last()) + s.last()) % (ADLER_MOD as int)
    }
}

/// High word of the checksum: the running sum of all low words, mod 65521.
pub open spec fn adler_b(s: Seq<u8>) -> int
    decreases s.len(),
{
    if s.len() == 0 {
        0
    } else {
        (adler_b(s.drop_last()) + adler_a(s)) % (ADLER_MOD as int)
    }
}

/// The Adler-32 checksum of a byte sequence.
pub open spec fn adler32_spec(s: Seq<u8>) -> u32 {
    (adler_b(s) * 0x10000 + adler_a(s)) as u32
}

proof fn lemma_adler_words_in_range(s: Seq<u8>)
    ensures
        0 <= adler_a(s) < ADLER_MOD,
        0 <= adler_b(s) < ADLER_MOD,
    decreases s.len(),
{
    if s.len() > 0 {
        lemma_adler_words_in_range(s.drop_last());
    }
}

/// Computes the Adler-32 checksum of `data`.
pub fn adler32(data: &[u8]) -> (r: u32)
    ensures
        r == adler32_spec(data@),
{
    let mut a: u32 = 1;
    let mut b: u32 = 0;
    let mut i: usize = 0;
    while i < data.len()
        invariant
            0 <= i <= data@.len(),
            a == adler_a(data@.subrange(0, i as int)),
            b == adler_b(data@.subrange(0, i as int)),
            a < ADLER_MOD,
            b < ADLER_MOD,
        decreases data@.len() - i,
    {
        a = (a + data[i] as u32) % ADLER_MOD;
        b = (b + a) % ADLER_MOD;
        proof {
            assert(data@.subrange(0, i + 1).drop_last() =~= data@.subrange(0, i as int));
            assert(data@.subrange(0, i + 1).last() == data@[i as int]);
        }
        i = i + 1;
    }
    proof {
        assert(data@.subrange(0, data@.len() as int) =~= data@);
    }
    b * 0x10000 + a
}

/// True exactly when `contents` hashes to the expected checksum.
pub fn adler32_checksum(contents: &[u8], checksum: u32) -> (r: bool)
    ensures
        r == (adler32_spec(contents@) == checksum),
{
    adler32(contents) == checksum
}

} // verus!
