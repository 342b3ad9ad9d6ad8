//! The key section of an MDX file: the meta record (counts and lengths), the
//! key-block info table (per-block compressed/decompressed sizes, optionally
//! encrypted and deflated), and the key blocks themselves, which decompress
//! to `(offset, headword)` records.

use vstd::prelude::*;

use crate::MdxError;
use crate::block::{block_decode_spec, decode_block};
use crate::checksum::{adler32_checksum, adler32_spec};
use crate::compress::{inflate_of, zlib_inflate};
use crate::crypto::{fast_decrypt, fast_decrypt_spec, ripemd128_digest, ripemd128_of};
use crate::header::{Header, HeaderModel, Version, key_info_encrypted_model};
use crate::text::{decode_with_label, whatwg_decoded};
use crate::unpack::{be_val, lemma_be_val_bound, pow256, read_be_at};

verus! {

/// The key-section meta record: how many key blocks and entries follow, and
/// how long the info table and the block region are.
#[derive(Clone, Copy, Debug, PartialEq, Eq, Structural)]
pub struct KeyBlockHeader {
    pub block_num: usize,
    pub entry_num: usize,
    /// Decompressed length of the info table (V2 only; V1 stores it raw).
    pub key_block_info_decompressed_len: usize,
    pub key_block_info_len: usize,
    pub key_blocks_len: usize,
}

/// Compressed and decompressed size of one key block.
#[derive(Clone, Copy, Debug, PartialEq, Eq, Structural)]
pub struct KeyBlockSize {
    pub csize: usize,
    pub dsize: usize,
}

/// One entry of the catalog: a headword and the offset of its record in the
/// virtual concatenation of all decompressed record blocks.
#[derive(Debug)]
pub struct RecordDeBufOffset {
    pub text: String,
    pub record_offset_in_debuf: usize,
}

/// Mathematical image of a [`RecordDeBufOffset`].
pub struct RecordDeBufOffsetModel {
    pub text: Seq<char>,
    pub record_offset_in_debuf: int,
}

impl View for RecordDeBufOffset {
    type V = RecordDeBufOffsetModel;

    open spec fn view(&self) -> RecordDeBufOffsetModel {
        RecordDeBufOffsetModel {
            text: self.text@,
            record_offset_in_debuf: self.record_offset_in_debuf as int,
        }
    }
}

/// The models of a sequence of entries.
pub open spec fn entries_view(v: Seq<RecordDeBufOffset>) -> Seq<RecordDeBufOffsetModel> {
    v.map_values(|e: RecordDeBufOffset| e@)
}

/// What parsing the key-section meta record yields: bytes consumed and the
/// meta record, or the error that stops the parse. V1 stores four big-endian
/// 32-bit fields; V2 stores five 64-bit fields plus an Adler-32 over them.
pub open spec fn parse_key_block_header_spec(data: Seq<u8>, version: Version) -> Result<
    (int, KeyBlockHeader),
    MdxError,
> {
    match version {
        Version::V1 => {
            if data.len() < 16 {
                Err(MdxError::Malformed)
            } else {
                let block_num = be_val(data.subrange(0, 4));
                let entry_num = be_val(data.subrange(4, 8));
                let info_len = be_val(data.subrange(8, 12));
                let blocks_len = be_val(data.subrange(12, 16));
                if block_num > usize::MAX || entry_num > usize::MAX || info_len > usize::MAX
                    || blocks_len > usize::MAX {
                    Err(MdxError::Malformed)
                } else {
                    Ok(
                        (
                            16,
                            KeyBlockHeader {
                                block_num: block_num as usize,
                                entry_num: entry_num as usize,
                                key_block_info_decompressed_len: info_len as usize,
                                key_block_info_len: info_len as usize,
                                key_blocks_len: blocks_len as usize,
                            },
                        ),
                    )
                }
            }
        },
        Version::V2 => {
            if data.len() < 44 {
                Err(MdxError::Malformed)
            } else if adler32_spec(data.subrange(0, 40)) != be_val(data.subrange(40, 44)) as u32 {
                Err(MdxError::ChecksumMismatch)
            } else {
                let block_num = be_val(data.subrange(0, 8));
                let entry_num = be_val(data.subrange(8, 16));
                let dec_info_len = be_val(data.subrange(16, 24));
                let info_len = be_val(data.subrange(24, 32));
                let blocks_len = be_val(data.subrange(32, 40));
                if block_num > usize::MAX || entry_num > usize::MAX || dec_info_len > usize::MAX
                    || info_len > usize::MAX || blocks_len > usize::MAX {
                    Err(MdxError::Malformed)
                } else {
                    Ok(
                        (
                            44,
                            KeyBlockHeader {
                                block_num: block_num as usize,
                                entry_num: entry_num as usize,
                                key_block_info_decompressed_len: dec_info_len as usize,
                                key_block_info_len: info_len as usize,
                                key_blocks_len: blocks_len as usize,
                            },
                        ),
                    )
                }
            }
        },
    }
}

/// Parses the key-section meta record at the start of `data`.
pub fn parse_key_block_header(data: &[u8], header: &Header) -> (r: Result<
    (usize, KeyBlockHeader),
    MdxError,
>)
    ensures
        match r {
            Ok((consumed, kbh)) => parse_key_block_header_spec(data@, header.version) == Ok::<
                (int, KeyBlockHeader),
                MdxError,
            >((consumed as int, kbh)),
            Err(e) => parse_key_block_header_spec(data@, header.version) == Err::<
                (int, KeyBlockHeader),
                MdxError,
            >(e),
        },
{
    match header.version {
        Version::V1 => {
            if data.len() < 16 {
                return Err(MdxError::Malformed);
            }
            let block_num = read_be_at(data, 0, 4);
            let entry_num = read_be_at(data, 4, 4);
            let info_len = read_be_at(data, 8, 4);
            let blocks_len = read_be_at(data, 12, 4);
            proof {
                lemma_be_val_bound(data@.subrange(0, 4));
                lemma_be_val_bound(data@.subrange(4, 8));
                lemma_be_val_bound(data@.subrange(8, 12));
                lemma_be_val_bound(data@.subrange(12, 16));
                reveal_with_fuel(pow256, 5);
            }
            if block_num > usize::MAX as u64 || entry_num > usize::MAX as u64 || info_len
                > usize::MAX as u64 || blocks_len > usize::MAX as u64 {
                return Err(MdxError::Malformed);
            }
            Ok(
                (
                    16,
                    KeyBlockHeader {
                        block_num: block_num as usize,
                        entry_num: entry_num as usize,
                        key_block_info_decompressed_len: info_len as usize,
                        key_block_info_len: info_len as usize,
                        key_blocks_len: blocks_len as usize,
                    },
                ),
            )
        },
        Version::V2 => {
            if data.len() < 44 {
                return Err(MdxError::Malformed);
            }
            let meta = vstd::slice::slice_subrange(data, 0, 40);
            let stored64 = read_be_at(data, 40, 4);
            proof {
                lemma_be_val_bound(data@.subrange(40, 44));
                reveal_with_fuel(pow256, 5);
            }
            if !adler32_checksum(meta, stored64 as u32) {
                return Err(MdxError::ChecksumMismatch);
            }
            let block_num = read_be_at(data, 0, 8);
            let entry_num = read_be_at(data, 8, 8);
            let dec_info_len = read_be_at(data, 16, 8);
            let info_len = read_be_at(data, 24, 8);
            let blocks_len = read_be_at(data, 32, 8);
            if block_num > usize::MAX as u64 || entry_num > usize::MAX as u64 || dec_info_len
                > usize::MAX as u64 || info_len > usize::MAX as u64 || blocks_len > usize::MAX
                as u64 {
                return Err(MdxError::Malformed);
            }
            Ok(
                (
                    44,
                    KeyBlockHeader {
                        block_num: block_num as usize,
                        entry_num: entry_num as usize,
                        key_block_info_decompressed_len: dec_info_len as usize,
                        key_block_info_len: info_len as usize,
                        key_blocks_len: blocks_len as usize,
                    },
                ),
            )
        },
    }
}

/// The per-version widths inside the info table: the counter and size fields
/// are 8 bytes in V2 and 4 in V1; text lengths are 2 bytes in V2 and 1 in
/// V1; V2 adds one terminator byte after each text.
pub open spec fn info_num_width(version: Version) -> int {
    match version {
        Version::V1 => 4,
        Version::V2 => 8,
    }
}

/// Text-length width inside the info table.
pub open spec fn info_text_width(version: Version) -> int {
    match version {
        Version::V1 => 1,
        Version::V2 => 2,
    }
}

/// Text terminator width inside the info table.
pub open spec fn info_text_term(version: Version) -> int {
    match version {
        Version::V1 => 0,
        Version::V2 => 1,
    }
}

/// What decoding the (decompressed) info payload yields: one size record per
/// key block — a counter, two length-prefixed texts, then the compressed and
/// decompressed sizes — or nothing when the payload is not tightly packed.
/// A record must announce at least the eight tag-and-checksum bytes of a
/// block and a nonzero decompressed size.
pub open spec fn decode_key_sizes(payload: Seq<u8>, version: Version) -> Option<Seq<KeyBlockSize>>
    decreases payload.len(),
{
    let nw = info_num_width(version);
    let tw = info_text_width(version);
    let term = info_text_term(version);
    if payload.len() == 0 {
        Some(Seq::empty())
    } else if payload.len() < nw + tw {
        None
    } else {
        let head_len = be_val(payload.subrange(nw, nw + tw));
        let p1 = nw + tw + head_len + term;
        if p1 + tw > payload.len() {
            None
        } else {
            let tail_len = be_val(payload.subrange(p1, p1 + tw));
            let p2 = p1 + tw + tail_len + term;
            if p2 + 2 * nw > payload.len() {
                None
            } else {
                let csize = be_val(payload.subrange(p2, p2 + nw));
                let dsize = be_val(payload.subrange(p2 + nw, p2 + 2 * nw));
                if csize > usize::MAX || dsize > usize::MAX {
                    None
                } else if csize < 8 || dsize == 0 {
                    None
                } else {
                    match decode_key_sizes(payload.skip(p2 + 2 * nw), version) {
                        None => None,
                        Some(rest) => Some(
                            seq![KeyBlockSize { csize: csize as usize, dsize: dsize as usize }]
                                + rest,
                        ),
                    }
                }
            }
        }
    }
}

/// Prefixes an already-decoded run of size records to a partial result.
pub open spec fn sizes_with_prefix(
    acc: Seq<KeyBlockSize>,
    rest: Option<Seq<KeyBlockSize>>,
) -> Option<Seq<KeyBlockSize>> {
    match rest {
        None => None,
        Some(r) => Some(acc + r),
    }
}

/// Decodes the decompressed info payload into the size list.
fn decode_key_sizes_exec(payload: &[u8], version: Version) -> (r: Option<Vec<KeyBlockSize>>)
    ensures
        match r {
            Some(v) => decode_key_sizes(payload@, version) == Some(v@),
            None => decode_key_sizes(payload@, version) is None,
        },
{
    let nw: usize = match version {
        Version::V1 => 4,
        Version::V2 => 8,
    };
    let tw: usize = match version {
        Version::V1 => 1,
        Version::V2 => 2,
    };
    let term: usize = match version {
        Version::V1 => 0,
        Version::V2 => 1,
    };
    let mut acc: Vec<KeyBlockSize> = Vec::new();
    let mut rest: &[u8] = payload;
    loop
        invariant
            nw == info_num_width(version),
            tw == info_text_width(version),
            term == info_text_term(version),
            decode_key_sizes(payload@, version) == sizes_with_prefix(
                acc@,
                decode_key_sizes(rest@, version),
            ),
        decreases rest@.len(),
    {
        let n = rest.len();
        if n == 0 {
            proof {
                assert(acc@ + Seq::<KeyBlockSize>::empty() =~= acc@);
            }
            return Some(acc);
        }
        if n < nw + tw {
            return None;
        }
        let head_len64 = read_be_at(rest, nw, tw);
        proof {
            lemma_be_val_bound(rest@.subrange(nw as int, nw + tw));
            reveal_with_fuel(pow256, 3);
        }
        let head_len = head_len64 as usize;
        let p1 = nw + tw + head_len + term;
        if p1 > n || tw > n - p1 {
            return None;
        }
        let tail_len64 = read_be_at(rest, p1, tw);
        proof {
            lemma_be_val_bound(rest@.subrange(p1 as int, p1 + tw));
            reveal_with_fuel(pow256, 3);
        }
        let tail_len = tail_len64 as usize;
        let p2 = p1 + tw + tail_len + term;
        if p2 > n || 2 * nw > n - p2 {
            return None;
        }
        let csize64 = read_be_at(rest, p2, nw);
        let dsize64 = read_be_at(rest, p2 + nw, nw);
        if csize64 > usize::MAX as u64 || dsize64 > usize::MAX as u64 {
            return None;
        }
        if csize64 < 8 || dsize64 == 0 {
            return None;
        }
        let one = KeyBlockSize { csize: csize64 as usize, dsize: dsize64 as usize };
        let step = p2 + 2 * nw;
        proof {
            let rs = rest@;
            assert(decode_key_sizes(rs, version) == (match decode_key_sizes(
                rs.skip(step as int),
                version,
            ) {
                None => None::<Seq<KeyBlockSize>>,
                Some(r) => Some(seq![one] + r),
            }));
            assert(acc@.push(one) =~= acc@ + seq![one]);
            match decode_key_sizes(rs.skip(step as int), version) {
                None => {},
                Some(r) => {
                    assert((acc@ + seq![one]) + r =~= acc@ + (seq![one] + r));
                },
            }
        }
        acc.push(one);
        rest = vstd::slice::slice_subrange(rest, step, n);
    }
}

/// What parsing the info region yields. V1 stores the table raw. V2 prefixes
/// a type tag and a big-endian Adler-32 of the decompressed table, stream-
/// encrypts the rest when the header's flag bit 0x02 is set (key: the
/// RIPEMD-128 digest of the checksum bytes and `0x95 0x36 0x00 0x00`), and
/// deflates it.
pub open spec fn parse_key_block_info_spec(info: Seq<u8>, h: HeaderModel) -> Result<
    Seq<KeyBlockSize>,
    MdxError,
> {
    match h.version {
        Version::V1 => match decode_key_sizes(info, Version::V1) {
            Some(s) => Ok(s),
            None => Err(MdxError::Malformed),
        },
        Version::V2 => {
            if info.len() < 8 {
                Err(MdxError::Malformed)
            } else if info.subrange(0, 4) != seq![2u8, 0u8, 0u8, 0u8] {
                Err(MdxError::Malformed)
            } else {
                let adler_bytes = info.subrange(4, 8);
                let data = info.skip(8);
                let compressed = if key_info_encrypted_model(h) {
                    fast_decrypt_spec(
                        data,
                        ripemd128_of(adler_bytes + seq![0x95u8, 0x36u8, 0x00u8, 0x00u8]),
                    )
                } else {
                    data
                };
                match inflate_of(compressed) {
                    None => Err(MdxError::Decompress),
                    Some(payload) => {
                        if adler32_spec(payload) != be_val(adler_bytes) as u32 {
                            Err(MdxError::ChecksumMismatch)
                        } else {
                            match decode_key_sizes(payload, Version::V2) {
                                Some(s) => Ok(s),
                                None => Err(MdxError::Malformed),
                            }
                        }
                    },
                }
            }
        },
    }
}

/// Parses the key-block info region (exactly the `key_block_info_len` bytes)
/// into the per-block size list.
pub fn parse_key_block_info(info: &[u8], header: &Header) -> (r: Result<Vec<KeyBlockSize>, MdxError>)
    ensures
        match r {
            Ok(v) => parse_key_block_info_spec(info@, header@) == Ok::<Seq<KeyBlockSize>, MdxError>(
                v@,
            ),
            Err(e) => parse_key_block_info_spec(info@, header@) == Err::<
                Seq<KeyBlockSize>,
                MdxError,
            >(e),
        },
{
    match header.version {
        Version::V1 => match decode_key_sizes_exec(info, Version::V1) {
            Some(v) => Ok(v),
            None => Err(MdxError::Malformed),
        },
        Version::V2 => {
            if info.len() < 8 {
                return Err(MdxError::Malformed);
            }
            if !(info[0] == 2 && info[1] == 0 && info[2] == 0 && info[3] == 0) {
                proof {
                    assert(info@.subrange(0, 4) != seq![2u8, 0u8, 0u8, 0u8]) by {
                        if info@.subrange(0, 4) == seq![2u8, 0u8, 0u8, 0u8] {
                            assert(info@.subrange(0, 4)[0] == 2u8);
                            assert(info@.subrange(0, 4)[1] == 0u8);
                            assert(info@.subrange(0, 4)[2] == 0u8);
                            assert(info@.subrange(0, 4)[3] == 0u8);
                        }
                    }
                }
                return Err(MdxError::Malformed);
            }
            proof {
                assert(info@.subrange(0, 4) =~= seq![2u8, 0u8, 0u8, 0u8]);
            }
            let adler_bytes = vstd::slice::slice_subrange(info, 4, 8);
            let data = vstd::slice::slice_subrange(info, 8, info.len());
            proof {
                assert(data@ =~= info@.skip(8));
            }
            let compressed: Vec<u8> = if header.key_info_encrypted() {
                let mut key_src: Vec<u8> = vstd::slice::slice_to_vec(adler_bytes);
                key_src.push(0x95);
                key_src.push(0x36);
                key_src.push(0x00);
                key_src.push(0x00);
                proof {
                    assert(key_src@ =~= info@.subrange(4, 8) + seq![
                        0x95u8,
                        0x36u8,
                        0x00u8,
                        0x00u8,
                    ]);
                }
                let key = ripemd128_digest(key_src.as_slice());
                fast_decrypt(data, key.as_slice())
            } else {
                vstd::slice::slice_to_vec(data)
            };
            let payload = match zlib_inflate(compressed.as_slice()) {
                Some(p) => p,
                None => {
                    return Err(MdxError::Decompress);
                },
            };
            let stored64 = read_be_at(info, 4, 4);
            proof {
                lemma_be_val_bound(info@.subrange(4, 8));
                reveal_with_fuel(pow256, 5);
            }
            if !adler32_checksum(payload.as_slice(), stored64 as u32) {
                return Err(MdxError::ChecksumMismatch);
            }
            match decode_key_sizes_exec(payload.as_slice(), Version::V2) {
                Some(v) => Ok(v),
                None => Err(MdxError::Malformed),
            }
        },
    }
}

/// Index of the first NUL byte at or after `i`.
pub open spec fn find_nul_from(s: Seq<u8>, i: int) -> Option<int>
    recommends
        0 <= i,
    decreases s.len() + 1 - i when 0 <= i
{
    if i < 0 || i >= s.len() {
        None
    } else if s[i] == 0 {
        Some(i)
    } else {
        find_nul_from(s, i + 1)
    }
}

/// Finds the first NUL byte at or after `from`.
fn find_nul(data: &[u8], from: usize) -> (r: Option<usize>)
    ensures
        match r {
            Some(z) => {
                &&& find_nul_from(data@, from as int) == Some(z as int)
                &&& from <= z < data@.len()
                &&& data@[z as int] == 0
            },
            None => find_nul_from(data@, from as int) is None,
        },
{
    let n = data.len();
    if from >= n {
        return None;
    }
    let mut z: usize = from;
    while z < n
        invariant
            from <= z <= n,
            n == data@.len(),
            find_nul_from(data@, from as int) == find_nul_from(data@, z as int),
        decreases n - z,
    {
        if data[z] == 0 {
            return Some(z);
        }
        z = z + 1;
    }
    None
}

/// What splitting one decompressed key block yields: `(offset, headword)`
/// records — a big-endian offset of the version's width, then a headword in
/// the record encoding, NUL-terminated — or the error that stops the split.
pub open spec fn parse_block_items_spec(
    payload: Seq<u8>,
    version: Version,
    encoding: Seq<char>,
) -> Result<Seq<RecordDeBufOffsetModel>, MdxError>
    decreases payload.len(),
{
    let w: int = match version {
        Version::V1 => 4,
        Version::V2 => 8,
    };
    if payload.len() == 0 {
        Ok(Seq::empty())
    } else if payload.len() < w {
        Err(MdxError::Malformed)
    } else {
        match find_nul_from(payload, w) {
            None => Err(MdxError::Malformed),
            Some(z) => {
                if z < w || z >= payload.len() {
                    Err(MdxError::Malformed)
                } else {
                    let offset = be_val(payload.subrange(0, w));
                    if offset > usize::MAX {
                        Err(MdxError::Malformed)
                    } else {
                        match whatwg_decoded(encoding, payload.subrange(w, z)) {
                            None => Err(MdxError::Unsupported),
                            Some(text) => {
                                match parse_block_items_spec(payload.skip(z + 1), version, encoding) {
                                    Err(e) => Err(e),
                                    Ok(rest) => Ok(
                                        seq![
                                            RecordDeBufOffsetModel {
                                                text,
                                                record_offset_in_debuf: offset as int,
                                            },
                                        ] + rest,
                                    ),
                                }
                            },
                        }
                    }
                }
            },
        }
    }
}

/// Prefixes already-split entries to a partial result.
pub open spec fn items_with_prefix(
    acc: Seq<RecordDeBufOffsetModel>,
    rest: Result<Seq<RecordDeBufOffsetModel>, MdxError>,
) -> Result<Seq<RecordDeBufOffsetModel>, MdxError> {
    match rest {
        Err(e) => Err(e),
        Ok(r) => Ok(acc + r),
    }
}

/// Splits one decompressed key block into its `(offset, headword)` records,
/// decoding each headword with the header's encoding label.
pub fn parse_block_items(payload: &[u8], version: Version, encoding: &str) -> (r: Result<
    Vec<RecordDeBufOffset>,
    MdxError,
>)
    ensures
        match r {
            Ok(v) => parse_block_items_spec(payload@, version, encoding@) == Ok::<
                Seq<RecordDeBufOffsetModel>,
                MdxError,
            >(entries_view(v@)),
            Err(e) => parse_block_items_spec(payload@, version, encoding@) == Err::<
                Seq<RecordDeBufOffsetModel>,
                MdxError,
            >(e),
        },
{
    let w: usize = match version {
        Version::V1 => 4,
        Version::V2 => 8,
    };
    let mut acc: Vec<RecordDeBufOffset> = Vec::new();
    let mut rest: &[u8] = payload;
    loop
        invariant
            w == (match version {
                Version::V1 => 4int,
                Version::V2 => 8int,
            }),
            parse_block_items_spec(payload@, version, encoding@) == items_with_prefix(
                entries_view(acc@),
                parse_block_items_spec(rest@, version, encoding@),
            ),
        decreases rest@.len(),
    {
        let n = rest.len();
        if n == 0 {
            proof {
                assert(entries_view(acc@) + Seq::<RecordDeBufOffsetModel>::empty() =~= entries_view(
                    acc@,
                ));
            }
            return Ok(acc);
        }
        if n < w {
            return Err(MdxError::Malformed);
        }
        let z = match find_nul(rest, w) {
            Some(z) => z,
            None => {
                return Err(MdxError::Malformed);
            },
        };
        let offset64 = read_be_at(rest, 0, w);
        if offset64 > usize::MAX as u64 {
            return Err(MdxError::Malformed);
        }
        let text_bytes = vstd::slice::slice_subrange(rest, w, z);
        let text = match decode_with_label(encoding, text_bytes) {
            Some(t) => t,
            None => {
                return Err(MdxError::Unsupported);
            },
        };
        let one = RecordDeBufOffset { text, record_offset_in_debuf: offset64 as usize };
        proof {
            let rs = rest@;
            let m = one@;
            assert(parse_block_items_spec(rs, version, encoding@) == (
            match parse_block_items_spec(rs.skip(z + 1), version, encoding@) {
                Err(e) => Err::<Seq<RecordDeBufOffsetModel>, MdxError>(e),
                Ok(r) => Ok(seq![m] + r),
            }));
            assert(entries_view(acc@.push(one)) =~= entries_view(acc@) + seq![m]);
            match parse_block_items_spec(rs.skip(z + 1), version, encoding@) {
                Err(_) => {},
                Ok(r) => {
                    assert((entries_view(acc@) + seq![m]) + r =~= entries_view(acc@) + (seq![m]
                        + r));
                },
            }
        }
        acc.push(one);
        rest = vstd::slice::slice_subrange(rest, z + 1, n);
    }
}

/// What walking the key-block region yields: the blocks sliced out by their
/// compressed sizes, each decoded and split, all entries concatenated in
/// file order; left-over bytes after the last block are malformed.
pub open spec fn parse_key_blocks_spec(
    blocks: Seq<u8>,
    sizes: Seq<KeyBlockSize>,
    version: Version,
    encoding: Seq<char>,
) -> Result<Seq<RecordDeBufOffsetModel>, MdxError>
    decreases sizes.len(),
{
    if sizes.len() == 0 {
        if blocks.len() == 0 {
            Ok(Seq::empty())
        } else {
            Err(MdxError::Malformed)
        }
    } else {
        let s0 = sizes[0];
        if s0.csize > blocks.len() {
            Err(MdxError::Malformed)
        } else {
            match block_decode_spec(blocks.subrange(0, s0.csize as int), s0.dsize as nat) {
                Err(e) => Err(e),
                Ok(payload) => match parse_block_items_spec(payload, version, encoding) {
                    Err(e) => Err(e),
                    Ok(entries) => match parse_key_blocks_spec(
                        blocks.skip(s0.csize as int),
                        sizes.skip(1),
                        version,
                        encoding,
                    ) {
                        Err(e) => Err(e),
                        Ok(rest) => Ok(entries + rest),
                    },
                },
            }
        }
    }
}

/// Walks the key-block region, slicing each block out by its compressed
/// size, decoding it and splitting it into entries, in file order.
pub fn parse_key_blocks(
    blocks: &[u8],
    header: &Header,
    key_blocks_size: &Vec<KeyBlockSize>,
) -> (r: Result<Vec<RecordDeBufOffset>, MdxError>)
    ensures
        match r {
            Ok(v) => parse_key_blocks_spec(
                blocks@,
                key_blocks_size@,
                header.version,
                header.encoding@,
            ) == Ok::<Seq<RecordDeBufOffsetModel>, MdxError>(entries_view(v@)),
            Err(e) => parse_key_blocks_spec(
                blocks@,
                key_blocks_size@,
                header.version,
                header.encoding@,
            ) == Err::<Seq<RecordDeBufOffsetModel>, MdxError>(e),
        },
{
    let mut acc: Vec<RecordDeBufOffset> = Vec::new();
    let mut rest: &[u8] = blocks;
    let mut bi: usize = 0;
    let bn = key_blocks_size.len();
    proof {
        assert(key_blocks_size@.skip(0int) =~= key_blocks_size@);
        assert(entries_view(acc@) =~= Seq::<RecordDeBufOffsetModel>::empty());
        match parse_key_blocks_spec(blocks@, key_blocks_size@, header.version, header.encoding@) {
            Err(_) => {},
            Ok(r) => {
                assert(Seq::<RecordDeBufOffsetModel>::empty() + r =~= r);
            },
        }
    }
    while bi < bn
        invariant
            0 <= bi <= bn,
            bn == key_blocks_size@.len(),
            parse_key_blocks_spec(blocks@, key_blocks_size@, header.version, header.encoding@)
                == items_with_prefix(
                entries_view(acc@),
                parse_key_blocks_spec(
                    rest@,
                    key_blocks_size@.skip(bi as int),
                    header.version,
                    header.encoding@,
                ),
            ),
        decreases bn - bi,
    {
        let s0 = key_blocks_size[bi];
        proof {
            assert(key_blocks_size@.skip(bi as int)[0] == s0);
        }
        let n = rest.len();
        if s0.csize > n {
            return Err(MdxError::Malformed);
        }
        let block_slice = vstd::slice::slice_subrange(rest, 0, s0.csize);
        let payload = match decode_block(block_slice, s0.dsize) {
            Ok(p) => p,
            Err(e) => {
                return Err(e);
            },
        };
        let mut entries = match parse_block_items(
            payload.as_slice(),
            header.version,
            header.encoding.as_str(),
        ) {
            Ok(v) => v,
            Err(e) => {
                return Err(e);
            },
        };
        proof {
            let tail_sizes = key_blocks_size@.skip(bi as int);
            assert(tail_sizes.skip(1) =~= key_blocks_size@.skip(bi + 1));
            assert(entries_view(acc@ + entries@) =~= entries_view(acc@) + entries_view(entries@));
            match parse_key_blocks_spec(
                rest@.skip(s0.csize as int),
                key_blocks_size@.skip(bi + 1),
                header.version,
                header.encoding@,
            ) {
                Err(_) => {},
                Ok(r) => {
                    assert((entries_view(acc@) + entries_view(entries@)) + r =~= entries_view(acc@)
                        + (entries_view(entries@) + r));
                },
            }
        }
        acc.append(&mut entries);
        rest = vstd::slice::slice_subrange(rest, s0.csize, n);
        bi = bi + 1;
    }
    let n = rest.len();
    if n != 0 {
        proof {
            assert(key_blocks_size@.skip(bn as int) =~= Seq::<KeyBlockSize>::empty());
        }
        return Err(MdxError::Malformed);
    }
    proof {
        assert(key_blocks_size@.skip(bn as int) =~= Seq::<KeyBlockSize>::empty());
        assert(entries_view(acc@) + Seq::<RecordDeBufOffsetModel>::empty() =~= entries_view(acc@));
    }
    Ok(acc)
}

} // verus!
