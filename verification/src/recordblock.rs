//! The record section: a meta record of the active width, a size table of
//! (compressed, decompressed) pairs, then the raw record-block region, which
//! is only decoded block by block on demand.

use vstd::prelude::*;

use crate::MdxError;
use crate::header::Version;
use crate::unpack::{be_val, read_be_at};

verus! {

/// Compressed and decompressed size of one record block.
#[derive(Clone, Copy, Debug, PartialEq, Eq, Structural)]
pub struct RecordBlockSize {
    pub csize: usize,
    pub dsize: usize,
}

/// Field width of the record meta section.
pub open spec fn rec_width(version: Version) -> int {
    match version {
        Version::V1 => 4,
        Version::V2 => 8,
    }
}

/// The `k`-th compressed size stored in the table.
pub open spec fn rec_csize_at(data: Seq<u8>, w: int, k: int) -> nat {
    be_val(data.subrange(4 * w + k * 2 * w, 4 * w + k * 2 * w + w))
}

/// The `k`-th decompressed size stored in the table.
pub open spec fn rec_dsize_at(data: Seq<u8>, w: int, k: int) -> nat {
    be_val(data.subrange(4 * w + k * 2 * w + w, 4 * w + k * 2 * w + 2 * w))
}


/// The `k`-th size record breaks a bound: it does not fit the machine, or it
/// violates the size invariant — a stored block holds at least its eight
/// tag-and-checksum bytes, and decompresses to at least one byte.
pub open spec fn rec_size_bad(data: Seq<u8>, w: int, k: int) -> bool {
    ||| rec_csize_at(data, w, k) > usize::MAX
    ||| rec_dsize_at(data, w, k) > usize::MAX
    ||| rec_csize_at(data, w, k) < 8
    ||| rec_dsize_at(data, w, k) == 0
}

/// The decoded prefix of the size table agrees with the stored fields.
pub open spec fn sizes_decoded(data: Seq<u8>, w: int, s: Seq<RecordBlockSize>) -> bool {
    forall|j: int|
        #![trigger s[j]]
        #![trigger rec_csize_at(data, w, j)]
        0 <= j < s.len() ==> s[j] == (RecordBlockSize {
            csize: rec_csize_at(data, w, j) as usize,
            dsize: rec_dsize_at(data, w, j) as usize,
        }) && !rec_size_bad(data, w, j)
}

/// What parsing the record meta section yields: the bytes consumed, the
/// entry count it declares, and the per-block size table. The table's length
/// must agree with the declared info length, and every record must announce
/// at least the eight tag-and-checksum bytes and a nonzero decompressed
/// size.
pub open spec fn parse_record_blocks_spec(data: Seq<u8>, version: Version) -> Result<
    (int, int, Seq<RecordBlockSize>),
    MdxError,
> {
    let w = rec_width(version);
    if data.len() < 4 * w {
        Err(MdxError::Malformed)
    } else {
        let num = be_val(data.subrange(0, w));
        let entry_num = be_val(data.subrange(w, 2 * w));
        let info_len = be_val(data.subrange(2 * w, 3 * w));
        if num > usize::MAX || entry_num > usize::MAX {
            Err(MdxError::Malformed)
        } else if num * 2 * w != info_len {
            Err(MdxError::Malformed)
        } else if info_len > data.len() - 4 * w {
            Err(MdxError::Malformed)
        } else if exists|k: int| 0 <= k < num && rec_size_bad(data, w, k) {
            Err(MdxError::Malformed)
        } else {
            Ok(
                (
                    4 * w + info_len,
                    entry_num as int,
                    Seq::new(
                        num as nat,
                        |k: int| RecordBlockSize {
                            csize: rec_csize_at(data, w, k) as usize,
                            dsize: rec_dsize_at(data, w, k) as usize,
                        },
                    ),
                ),
            )
        }
    }
}

/// Parses the record meta section at the start of `data`: block count, entry
/// count, info length, region length, then the size table.
pub fn parse_record_blocks(data: &[u8], version: Version) -> (r: Result<
    (usize, usize, Vec<RecordBlockSize>),
    MdxError,
>)
    ensures
        match r {
            Ok((consumed, entry_num, v)) => parse_record_blocks_spec(data@, version) == Ok::<
                (int, int, Seq<RecordBlockSize>),
                MdxError,
            >((consumed as int, entry_num as int, v@)),
            Err(e) => parse_record_blocks_spec(data@, version) == Err::<
                (int, int, Seq<RecordBlockSize>),
                MdxError,
            >(e),
        },
{
    let w: usize = match version {
        Version::V1 => 4,
        Version::V2 => 8,
    };
    let n = data.len();
    if n < 4 * w {
        return Err(MdxError::Malformed);
    }
    let num64 = read_be_at(data, 0, w);
    let entry64 = read_be_at(data, w, w);
    let info64 = read_be_at(data, 2 * w, w);
    if num64 > usize::MAX as u64 || entry64 > usize::MAX as u64 {
        return Err(MdxError::Malformed);
    }
    let two_w = (2 * w) as u64;
    proof {
        vstd::arithmetic::div_mod::lemma_fundamental_div_mod(info64 as int, two_w as int);
        if info64 % two_w == 0 && info64 / two_w == num64 {
            assert(info64 as int == two_w as int * num64 as int);
            assert(num64 as int * 2 * (w as int) == two_w as int * num64 as int)
                by (nonlinear_arith)
                requires
                    two_w == 2 * w,
            ;
        } else {
            if num64 as int * 2 * (w as int) == info64 as int {
                assert(info64 as int == num64 as int * (two_w as int) + 0) by (nonlinear_arith)
                    requires
                        two_w == 2 * w,
                        num64 as int * 2 * (w as int) == info64 as int,
                ;
                vstd::arithmetic::div_mod::lemma_fundamental_div_mod_converse(
                    info64 as int,
                    two_w as int,
                    num64 as int,
                    0,
                );
                assert(false);
            }
        }
    }
    if !(info64 % two_w == 0 && info64 / two_w == num64) {
        return Err(MdxError::Malformed);
    }
    if info64 > (n - 4 * w) as u64 {
        return Err(MdxError::Malformed);
    }
    let num = num64 as usize;
    let mut sizes: Vec<RecordBlockSize> = Vec::new();
    let mut k: usize = 0;
    let mut pos: usize = 4 * w;
    while k < num
        invariant
            0 <= k <= num,
            w == rec_width(version),
            w == 4 || w == 8,
            n == data@.len(),
            n >= 4 * w,
            pos == 4 * w + k * 2 * w,
            num == num64,
            num64 <= usize::MAX as u64,
            entry64 <= usize::MAX as u64,
            num64 == be_val(data@.subrange(0, w as int)),
            entry64 == be_val(data@.subrange(w as int, 2 * w as int)),
            info64 == be_val(data@.subrange(2 * w as int, 3 * w as int)),
            num64 as int * 2 * (w as int) == info64 as int,
            info64 as int <= n - 4 * w,
            num * 2 * w <= n - 4 * w,
            sizes@.len() == k,
            sizes_decoded(data@, w as int, sizes@),
        decreases num - k,
    {
        proof {
            assert((k + 1) * 2 * w <= num * 2 * w && k * 2 * w >= 0 && (k + 1) * 2 * w == k * 2 * w
                + 2 * w) by (nonlinear_arith)
                requires
                    0 <= k < num,
                    w >= 1,
            ;
        }
        let csize64 = read_be_at(data, pos, w);
        let dsize64 = read_be_at(data, pos + w, w);
        proof {
            assert(csize64 == rec_csize_at(data@, w as int, k as int));
            assert(dsize64 == rec_dsize_at(data@, w as int, k as int));
        }
        if csize64 > usize::MAX as u64 || dsize64 > usize::MAX as u64 || csize64 < 8 || dsize64
            == 0 {
            proof {
                assert(0 <= k < num && rec_size_bad(data@, w as int, k as int));
            }
            return Err(MdxError::Malformed);
        }
        let ghost prev = sizes@;
        sizes.push(RecordBlockSize { csize: csize64 as usize, dsize: dsize64 as usize });
        proof {
            assert forall|j: int| 0 <= j < sizes@.len() implies #[trigger] sizes@[j]
                == (RecordBlockSize {
                csize: rec_csize_at(data@, w as int, j) as usize,
                dsize: rec_dsize_at(data@, w as int, j) as usize,
            }) && !rec_size_bad(data@, w as int, j) by {
                if j < k {
                    assert(sizes@[j] == prev[j]);
                } else {
                    assert(sizes@[j] == (RecordBlockSize {
                        csize: csize64 as usize,
                        dsize: dsize64 as usize,
                    }));
                }
            }
        }
        pos = pos + 2 * w;
        k = k + 1;
    }
    proof {
        assert(sizes@ =~= Seq::new(
            num as nat,
            |j: int| RecordBlockSize {
                csize: rec_csize_at(data@, w as int, j) as usize,
                dsize: rec_dsize_at(data@, w as int, j) as usize,
            },
        ));
        assert(!(exists|j: int| 0 <= j < num && rec_size_bad(data@, w as int, j))) by {
            if exists|j: int| 0 <= j < num && rec_size_bad(data@, w as int, j) {
                let j = choose|j: int| 0 <= j < num && rec_size_bad(data@, w as int, j);
                assert(sizes@[j] == (RecordBlockSize {
                    csize: rec_csize_at(data@, w as int, j) as usize,
                    dsize: rec_dsize_at(data@, w as int, j) as usize,
                }) && !rec_size_bad(data@, w as int, j));
            }
        }
    }
    let consumed = 4 * w + (info64 as usize);
    Ok((consumed, entry64 as usize, sizes))
}

} // verus!
