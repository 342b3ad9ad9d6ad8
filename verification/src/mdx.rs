//! The dictionary facade: the offset reconciler that joins the entry list
//! with the record-block size table into locators, and the `Mdx` value that
//! owns the raw record region and answers `items` and `lookup`.

use vstd::prelude::*;

use crate::MdxError;
use crate::block::{block_decode_spec, decode_block};
use crate::header::{Header, HeaderModel, parse_header, parse_header_spec};
use crate::keyblock::{RecordDeBufOffset, RecordDeBufOffsetModel, entries_view,
    parse_key_block_header, parse_key_block_header_spec, parse_key_block_info,
    parse_key_block_info_spec, parse_key_blocks, parse_key_blocks_spec};
use crate::recordblock::{RecordBlockSize, parse_record_blocks, parse_record_blocks_spec};
use crate::text::{decode_with_label, whatwg_decoded};

verus! {

/// Where one entry's definition lives: which block (by offset and sizes
/// within the record region) and which slice of that block's decompressed
/// payload.
#[derive(Debug)]
pub struct RecordOffsetInfo {
    pub text: String,
    pub block_offset_in_buf: usize,
    pub block_csize: usize,
    pub block_dsize: usize,
    pub record_start_in_de_block: usize,
    pub record_end_in_de_block: usize,
}

/// Mathematical image of a [`RecordOffsetInfo`].
pub struct RecordOffsetInfoModel {
    pub text: Seq<char>,
    pub block_offset_in_buf: int,
    pub block_csize: int,
    pub block_dsize: int,
    pub record_start_in_de_block: int,
    pub record_end_in_de_block: int,
}

impl View for RecordOffsetInfo {
    type V = RecordOffsetInfoModel;

    open spec fn view(&self) -> RecordOffsetInfoModel {
        RecordOffsetInfoModel {
            text: self.text@,
            block_offset_in_buf: self.block_offset_in_buf as int,
            block_csize: self.block_csize as int,
            block_dsize: self.block_dsize as int,
            record_start_in_de_block: self.record_start_in_de_block as int,
            record_end_in_de_block: self.record_end_in_de_block as int,
        }
    }
}

/// The models of a sequence of locators.
pub open spec fn locs_view(v: Seq<RecordOffsetInfo>) -> Seq<RecordOffsetInfoModel> {
    v.map_values(|l: RecordOffsetInfo| l@)
}

/// A locator's slice is well-formed: a non-empty range inside the block's
/// decompressed payload.
pub open spec fn locator_wf(l: RecordOffsetInfoModel) -> bool {
    &&& 0 <= l.record_start_in_de_block
    &&& l.record_start_in_de_block < l.record_end_in_de_block
    &&& l.record_end_in_de_block <= l.block_dsize
    &&& 0 <= l.block_offset_in_buf
}

/// Entry offsets strictly increase along the catalog.
pub open spec fn entries_increasing(entries: Seq<RecordDeBufOffsetModel>) -> bool {
    forall|i: int|
        #![trigger entries[i].record_offset_in_debuf]
        0 <= i && i + 1 < entries.len() ==> entries[i].record_offset_in_debuf < entries[i
            + 1].record_offset_in_debuf
}

/// Total compressed length of the record blocks.
pub open spec fn sum_csize(blocks: Seq<RecordBlockSize>) -> int
    decreases blocks.len(),
{
    if blocks.len() == 0 {
        0
    } else {
        sum_csize(blocks.drop_last()) + blocks.last().csize
    }
}

/// Total decompressed length of the record blocks.
pub open spec fn sum_dsize(blocks: Seq<RecordBlockSize>) -> int
    decreases blocks.len(),
{
    if blocks.len() == 0 {
        0
    } else {
        sum_dsize(blocks.drop_last()) + blocks.last().dsize
    }
}

/// A prefix sum extends by the next block's sizes.
pub proof fn lemma_sum_take_succ(blocks: Seq<RecordBlockSize>, bi: int)
    requires
        0 <= bi < blocks.len(),
    ensures
        sum_csize(blocks.take(bi + 1)) == sum_csize(blocks.take(bi)) + blocks[bi].csize,
        sum_dsize(blocks.take(bi + 1)) == sum_dsize(blocks.take(bi)) + blocks[bi].dsize,
{
    assert(blocks.take(bi + 1).drop_last() =~= blocks.take(bi));
    assert(blocks.take(bi + 1).last() == blocks[bi]);
}

/// Prefix sums never exceed the total, and are nonnegative.
pub proof fn lemma_sum_take_le(blocks: Seq<RecordBlockSize>, bi: int)
    requires
        0 <= bi <= blocks.len(),
    ensures
        0 <= sum_csize(blocks.take(bi)) <= sum_csize(blocks),
        0 <= sum_dsize(blocks.take(bi)) <= sum_dsize(blocks),
    decreases blocks.len() - bi,
{
    if bi == blocks.len() {
        assert(blocks.take(bi) =~= blocks);
        lemma_sum_nonneg(blocks);
    } else {
        lemma_sum_take_le(blocks, bi + 1);
        lemma_sum_take_succ(blocks, bi);
        lemma_sum_nonneg(blocks.take(bi));
    }
}

/// Sums of sizes are nonnegative.
pub proof fn lemma_sum_nonneg(blocks: Seq<RecordBlockSize>)
    ensures
        sum_csize(blocks) >= 0,
        sum_dsize(blocks) >= 0,
    decreases blocks.len(),
{
    if blocks.len() > 0 {
        lemma_sum_nonneg(blocks.drop_last());
    }
}

/// One block's share of the sweep: the locators of every remaining entry
/// whose offset falls inside this block, and the index of the first entry
/// left over. An entry's slice ends where the next entry in the same block
/// starts, or at the block's decompressed size.
pub open spec fn sweep_block(
    entries: Seq<RecordDeBufOffsetModel>,
    i: int,
    pre_d: int,
    pre_c: int,
    b: RecordBlockSize,
) -> (Seq<RecordOffsetInfoModel>, int)
    decreases entries.len() + 1 - i when 0 <= i
{
    if i < 0 || i >= entries.len() || entries[i].record_offset_in_debuf >= pre_d + b.dsize {
        (Seq::empty(), i)
    } else {
        let start = entries[i].record_offset_in_debuf - pre_d;
        let end = if i + 1 < entries.len() && entries[i + 1].record_offset_in_debuf < pre_d
            + b.dsize {
            entries[i + 1].record_offset_in_debuf - pre_d
        } else {
            b.dsize as int
        };
        let loc = RecordOffsetInfoModel {
            text: entries[i].text,
            block_offset_in_buf: pre_c,
            block_csize: b.csize as int,
            block_dsize: b.dsize as int,
            record_start_in_de_block: start,
            record_end_in_de_block: end,
        };
        let r = sweep_block(entries, i + 1, pre_d, pre_c, b);
        (seq![loc] + r.0, r.1)
    }
}

/// The whole sweep from block `bi` on, with `i` entries already consumed and
/// the given cumulative decompressed and compressed sizes.
pub open spec fn sweep_blocks(
    entries: Seq<RecordDeBufOffsetModel>,
    blocks: Seq<RecordBlockSize>,
    bi: int,
    i: int,
    pre_d: int,
    pre_c: int,
) -> Seq<RecordOffsetInfoModel>
    decreases blocks.len() + 1 - bi when 0 <= bi
{
    if bi < 0 || bi >= blocks.len() {
        Seq::empty()
    } else {
        let r = sweep_block(entries, i, pre_d, pre_c, blocks[bi]);
        r.0 + sweep_blocks(
            entries,
            blocks,
            bi + 1,
            r.1,
            pre_d + blocks[bi].dsize,
            pre_c + blocks[bi].csize,
        )
    }
}

/// The locator list: the sweep over all blocks from a cold start. Entries
/// whose offsets lie beyond the blocks' total decompressed size get no
/// locator.
pub open spec fn locators_spec(
    entries: Seq<RecordDeBufOffsetModel>,
    blocks: Seq<RecordBlockSize>,
) -> Seq<RecordOffsetInfoModel> {
    sweep_blocks(entries, blocks, 0, 0, 0, 0)
}

/// The sweep's remainder seen from inside block `bi`.
pub open spec fn sweep_from(
    entries: Seq<RecordDeBufOffsetModel>,
    blocks: Seq<RecordBlockSize>,
    bi: int,
    i: int,
    pre_d: int,
    pre_c: int,
) -> Seq<RecordOffsetInfoModel> {
    let r = sweep_block(entries, i, pre_d, pre_c, blocks[bi]);
    r.0 + sweep_blocks(
        entries,
        blocks,
        bi + 1,
        r.1,
        pre_d + blocks[bi].dsize,
        pre_c + blocks[bi].csize,
    )
}

/// Joins the ordered entry list with the record-block size table: one linear
/// sweep that gives every entry its block's file-space position and its
/// slice of the decompressed payload.
pub fn records_offset(entries: &Vec<RecordDeBufOffset>, blocks: &Vec<RecordBlockSize>) -> (r: Vec<
    RecordOffsetInfo,
>)
    requires
        entries_increasing(entries_view(entries@)),
        sum_dsize(blocks@) <= usize::MAX,
        sum_csize(blocks@) <= usize::MAX,
    ensures
        locs_view(r@) == locators_spec(entries_view(entries@), blocks@),
        forall|k: int|
            0 <= k < r@.len() ==> locator_wf(#[trigger] r@[k]@) && r@[k]@.block_offset_in_buf
                + r@[k]@.block_csize <= sum_csize(blocks@),
{
    let ghost ent = entries_view(entries@);
    let mut acc: Vec<RecordOffsetInfo> = Vec::new();
    let mut i: usize = 0;
    let mut pre_d: usize = 0;
    let mut pre_c: usize = 0;
    let mut bi: usize = 0;
    let en = entries.len();
    let bn = blocks.len();
    proof {
        assert(blocks@.take(0) =~= Seq::<RecordBlockSize>::empty());
        assert(locs_view(acc@) =~= Seq::<RecordOffsetInfoModel>::empty());
        assert(Seq::<RecordOffsetInfoModel>::empty() + sweep_blocks(ent, blocks@, 0, 0, 0, 0)
            =~= sweep_blocks(ent, blocks@, 0, 0, 0, 0));
    }
    while bi < bn
        invariant
            0 <= bi <= bn,
            0 <= i <= en,
            bn == blocks@.len(),
            en == entries@.len(),
            ent == entries_view(entries@),
            entries_increasing(ent),
            sum_dsize(blocks@) <= usize::MAX,
            sum_csize(blocks@) <= usize::MAX,
            pre_d == sum_dsize(blocks@.take(bi as int)),
            pre_c == sum_csize(blocks@.take(bi as int)),
            i < en ==> ent[i as int].record_offset_in_debuf >= pre_d,
            locators_spec(ent, blocks@) == locs_view(acc@) + sweep_blocks(
                ent,
                blocks@,
                bi as int,
                i as int,
                pre_d as int,
                pre_c as int,
            ),
            forall|k: int|
                0 <= k < acc@.len() ==> locator_wf(#[trigger] acc@[k]@)
                    && acc@[k]@.block_offset_in_buf + acc@[k]@.block_csize <= sum_csize(blocks@),
        decreases bn - bi,
    {
        let b = blocks[bi];
        proof {
            lemma_sum_take_succ(blocks@, bi as int);
            lemma_sum_take_le(blocks@, bi + 1);
        }
        let limit = pre_d + b.dsize;
        let next_c = pre_c + b.csize;
        while i < en && entries[i].record_offset_in_debuf < limit
            invariant
                0 <= bi < bn,
                0 <= i <= en,
                bn == blocks@.len(),
                en == entries@.len(),
                ent == entries_view(entries@),
                entries_increasing(ent),
                sum_dsize(blocks@) <= usize::MAX,
                sum_csize(blocks@) <= usize::MAX,
                b == blocks@[bi as int],
                pre_d == sum_dsize(blocks@.take(bi as int)),
                pre_c == sum_csize(blocks@.take(bi as int)),
                limit == pre_d + b.dsize,
                next_c == pre_c + b.csize,
                next_c <= sum_csize(blocks@),
                i < en ==> ent[i as int].record_offset_in_debuf >= pre_d,
                locators_spec(ent, blocks@) == locs_view(acc@) + sweep_from(
                    ent,
                    blocks@,
                    bi as int,
                    i as int,
                    pre_d as int,
                    pre_c as int,
                ),
                forall|k: int|
                    0 <= k < acc@.len() ==> locator_wf(#[trigger] acc@[k]@)
                        && acc@[k]@.block_offset_in_buf + acc@[k]@.block_csize <= sum_csize(
                        blocks@,
                    ),
            decreases en - i,
        {
            let start = entries[i].record_offset_in_debuf - pre_d;
            let end = if i + 1 < en && entries[i + 1].record_offset_in_debuf < limit {
                entries[i + 1].record_offset_in_debuf - pre_d
            } else {
                b.dsize
            };
            let loc = RecordOffsetInfo {
                text: entries[i].text.clone(),
                block_offset_in_buf: pre_c,
                block_csize: b.csize,
                block_dsize: b.dsize,
                record_start_in_de_block: start,
                record_end_in_de_block: end,
            };
            proof {
                let sb = sweep_block(ent, i as int, pre_d as int, pre_c as int, b);
                let sb1 = sweep_block(ent, i + 1, pre_d as int, pre_c as int, b);
                assert(ent[i as int] == entries@[i as int]@);
                assert(sb.0 == seq![loc@] + sb1.0 && sb.1 == sb1.1);
                assert(locs_view(acc@.push(loc)) =~= locs_view(acc@) + seq![loc@]);
                assert((locs_view(acc@) + seq![loc@]) + (sb1.0 + sweep_blocks(
                    ent,
                    blocks@,
                    bi + 1,
                    sb1.1,
                    pre_d + b.dsize,
                    pre_c + b.csize,
                )) =~= locs_view(acc@) + ((seq![loc@] + sb1.0) + sweep_blocks(
                    ent,
                    blocks@,
                    bi + 1,
                    sb1.1,
                    pre_d + b.dsize,
                    pre_c + b.csize,
                )));
                if i + 1 < en {
                    assert(ent[i as int].record_offset_in_debuf < ent[i
                        + 1].record_offset_in_debuf);
                }
                assert(locator_wf(loc@));
            }
            acc.push(loc);
            i = i + 1;
        }
        proof {
            let sb = sweep_block(ent, i as int, pre_d as int, pre_c as int, b);
            assert(sb.0 =~= Seq::<RecordOffsetInfoModel>::empty() && sb.1 == i as int);
            assert(Seq::<RecordOffsetInfoModel>::empty() + sweep_blocks(
                ent,
                blocks@,
                bi + 1,
                i as int,
                pre_d + b.dsize,
                pre_c + b.csize,
            ) =~= sweep_blocks(ent, blocks@, bi + 1, i as int, pre_d + b.dsize, pre_c + b.csize));
        }
        pre_d = limit;
        pre_c = next_c;
        bi = bi + 1;
    }
    proof {
        assert(sweep_blocks(ent, blocks@, bn as int, i as int, pre_d as int, pre_c as int)
            =~= Seq::<RecordOffsetInfoModel>::empty());
        assert(locs_view(acc@) + Seq::<RecordOffsetInfoModel>::empty() =~= locs_view(acc@));
    }
    acc
}

/// One headword with its decoded definition.
#[derive(Debug)]
pub struct Record {
    pub text: String,
    pub definition: String,
}

/// Mathematical image of a [`Record`].
pub struct RecordModel {
    pub text: Seq<char>,
    pub definition: Seq<char>,
}

impl View for Record {
    type V = RecordModel;

    open spec fn view(&self) -> RecordModel {
        RecordModel { text: self.text@, definition: self.definition@ }
    }
}

/// The models of a sequence of records.
pub open spec fn records_view(v: Seq<Record>) -> Seq<RecordModel> {
    v.map_values(|r: Record| r@)
}

/// A parsed dictionary: the locator catalog, the raw (still compressed)
/// record region, and the header attributes that decoding needs.
#[derive(Debug)]
pub struct Mdx {
    pub records_offset: Vec<RecordOffsetInfo>,
    pub record_block_buf: Vec<u8>,
    pub encoding: String,
    pub encrypted: String,
}

/// Mathematical image of an [`Mdx`].
pub struct MdxModel {
    pub records_offset: Seq<RecordOffsetInfoModel>,
    pub record_block_buf: Seq<u8>,
    pub encoding: Seq<char>,
    pub encrypted: Seq<char>,
}

impl View for Mdx {
    type V = MdxModel;

    open spec fn view(&self) -> MdxModel {
        MdxModel {
            records_offset: locs_view(self.records_offset@),
            record_block_buf: self.record_block_buf@,
            encoding: self.encoding@,
            encrypted: self.encrypted@,
        }
    }
}

/// Every locator is well-formed and its block lies inside the record region.
pub open spec fn mdx_wf(m: MdxModel) -> bool {
    forall|k: int|
        0 <= k < m.records_offset.len() ==> locator_wf(#[trigger] m.records_offset[k])
            && m.records_offset[k].block_offset_in_buf + m.records_offset[k].block_csize
            <= m.record_block_buf.len()
}

/// What opening a file yields: the dictionary, or the first error on the
/// way. Every cross-section consistency rule is enforced here: the info and
/// block regions must fit, the size table must match the declared block
/// count, both meta records' declared entry counts must match the parsed
/// catalog, entry offsets must strictly increase, the record blocks'
/// compressed sizes must sum to exactly the record region's length, and
/// every entry must fall inside some block.
pub open spec fn mdx_open_spec(data: Seq<u8>) -> Result<MdxModel, MdxError> {
    match parse_header_spec(data) {
        Err(e) => Err(e),
        Ok((hc, h)) => match parse_key_block_header_spec(data.skip(hc), h.version) {
            Err(e) => Err(e),
            Ok((kc, kbh)) => {
                let cur = hc + kc;
                if kbh.key_block_info_len > data.len() - cur {
                    Err(MdxError::Malformed)
                } else {
                    match parse_key_block_info_spec(
                        data.subrange(cur, cur + kbh.key_block_info_len),
                        h,
                    ) {
                        Err(e) => Err(e),
                        Ok(sizes) => {
                            if sizes.len() != kbh.block_num {
                                Err(MdxError::Malformed)
                            } else {
                                let cur2 = cur + kbh.key_block_info_len;
                                if kbh.key_blocks_len > data.len() - cur2 {
                                    Err(MdxError::Malformed)
                                } else {
                                    match parse_key_blocks_spec(
                                        data.subrange(cur2, cur2 + kbh.key_blocks_len),
                                        sizes,
                                        h.version,
                                        h.encoding,
                                    ) {
                                        Err(e) => Err(e),
                                        Ok(entries) => {
                                            if entries.len() != kbh.entry_num {
                                                Err(MdxError::Malformed)
                                            } else {
                                                mdx_open_tail_spec(
                                                    data,
                                                    h,
                                                    cur2 + kbh.key_blocks_len,
                                                    entries,
                                                )
                                            }
                                        },
                                    }
                                }
                            }
                        },
                    }
                }
            },
        },
    }
}

/// The record-section half of [`mdx_open_spec`].
pub open spec fn mdx_open_tail_spec(
    data: Seq<u8>,
    h: HeaderModel,
    cur3: int,
    entries: Seq<RecordDeBufOffsetModel>,
) -> Result<MdxModel, MdxError> {
    if !entries_increasing(entries) {
        Err(MdxError::Malformed)
    } else {
        match parse_record_blocks_spec(data.skip(cur3), h.version) {
            Err(e) => Err(e),
            Ok((rc, rec_entry_num, rsizes)) => {
                let region = data.skip(cur3 + rc);
                if entries.len() != rec_entry_num {
                    Err(MdxError::Malformed)
                } else if sum_dsize(rsizes) > usize::MAX {
                    Err(MdxError::Malformed)
                } else if sum_csize(rsizes) != region.len() {
                    Err(MdxError::Malformed)
                } else {
                    let locs = locators_spec(entries, rsizes);
                    if locs.len() != entries.len() {
                        Err(MdxError::Malformed)
                    } else {
                        Ok(
                            MdxModel {
                                records_offset: locs,
                                record_block_buf: region,
                                encoding: h.encoding,
                                encrypted: h.encrypted,
                            },
                        )
                    }
                }
            },
        }
    }
}

/// Checks that the entry offsets strictly increase.
fn check_entries_increasing(entries: &Vec<RecordDeBufOffset>) -> (r: bool)
    ensures
        r == entries_increasing(entries_view(entries@)),
{
    let n = entries.len();
    let ghost ent = entries_view(entries@);
    let mut i: usize = 0;
    if n == 0 {
        return true;
    }
    while i < n - 1
        invariant
            0 <= i <= n - 1,
            n >= 1,
            n == entries@.len(),
            ent == entries_view(entries@),
            forall|j: int|
                #![trigger ent[j].record_offset_in_debuf]
                0 <= j && j + 1 < i + 1 ==> ent[j].record_offset_in_debuf < ent[j
                    + 1].record_offset_in_debuf,
        decreases n - i,
    {
        if entries[i].record_offset_in_debuf >= entries[i + 1].record_offset_in_debuf {
            proof {
                assert(ent[i as int].record_offset_in_debuf >= ent[i + 1].record_offset_in_debuf);
            }
            return false;
        }
        i = i + 1;
    }
    true
}

/// Sums both size columns, or reports that a sum does not fit the machine.
fn sum_sizes_checked(blocks: &Vec<RecordBlockSize>) -> (r: Option<(usize, usize)>)
    ensures
        match r {
            Some((sc, sd)) => {
                &&& sc == sum_csize(blocks@)
                &&& sd == sum_dsize(blocks@)
            },
            None => sum_csize(blocks@) > usize::MAX || sum_dsize(blocks@) > usize::MAX,
        },
{
    let n = blocks.len();
    let mut sc: usize = 0;
    let mut sd: usize = 0;
    let mut k: usize = 0;
    proof {
        assert(blocks@.take(0) =~= Seq::<RecordBlockSize>::empty());
    }
    while k < n
        invariant
            0 <= k <= n,
            n == blocks@.len(),
            sc == sum_csize(blocks@.take(k as int)),
            sd == sum_dsize(blocks@.take(k as int)),
        decreases n - k,
    {
        proof {
            lemma_sum_take_succ(blocks@, k as int);
        }
        let b = blocks[k];
        sc = match sc.checked_add(b.csize) {
            Some(v) => v,
            None => {
                proof {
                    lemma_sum_take_le(blocks@, k + 1);
                }
                return None;
            },
        };
        sd = match sd.checked_add(b.dsize) {
            Some(v) => v,
            None => {
                proof {
                    lemma_sum_take_le(blocks@, k + 1);
                }
                return None;
            },
        };
        k = k + 1;
    }
    proof {
        assert(blocks@.take(n as int) =~= blocks@);
    }
    Some((sc, sd))
}

/// What decoding one located definition yields: the enclosing block is
/// sliced out of the record region, decoded and verified, the entry's range
/// is cut from the payload, a trailing NUL is stripped, and the bytes are
/// decoded with the header encoding.
pub open spec fn definition_spec(m: MdxModel, l: RecordOffsetInfoModel) -> Result<
    Seq<char>,
    MdxError,
> {
    let block = m.record_block_buf.subrange(
        l.block_offset_in_buf,
        l.block_offset_in_buf + l.block_csize,
    );
    match block_decode_spec(block, l.block_dsize as nat) {
        Err(e) => Err(e),
        Ok(payload) => {
            if l.record_end_in_de_block > payload.len() {
                Err(MdxError::Malformed)
            } else {
                let raw = payload.subrange(l.record_start_in_de_block, l.record_end_in_de_block);
                let trimmed = if raw.len() > 0 && raw.last() == 0 {
                    raw.drop_last()
                } else {
                    raw
                };
                match whatwg_decoded(m.encoding, trimmed) {
                    None => Err(MdxError::Unsupported),
                    Some(t) => Ok(t),
                }
            }
        },
    }
}

/// What enumerating the catalog from index `k` yields: every definition in
/// file order, or the first per-block fault.
pub open spec fn items_from(m: MdxModel, k: int) -> Result<Seq<RecordModel>, MdxError>
    decreases m.records_offset.len() + 1 - k when 0 <= k
{
    if k < 0 || k >= m.records_offset.len() {
        Ok(Seq::empty())
    } else {
        match definition_spec(m, m.records_offset[k]) {
            Err(e) => Err(e),
            Ok(d) => match items_from(m, k + 1) {
                Err(e) => Err(e),
                Ok(rest) => Ok(
                    seq![RecordModel { text: m.records_offset[k].text, definition: d }] + rest,
                ),
            },
        }
    }
}

/// What [`Mdx::items`] yields.
pub open spec fn items_spec(m: MdxModel) -> Result<Seq<RecordModel>, MdxError> {
    items_from(m, 0)
}

/// Index of the first locator whose headword equals `w`, from `k` on.
pub open spec fn find_entry_from(m: MdxModel, w: Seq<char>, k: int) -> Option<int>
    decreases m.records_offset.len() + 1 - k when 0 <= k
{
    if k < 0 || k >= m.records_offset.len() {
        None
    } else if m.records_offset[k].text == w {
        Some(k)
    } else {
        find_entry_from(m, w, k + 1)
    }
}

/// What [`Mdx::lookup`] yields: the definition of the first matching
/// headword, or nothing when the headword is absent or its block faults.
pub open spec fn lookup_spec(m: MdxModel, w: Seq<char>) -> Option<Seq<char>> {
    match find_entry_from(m, w, 0) {
        None => None,
        Some(k) => match definition_spec(m, m.records_offset[k]) {
            Ok(d) => Some(d),
            Err(_) => None,
        },
    }
}

/// Prefixes already-decoded records to a partial enumeration.
pub open spec fn records_with_prefix(
    acc: Seq<RecordModel>,
    rest: Result<Seq<RecordModel>, MdxError>,
) -> Result<Seq<RecordModel>, MdxError> {
    match rest {
        Err(e) => Err(e),
        Ok(r) => Ok(acc + r),
    }
}

impl Mdx {
    /// The dictionary is well-formed: every locator's slice and block
    /// bounds hold.
    pub open spec fn wf(self) -> bool {
        mdx_wf(self@)
    }

    /// Parses a whole MDX file held in memory.
    #[verifier::rlimit(100)]
    pub fn new(data: &[u8]) -> (r: Result<Mdx, MdxError>)
        ensures
            match r {
                Ok(m) => mdx_open_spec(data@) == Ok::<MdxModel, MdxError>(m@) && m.wf(),
                Err(e) => mdx_open_spec(data@) == Err::<MdxModel, MdxError>(e),
            },
    {
        let n = data.len();
        let (hc, header) = match parse_header(data) {
            Ok(v) => v,
            Err(e) => {
                return Err(e);
            },
        };
        let rest1 = vstd::slice::slice_subrange(data, hc, n);
        proof {
            assert(rest1@ =~= data@.skip(hc as int));
        }
        let (kc, kbh) = match parse_key_block_header(rest1, &header) {
            Ok(v) => v,
            Err(e) => {
                return Err(e);
            },
        };
        let cur = hc + kc;
        if kbh.key_block_info_len > n - cur {
            return Err(MdxError::Malformed);
        }
        let info = vstd::slice::slice_subrange(data, cur, cur + kbh.key_block_info_len);
        proof {
            assert(info@ =~= data@.subrange(cur as int, cur + kbh.key_block_info_len));
        }
        let sizes = match parse_key_block_info(info, &header) {
            Ok(v) => v,
            Err(e) => {
                return Err(e);
            },
        };
        if sizes.len() != kbh.block_num {
            return Err(MdxError::Malformed);
        }
        let cur2 = cur + kbh.key_block_info_len;
        if kbh.key_blocks_len > n - cur2 {
            return Err(MdxError::Malformed);
        }
        let kb_region = vstd::slice::slice_subrange(data, cur2, cur2 + kbh.key_blocks_len);
        proof {
            assert(kb_region@ =~= data@.subrange(cur2 as int, cur2 + kbh.key_blocks_len));
        }
        let entries = match parse_key_blocks(kb_region, &header, &sizes) {
            Ok(v) => v,
            Err(e) => {
                return Err(e);
            },
        };
        if entries.len() != kbh.entry_num {
            return Err(MdxError::Malformed);
        }
        let cur3 = cur2 + kbh.key_blocks_len;
        if !check_entries_increasing(&entries) {
            return Err(MdxError::Malformed);
        }
        let rest4 = vstd::slice::slice_subrange(data, cur3, n);
        proof {
            assert(rest4@ =~= data@.skip(cur3 as int));
        }
        let (rc, rec_entry_num, rsizes) = match parse_record_blocks(rest4, header.version) {
            Ok(v) => v,
            Err(e) => {
                return Err(e);
            },
        };
        if entries.len() != rec_entry_num {
            return Err(MdxError::Malformed);
        }
        let region = vstd::slice::slice_subrange(data, cur3 + rc, n);
        proof {
            assert(region@ =~= data@.skip(cur3 + rc));
        }
        let (sc, sd) = match sum_sizes_checked(&rsizes) {
            Some(v) => v,
            None => {
                return Err(MdxError::Malformed);
            },
        };
        if sc != region.len() {
            return Err(MdxError::Malformed);
        }
        let locs = records_offset(&entries, &rsizes);
        if locs.len() != entries.len() {
            return Err(MdxError::Malformed);
        }
        let m = Mdx {
            records_offset: locs,
            record_block_buf: vstd::slice::slice_to_vec(region),
            encoding: header.encoding,
            encrypted: header.encrypted,
        };
        proof {
            assert(locs_view(m.records_offset@) == locators_spec(entries_view(entries@), rsizes@));
        }
        Ok(m)
    }

    /// The locator catalog, in file order.
    pub fn entries(&self) -> (r: &Vec<RecordOffsetInfo>)
        ensures
            r@ == self.records_offset@,
    {
        &self.records_offset
    }

    /// Decodes the definition that one locator points at.
    pub fn find_definition(&self, rs: &RecordOffsetInfo) -> (r: Result<String, MdxError>)
        requires
            locator_wf(rs@),
            rs@.block_offset_in_buf + rs@.block_csize <= self.record_block_buf@.len(),
        ensures
            match r {
                Ok(s) => definition_spec(self@, rs@) == Ok::<Seq<char>, MdxError>(s@),
                Err(e) => definition_spec(self@, rs@) == Err::<Seq<char>, MdxError>(e),
            },
    {
        let buflen = self.record_block_buf.len();
        let block = vstd::slice::slice_subrange(
            self.record_block_buf.as_slice(),
            rs.block_offset_in_buf,
            rs.block_offset_in_buf + rs.block_csize,
        );
        let payload = match decode_block(block, rs.block_dsize) {
            Ok(p) => p,
            Err(e) => {
                return Err(e);
            },
        };
        if rs.record_end_in_de_block > payload.len() {
            return Err(MdxError::Malformed);
        }
        let raw = vstd::slice::slice_subrange(
            payload.as_slice(),
            rs.record_start_in_de_block,
            rs.record_end_in_de_block,
        );
        let rlen = raw.len();
        let trimmed: &[u8] = if rlen > 0 && raw[rlen - 1] == 0 {
            vstd::slice::slice_subrange(raw, 0, rlen - 1)
        } else {
            raw
        };
        proof {
            let l = rs@;
            let payload_s = payload@;
            let raw_s = payload_s.subrange(l.record_start_in_de_block, l.record_end_in_de_block);
            assert(raw@ =~= raw_s);
            if raw_s.len() > 0 && raw_s.last() == 0 {
                assert(trimmed@ =~= raw_s.drop_last());
            } else {
                assert(trimmed@ =~= raw_s);
            }
        }
        match decode_with_label(self.encoding.as_str(), trimmed) {
            Some(t) => Ok(t),
            None => Err(MdxError::Unsupported),
        }
    }

    /// Enumerates the catalog in file order, decoding every definition.
    pub fn items(&self) -> (r: Result<Vec<Record>, MdxError>)
        requires
            self.wf(),
        ensures
            match r {
                Ok(v) => items_spec(self@) == Ok::<Seq<RecordModel>, MdxError>(records_view(v@)),
                Err(e) => items_spec(self@) == Err::<Seq<RecordModel>, MdxError>(e),
            },
    {
        let n = self.records_offset.len();
        let mut acc: Vec<Record> = Vec::new();
        let mut k: usize = 0;
        proof {
            assert(records_view(acc@) =~= Seq::<RecordModel>::empty());
            match items_from(self@, 0) {
                Err(_) => {},
                Ok(r) => {
                    assert(Seq::<RecordModel>::empty() + r =~= r);
                },
            }
        }
        while k < n
            invariant
                0 <= k <= n,
                n == self.records_offset@.len(),
                self.wf(),
                items_spec(self@) == records_with_prefix(records_view(acc@), items_from(self@, k as int)),
            decreases n - k,
        {
            let rs = &self.records_offset[k];
            proof {
                assert(self@.records_offset[k as int] == rs@);
            }
            let d = match self.find_definition(rs) {
                Ok(d) => d,
                Err(e) => {
                    return Err(e);
                },
            };
            let one = Record { text: rs.text.clone(), definition: d };
            proof {
                let m = self@;
                assert(items_from(m, k as int) == (match items_from(m, k + 1) {
                    Err(e) => Err::<Seq<RecordModel>, MdxError>(e),
                    Ok(rest) => Ok(seq![one@] + rest),
                }));
                assert(records_view(acc@.push(one)) =~= records_view(acc@) + seq![one@]);
                match items_from(m, k + 1) {
                    Err(_) => {},
                    Ok(rest) => {
                        assert((records_view(acc@) + seq![one@]) + rest =~= records_view(acc@) + (
                        seq![one@] + rest));
                    },
                }
            }
            acc.push(one);
            k = k + 1;
        }
        proof {
            assert(records_view(acc@) + Seq::<RecordModel>::empty() =~= records_view(acc@));
        }
        Ok(acc)
    }

    /// Looks one headword up by linear scan; the first match decides.
    /// An unknown headword yields nothing; so does a matching entry whose
    /// block fails to decode.
    pub fn lookup(&self, word: &str) -> (r: Option<String>)
        requires
            self.wf(),
        ensures
            match r {
                Some(s) => lookup_spec(self@, word@) == Some(s@),
                None => lookup_spec(self@, word@) is None,
            },
    {
        let w: String = word.to_owned();
        let n = self.records_offset.len();
        let mut k: usize = 0;
        while k < n
            invariant
                0 <= k <= n,
                n == self.records_offset@.len(),
                self.wf(),
                w@ == word@,
                find_entry_from(self@, word@, 0) == find_entry_from(self@, word@, k as int),
            decreases n - k,
        {
            let rs = &self.records_offset[k];
            proof {
                assert(self@.records_offset[k as int] == rs@);
            }
            if rs.text == w {
                match self.find_definition(rs) {
                    Ok(d) => {
                        return Some(d);
                    },
                    Err(_) => {
                        return None;
                    },
                }
            }
            k = k + 1;
        }
        None
    }
}



/// No two locators carry the same headword.
pub open spec fn texts_unique(m: MdxModel) -> bool {
    forall|i: int, j: int|
        0 <= i < j < m.records_offset.len() ==> m.records_offset[i].text != m.records_offset[j].text
}

/// A successful enumeration holds, at each index, exactly that locator's
/// headword and decoded definition.
pub proof fn lemma_items_from_index(m: MdxModel, k: int, v: Seq<RecordModel>)
    requires
        0 <= k <= m.records_offset.len(),
        items_from(m, k) == Ok::<Seq<RecordModel>, MdxError>(v),
    ensures
        v.len() == m.records_offset.len() - k,
        forall|j: int|
            k <= j < m.records_offset.len() ==> definition_spec(m, #[trigger] m.records_offset[j])
                is Ok,
        forall|j: int|
            k <= j < m.records_offset.len() ==> v[j - k] == (RecordModel {
                text: m.records_offset[j].text,
                definition: definition_spec(m, #[trigger] m.records_offset[j]).unwrap(),
            }),
    decreases m.records_offset.len() - k,
{
    if k == m.records_offset.len() {
    } else {
        match items_from(m, k + 1) {
            Err(_) => {
                assert(false);
            },
            Ok(rest) => {
                lemma_items_from_index(m, k + 1, rest);
                assert forall|j: int| k <= j < m.records_offset.len() implies v[j - k]
                    == (RecordModel {
                    text: m.records_offset[j].text,
                    definition: definition_spec(m, #[trigger] m.records_offset[j]).unwrap(),
                }) by {
                    if j > k {
                        assert(v[j - k] == rest[j - (k + 1)]);
                    }
                }
            },
        }
    }
}

/// The first matching index really is `k` when no earlier locator matches.
proof fn lemma_find_entry_hits(m: MdxModel, w: Seq<char>, j: int, k: int)
    requires
        0 <= j <= k < m.records_offset.len(),
        m.records_offset[k].text == w,
        forall|i: int| j <= i < k ==> m.records_offset[i].text != w,
    ensures
        find_entry_from(m, w, j) == Some(k),
    decreases k - j,
{
    if j < k {
        lemma_find_entry_hits(m, w, j + 1, k);
    }
}

/// Law: enumerating the catalog and looking headwords up agree. When every
/// headword is unique and the whole catalog enumerates without fault, the
/// `k`-th enumerated pair is exactly what looking its headword up returns.
pub proof fn lemma_items_lookup_roundtrip(m: MdxModel, v: Seq<RecordModel>, k: int)
    requires
        items_spec(m) == Ok::<Seq<RecordModel>, MdxError>(v),
        0 <= k < m.records_offset.len(),
        texts_unique(m),
    ensures
        v.len() == m.records_offset.len(),
        v[k].text == m.records_offset[k].text,
        lookup_spec(m, v[k].text) == Some(v[k].definition),
{
    lemma_items_from_index(m, 0, v);
    lemma_find_entry_hits(m, m.records_offset[k].text, 0, k);
}

/// Law: parsing is a function of the file bytes alone, so re-running the
/// indexer over an unchanged file enumerates exactly the same rows.
pub proof fn lemma_reindex_idempotent(data: Seq<u8>, m1: MdxModel, m2: MdxModel)
    requires
        mdx_open_spec(data) == Ok::<MdxModel, MdxError>(m1),
        mdx_open_spec(data) == Ok::<MdxModel, MdxError>(m2),
    ensures
        m1 == m2,
        items_spec(m1) == items_spec(m2),
{
}

/// Law: within one block, the entries' slices tile the decompressed payload:
/// each slice ends where the next begins, and the block's last slice ends at
/// the block's decompressed size — also when the next entry lies in a later
/// block.
pub proof fn lemma_block_slices_tile(
    entries: Seq<RecordDeBufOffsetModel>,
    i: int,
    pre_d: int,
    pre_c: int,
    b: RecordBlockSize,
)
    requires
        0 <= i,
    ensures
        forall|k: int|
            0 <= k && k + 1 < sweep_block(entries, i, pre_d, pre_c, b).0.len() ==> #[trigger] sweep_block(
                entries,
                i,
                pre_d,
                pre_c,
                b,
            ).0[k].record_end_in_de_block == sweep_block(
                entries,
                i,
                pre_d,
                pre_c,
                b,
            ).0[k + 1].record_start_in_de_block,
        sweep_block(entries, i, pre_d, pre_c, b).0.len() > 0 ==> sweep_block(
            entries,
            i,
            pre_d,
            pre_c,
            b,
        ).0.last().record_end_in_de_block == b.dsize,
    decreases entries.len() + 1 - i,
{
    let r = sweep_block(entries, i, pre_d, pre_c, b);
    if i < entries.len() && entries[i].record_offset_in_debuf < pre_d + b.dsize {
        let rest = sweep_block(entries, i + 1, pre_d, pre_c, b);
        lemma_block_slices_tile(entries, i + 1, pre_d, pre_c, b);
        if rest.0.len() > 0 {
            assert(i + 1 < entries.len() && entries[i + 1].record_offset_in_debuf < pre_d
                + b.dsize);
            assert(rest.0[0].record_start_in_de_block == entries[i + 1].record_offset_in_debuf
                - pre_d);
            assert(r.0.last() == rest.0.last());
            assert forall|k: int| 0 <= k && k + 1 < r.0.len() implies #[trigger] r.0[k].record_end_in_de_block
                == r.0[k + 1].record_start_in_de_block by {
                if k > 0 {
                    assert(r.0[k] == rest.0[k - 1]);
                    assert(r.0[k + 1] == rest.0[k]);
                } else {
                    assert(r.0[1] == rest.0[0]);
                }
            }
        } else {
            assert(r.0.len() == 1);
            assert(r.0.last() == r.0[0]);
        }
    }
}


/// Law: with strictly increasing entry offsets, the slice starts within one
/// block strictly increase too, so a block's locators are sorted by start.
pub proof fn lemma_block_starts_increase(
    entries: Seq<RecordDeBufOffsetModel>,
    i: int,
    pre_d: int,
    pre_c: int,
    b: RecordBlockSize,
)
    requires
        0 <= i,
        entries_increasing(entries),
    ensures
        forall|k: int|
            0 <= k && k + 1 < sweep_block(entries, i, pre_d, pre_c, b).0.len() ==> #[trigger] sweep_block(
                entries,
                i,
                pre_d,
                pre_c,
                b,
            ).0[k].record_start_in_de_block < sweep_block(
                entries,
                i,
                pre_d,
                pre_c,
                b,
            ).0[k + 1].record_start_in_de_block,
    decreases entries.len() + 1 - i,
{
    let r = sweep_block(entries, i, pre_d, pre_c, b);
    if i < entries.len() && entries[i].record_offset_in_debuf < pre_d + b.dsize {
        let rest = sweep_block(entries, i + 1, pre_d, pre_c, b);
        lemma_block_starts_increase(entries, i + 1, pre_d, pre_c, b);
        if rest.0.len() > 0 {
            assert(entries[i].record_offset_in_debuf < entries[i + 1].record_offset_in_debuf);
            assert(rest.0[0].record_start_in_de_block == entries[i + 1].record_offset_in_debuf
                - pre_d);
            assert forall|k: int| 0 <= k && k + 1 < r.0.len() implies #[trigger] r.0[k].record_start_in_de_block
                < r.0[k + 1].record_start_in_de_block by {
                if k > 0 {
                    assert(r.0[k] == rest.0[k - 1]);
                    assert(r.0[k + 1] == rest.0[k]);
                } else {
                    assert(r.0[1] == rest.0[0]);
                }
            }
        }
    }
}

} // verus!
