use std::io::Write;

use mdx::checksum::adler32;
use mdx::header::{Header, Version};
use mdx::keyblock::{parse_key_block_header, parse_key_block_info, parse_key_blocks,
    KeyBlockSize, RecordDeBufOffset};
use mdx::mdx::records_offset;
use mdx::recordblock::{parse_record_blocks, RecordBlockSize};
use mdx::MdxError;

fn v2_header() -> Header {
    Header {
        version: Version::V2,
        encrypted: "0".to_string(),
        encoding: "UTF-8".to_string(),
    }
}

fn v1_header() -> Header {
    Header {
        version: Version::V1,
        encrypted: "0".to_string(),
        encoding: "UTF-8".to_string(),
    }
}

fn zlib_compress(data: &[u8]) -> Vec<u8> {
    let mut enc = flate2::write::ZlibEncoder::new(Vec::new(), flate2::Compression::default());
    enc.write_all(data).unwrap();
    enc.finish().unwrap()
}

fn mk_block(payload: &[u8]) -> Vec<u8> {
    let mut out = vec![0x02, 0x00, 0x00, 0x00];
    out.extend_from_slice(&adler32(payload).to_be_bytes());
    out.extend_from_slice(&zlib_compress(payload));
    out
}

#[test]
fn key_meta_v2_fields_and_checksum() {
    let mut meta = Vec::new();
    for v in [3u64, 120, 77, 88, 99] {
        meta.extend_from_slice(&v.to_be_bytes());
    }
    let mut data = meta.clone();
    data.extend_from_slice(&adler32(&meta).to_be_bytes());
    data.extend_from_slice(b"tail");

    let (consumed, kbh) = parse_key_block_header(&data, &v2_header()).unwrap();
    assert_eq!(consumed, 44);
    assert_eq!(kbh.block_num, 3);
    assert_eq!(kbh.entry_num, 120);
    assert_eq!(kbh.key_block_info_decompressed_len, 77);
    assert_eq!(kbh.key_block_info_len, 88);
    assert_eq!(kbh.key_blocks_len, 99);

    let mut bad = data.clone();
    bad[41] ^= 0x10;
    assert_eq!(
        parse_key_block_header(&bad, &v2_header()).unwrap_err(),
        MdxError::ChecksumMismatch
    );
    assert_eq!(
        parse_key_block_header(&data[..20], &v2_header()).unwrap_err(),
        MdxError::Malformed
    );
}

#[test]
fn key_meta_v1_fields() {
    let mut data = Vec::new();
    for v in [2u32, 10, 20, 30] {
        data.extend_from_slice(&v.to_be_bytes());
    }
    let (consumed, kbh) = parse_key_block_header(&data, &v1_header()).unwrap();
    assert_eq!(consumed, 16);
    assert_eq!(kbh.block_num, 2);
    assert_eq!(kbh.entry_num, 10);
    assert_eq!(kbh.key_block_info_decompressed_len, 20);
    assert_eq!(kbh.key_block_info_len, 20);
    assert_eq!(kbh.key_blocks_len, 30);
}

#[test]
fn key_info_v1_raw_table() {
    // Two records, each: u32 count, 1-byte head length + text, 1-byte tail
    // length + text, u32 csize, u32 dsize.
    let mut info = Vec::new();
    for (c, d) in [(41u32, 52u32), (63, 74)] {
        info.extend_from_slice(&9u32.to_be_bytes());
        info.push(1);
        info.extend_from_slice(b"a");
        info.push(1);
        info.extend_from_slice(b"z");
        info.extend_from_slice(&c.to_be_bytes());
        info.extend_from_slice(&d.to_be_bytes());
    }
    let sizes = parse_key_block_info(&info, &v1_header()).unwrap();
    assert_eq!(sizes.len(), 2);
    assert_eq!(sizes[0], KeyBlockSize { csize: 41, dsize: 52 });
    assert_eq!(sizes[1], KeyBlockSize { csize: 63, dsize: 74 });

    // a ragged tail is rejected
    info.push(0);
    assert_eq!(
        parse_key_block_info(&info, &v1_header()).unwrap_err(),
        MdxError::Malformed
    );
}

#[test]
fn key_info_rejects_undersized_blocks() {
    // One record whose sizes break the invariant: a compressed size below
    // the 8 tag-and-checksum bytes, or a zero decompressed size.
    let one_record = |c: u32, d: u32| -> Vec<u8> {
        let mut info = Vec::new();
        info.extend_from_slice(&1u32.to_be_bytes());
        info.push(1);
        info.extend_from_slice(b"a");
        info.push(1);
        info.extend_from_slice(b"z");
        info.extend_from_slice(&c.to_be_bytes());
        info.extend_from_slice(&d.to_be_bytes());
        info
    };
    assert_eq!(
        parse_key_block_info(&one_record(0, 0), &v1_header()).unwrap_err(),
        MdxError::Malformed
    );
    assert_eq!(
        parse_key_block_info(&one_record(7, 5), &v1_header()).unwrap_err(),
        MdxError::Malformed
    );
    assert_eq!(
        parse_key_block_info(&one_record(8, 0), &v1_header()).unwrap_err(),
        MdxError::Malformed
    );
    let ok = parse_key_block_info(&one_record(8, 1), &v1_header()).unwrap();
    assert_eq!(ok[0], KeyBlockSize { csize: 8, dsize: 1 });
}

#[test]
fn key_blocks_reject_leftover_bytes() {
    let payload = {
        let mut p = Vec::new();
        p.extend_from_slice(&0u64.to_be_bytes());
        p.extend_from_slice(b"word");
        p.push(0);
        p
    };
    let block = mk_block(&payload);
    let sizes = vec![KeyBlockSize { csize: block.len(), dsize: payload.len() }];

    let entries = parse_key_blocks(&block, &v2_header(), &sizes).unwrap();
    assert_eq!(entries.len(), 1);
    assert_eq!(entries[0].text, "word");
    assert_eq!(entries[0].record_offset_in_debuf, 0);

    let mut with_tail = block.clone();
    with_tail.push(0xAB);
    assert_eq!(
        parse_key_blocks(&with_tail, &v2_header(), &sizes).unwrap_err(),
        MdxError::Malformed
    );
}

#[test]
fn record_meta_v2_checks_info_length() {
    let mut data = Vec::new();
    for v in [2u64, 5, 32, 1000] {
        data.extend_from_slice(&v.to_be_bytes());
    }
    for v in [11u64, 21, 12, 22] {
        data.extend_from_slice(&v.to_be_bytes());
    }
    let (consumed, entry_num, sizes) = parse_record_blocks(&data, Version::V2).unwrap();
    assert_eq!(consumed, 32 + 32);
    assert_eq!(entry_num, 5);
    assert_eq!(sizes.len(), 2);
    assert_eq!(sizes[0], RecordBlockSize { csize: 11, dsize: 21 });
    assert_eq!(sizes[1], RecordBlockSize { csize: 12, dsize: 22 });

    // declared info length that disagrees with the block count
    let mut bad = data.clone();
    bad[16..24].copy_from_slice(&31u64.to_be_bytes());
    assert_eq!(
        parse_record_blocks(&bad, Version::V2).unwrap_err(),
        MdxError::Malformed
    );
}

#[test]
fn record_meta_rejects_undersized_blocks() {
    let one_block = |c: u64, d: u64| -> Vec<u8> {
        let mut data = Vec::new();
        for v in [1u64, 1, 16, 1000] {
            data.extend_from_slice(&v.to_be_bytes());
        }
        data.extend_from_slice(&c.to_be_bytes());
        data.extend_from_slice(&d.to_be_bytes());
        data
    };
    assert_eq!(
        parse_record_blocks(&one_block(7, 5), Version::V2).unwrap_err(),
        MdxError::Malformed
    );
    assert_eq!(
        parse_record_blocks(&one_block(11, 0), Version::V2).unwrap_err(),
        MdxError::Malformed
    );
    let (_, _, sizes) = parse_record_blocks(&one_block(8, 1), Version::V2).unwrap();
    assert_eq!(sizes[0], RecordBlockSize { csize: 8, dsize: 1 });
}

#[test]
fn reconciler_assigns_blocks_and_slices() {
    let entries = vec![
        RecordDeBufOffset { text: "a".to_string(), record_offset_in_debuf: 0 },
        RecordDeBufOffset { text: "b".to_string(), record_offset_in_debuf: 4 },
        RecordDeBufOffset { text: "c".to_string(), record_offset_in_debuf: 10 },
    ];
    let blocks = vec![
        RecordBlockSize { csize: 9, dsize: 10 },
        RecordBlockSize { csize: 8, dsize: 5 },
    ];
    let locs = records_offset(&entries, &blocks);
    assert_eq!(locs.len(), 3);

    // first entry: block 0 at file offset 0, slice up to the next entry
    assert_eq!(locs[0].block_offset_in_buf, 0);
    assert_eq!(locs[0].block_csize, 9);
    assert_eq!(locs[0].block_dsize, 10);
    assert_eq!(locs[0].record_start_in_de_block, 0);
    assert_eq!(locs[0].record_end_in_de_block, 4);

    // second entry: last of block 0, so its slice runs to the block's dsize,
    // although the next entry exists in the next block
    assert_eq!(locs[1].record_start_in_de_block, 4);
    assert_eq!(locs[1].record_end_in_de_block, 10);

    // third entry: offset 10 equals the first block's total, so it belongs
    // to block 1, which starts at file offset 9
    assert_eq!(locs[2].block_offset_in_buf, 9);
    assert_eq!(locs[2].block_csize, 8);
    assert_eq!(locs[2].block_dsize, 5);
    assert_eq!(locs[2].record_start_in_de_block, 0);
    assert_eq!(locs[2].record_end_in_de_block, 5);
    assert_eq!(locs[2].text, "c");
}
