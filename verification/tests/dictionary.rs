use std::io::Write;

use mdx::checksum::adler32;
use mdx::compress::zlib_inflate;
use mdx::header::{parse_header, Version};
use mdx::mdx::Mdx;
use mdx::MdxError;
use ripemd::Digest;

fn zlib_compress(data: &[u8]) -> Vec<u8> {
    let mut enc = flate2::write::ZlibEncoder::new(Vec::new(), flate2::Compression::default());
    enc.write_all(data).unwrap();
    enc.finish().unwrap()
}

/// One compressed block as MDX stores it: deflate tag, big-endian Adler-32
/// of the payload, deflated payload.
fn mk_block(payload: &[u8]) -> Vec<u8> {
    let mut out = vec![0x02, 0x00, 0x00, 0x00];
    out.extend_from_slice(&adler32(payload).to_be_bytes());
    out.extend_from_slice(&zlib_compress(payload));
    out
}

/// A stored (uncompressed) block: tag 0, Adler-32, raw payload.
fn mk_stored_block(payload: &[u8]) -> Vec<u8> {
    let mut out = vec![0x00, 0x00, 0x00, 0x00];
    out.extend_from_slice(&adler32(payload).to_be_bytes());
    out.extend_from_slice(payload);
    out
}

fn header_bytes(version: &str, encrypted: &str, encoding: &str) -> Vec<u8> {
    let text = format!(
        "<Dictionary GeneratedByEngineVersion=\"{}\" Encrypted=\"{}\" Encoding=\"{}\"/>\0\0",
        version, encrypted, encoding
    );
    let tb: Vec<u8> = text.encode_utf16().flat_map(|u| u.to_le_bytes()).collect();
    let mut out = Vec::new();
    out.extend_from_slice(&(tb.len() as u32).to_be_bytes());
    out.extend_from_slice(&tb);
    out.extend_from_slice(&adler32(&tb).to_le_bytes());
    out
}

fn key_block_payload_v2(entries: &[(u64, &str)]) -> Vec<u8> {
    let mut out = Vec::new();
    for (off, text) in entries {
        out.extend_from_slice(&off.to_be_bytes());
        out.extend_from_slice(text.as_bytes());
        out.push(0);
    }
    out
}

fn key_info_payload_v2(entry_count: u64, csize: u64, dsize: u64) -> Vec<u8> {
    let mut p = Vec::new();
    p.extend_from_slice(&entry_count.to_be_bytes());
    p.extend_from_slice(&1u16.to_be_bytes());
    p.extend_from_slice(b"a");
    p.push(0);
    p.extend_from_slice(&1u16.to_be_bytes());
    p.extend_from_slice(b"z");
    p.push(0);
    p.extend_from_slice(&csize.to_be_bytes());
    p.extend_from_slice(&dsize.to_be_bytes());
    p
}

fn fast_encrypt(plain: &[u8], key: &[u8]) -> Vec<u8> {
    let mut out = Vec::new();
    let mut prev: u8 = 0x36;
    for (i, p) in plain.iter().enumerate() {
        let t = p ^ prev ^ (i as u8) ^ key[i % key.len()];
        let c = (t >> 4) | (t << 4);
        out.push(c);
        prev = c;
    }
    out
}

fn info_decrypt_key(adler_bytes: &[u8]) -> Vec<u8> {
    let mut input = adler_bytes.to_vec();
    input.extend_from_slice(&[0x95, 0x36, 0x00, 0x00]);
    ripemd::Ripemd128::digest(&input).to_vec()
}

/// A complete synthetic V2 file. `corrupt_info_payload` flips a byte of the
/// info table after its checksum was taken, so the post-inflate Adler-32
/// must mismatch.
fn mk_v2_mdx(
    encrypted: &str,
    entries: &[(u64, &str)],
    record_payloads: &[&[u8]],
    corrupt_info_payload: bool,
) -> Vec<u8> {
    let kb_payload = key_block_payload_v2(entries);
    let key_block = mk_block(&kb_payload);
    let mut info_payload =
        key_info_payload_v2(entries.len() as u64, key_block.len() as u64, kb_payload.len() as u64);
    let info_adler = adler32(&info_payload);
    if corrupt_info_payload {
        info_payload[0] ^= 0xFF;
    }
    let compressed_info = zlib_compress(&info_payload);
    let mut info_region = vec![0x02, 0x00, 0x00, 0x00];
    info_region.extend_from_slice(&info_adler.to_be_bytes());
    if encrypted == "2" || encrypted == "3" {
        let key = info_decrypt_key(&info_adler.to_be_bytes());
        info_region.extend_from_slice(&fast_encrypt(&compressed_info, &key));
    } else {
        info_region.extend_from_slice(&compressed_info);
    }

    let mut meta = Vec::new();
    meta.extend_from_slice(&1u64.to_be_bytes());
    meta.extend_from_slice(&(entries.len() as u64).to_be_bytes());
    meta.extend_from_slice(&(info_payload.len() as u64).to_be_bytes());
    meta.extend_from_slice(&(info_region.len() as u64).to_be_bytes());
    meta.extend_from_slice(&(key_block.len() as u64).to_be_bytes());

    let mut out = header_bytes("2.0", encrypted, "UTF-8");
    out.extend_from_slice(&meta);
    out.extend_from_slice(&adler32(&meta).to_be_bytes());
    out.extend_from_slice(&info_region);
    out.extend_from_slice(&key_block);

    let blocks: Vec<Vec<u8>> = record_payloads.iter().map(|p| mk_block(p)).collect();
    out.extend_from_slice(&(blocks.len() as u64).to_be_bytes());
    out.extend_from_slice(&(entries.len() as u64).to_be_bytes());
    out.extend_from_slice(&((blocks.len() * 16) as u64).to_be_bytes());
    let total: usize = blocks.iter().map(|b| b.len()).sum();
    out.extend_from_slice(&(total as u64).to_be_bytes());
    for (b, p) in blocks.iter().zip(record_payloads.iter()) {
        out.extend_from_slice(&(b.len() as u64).to_be_bytes());
        out.extend_from_slice(&(p.len() as u64).to_be_bytes());
    }
    for b in &blocks {
        out.extend_from_slice(b);
    }
    out
}

/// A complete synthetic V1 file: 32-bit widths, raw info table, no extra
/// checksums in the key meta.
fn mk_v1_mdx(entries: &[(u32, &str)], record_payloads: &[&[u8]]) -> Vec<u8> {
    let mut kb_payload = Vec::new();
    for (off, text) in entries {
        kb_payload.extend_from_slice(&off.to_be_bytes());
        kb_payload.extend_from_slice(text.as_bytes());
        kb_payload.push(0);
    }
    let key_block = mk_block(&kb_payload);

    // V1 info record: u32 count, 1-byte head length + text, 1-byte tail
    // length + text (no terminators), u32 csize, u32 dsize.
    let mut info = Vec::new();
    info.extend_from_slice(&(entries.len() as u32).to_be_bytes());
    info.push(1);
    info.extend_from_slice(b"a");
    info.push(1);
    info.extend_from_slice(b"z");
    info.extend_from_slice(&(key_block.len() as u32).to_be_bytes());
    info.extend_from_slice(&(kb_payload.len() as u32).to_be_bytes());

    let mut out = header_bytes("1.2", "0", "UTF-8");
    out.extend_from_slice(&1u32.to_be_bytes());
    out.extend_from_slice(&(entries.len() as u32).to_be_bytes());
    out.extend_from_slice(&(info.len() as u32).to_be_bytes());
    out.extend_from_slice(&(key_block.len() as u32).to_be_bytes());
    out.extend_from_slice(&info);
    out.extend_from_slice(&key_block);

    let blocks: Vec<Vec<u8>> = record_payloads.iter().map(|p| mk_block(p)).collect();
    out.extend_from_slice(&(blocks.len() as u32).to_be_bytes());
    out.extend_from_slice(&(entries.len() as u32).to_be_bytes());
    out.extend_from_slice(&((blocks.len() * 8) as u32).to_be_bytes());
    let total: usize = blocks.iter().map(|b| b.len()).sum();
    out.extend_from_slice(&(total as u32).to_be_bytes());
    for (b, p) in blocks.iter().zip(record_payloads.iter()) {
        out.extend_from_slice(&(b.len() as u32).to_be_bytes());
        out.extend_from_slice(&(p.len() as u32).to_be_bytes());
    }
    for b in &blocks {
        out.extend_from_slice(b);
    }
    out
}

#[test]
fn zlib_test() -> Result<(), String> {
    let text = "Hello World!";
    let encode_buf: Vec<u8> = vec![];
    let mut encoder = flate2::write::ZlibEncoder::new(encode_buf, flate2::Compression::default());
    encoder.write_all(text.as_bytes()).unwrap();
    let compressed_bytes = encoder.finish().map_err(|e| e.to_string())?;
    println!("compressed_bytes = {:?}", &compressed_bytes);

    let decompressed = zlib_inflate(&compressed_bytes).unwrap();

    assert_eq!("Hello World!", String::from_utf8_lossy(&decompressed));
    Ok(())
}

#[test]
fn v2_lookup_two_entries() {
    // One key block with entries ("aa", 0) and ("bb", 4), one record block
    // of dsize 10 holding "AAA\0BBBBB\0": each definition is the slice up
    // to the next entry, with the trailing NUL stripped.
    let data = mk_v2_mdx("0", &[(0, "aa"), (4, "bb")], &[b"AAA\0BBBBB\0"], false);
    let dict = Mdx::new(&data).unwrap();
    assert_eq!(dict.lookup("aa"), Some("AAA".to_string()));
    assert_eq!(dict.lookup("bb"), Some("BBBBB".to_string()));
    assert_eq!(dict.lookup("cc"), None);
}

#[test]
fn v2_items_in_order() {
    let data = mk_v2_mdx("0", &[(0, "aa"), (4, "bb")], &[b"AAA\0BBBBB\0"], false);
    let dict = Mdx::new(&data).unwrap();
    let items = dict.items().unwrap();
    assert_eq!(items.len(), 2);
    assert_eq!(items[0].text, "aa");
    assert_eq!(items[0].definition, "AAA");
    assert_eq!(items[1].text, "bb");
    assert_eq!(items[1].definition, "BBBBB");
    // items and lookup agree entry by entry
    for it in &items {
        assert_eq!(dict.lookup(&it.text), Some(it.definition.clone()));
    }
}

#[test]
fn v2_utf8_definition() {
    let data = mk_v2_mdx("0", &[(0, "hw")], &["héllo".as_bytes()], false);
    let dict = Mdx::new(&data).unwrap();
    assert_eq!(dict.lookup("hw"), Some("héllo".to_string()));
}

#[test]
fn v1_and_v2_header_schemes_parse() {
    let v1 = mk_v1_mdx(&[(0, "one")], &[b"first\0"]);
    let d1 = Mdx::new(&v1).unwrap();
    assert_eq!(d1.lookup("one"), Some("first".to_string()));

    let v2 = mk_v2_mdx("0", &[(0, "one")], &[b"first\0"], false);
    let d2 = Mdx::new(&v2).unwrap();
    assert_eq!(d2.lookup("one"), Some("first".to_string()));

    let (_, h1) = parse_header(&v1).unwrap();
    assert_eq!(h1.version, Version::V1);
    let (_, h2) = parse_header(&v2).unwrap();
    assert_eq!(h2.version, Version::V2);
}

#[test]
fn v2_encrypted_key_info_decrypts() {
    let data = mk_v2_mdx("2", &[(0, "aa"), (4, "bb")], &[b"AAA\0BBBBB\0"], false);
    let dict = Mdx::new(&data).unwrap();
    assert_eq!(dict.lookup("aa"), Some("AAA".to_string()));
    assert_eq!(dict.lookup("bb"), Some("BBBBB".to_string()));
}

#[test]
fn v2_corrupted_key_info_checksum_mismatch() {
    let data = mk_v2_mdx("2", &[(0, "aa"), (4, "bb")], &[b"AAA\0BBBBB\0"], true);
    assert_eq!(Mdx::new(&data).unwrap_err(), MdxError::ChecksumMismatch);
}

#[test]
fn record_spanning_block_end_stops_at_dsize() {
    // The single entry's definition runs to the very last byte of the block:
    // the slice ends at the block's decompressed size, not at a NUL.
    let data = mk_v2_mdx("0", &[(0, "edge")], &[b"XYZ"], false);
    let dict = Mdx::new(&data).unwrap();
    assert_eq!(dict.lookup("edge"), Some("XYZ".to_string()));
}

#[test]
fn records_split_across_two_blocks() {
    // Two record blocks; the second entry's offset falls in the second
    // block, so its slice is taken there.
    let data = mk_v2_mdx("0", &[(0, "aa"), (6, "bb")], &[b"first\0", b"second\0"], false);
    let dict = Mdx::new(&data).unwrap();
    assert_eq!(dict.lookup("aa"), Some("first".to_string()));
    assert_eq!(dict.lookup("bb"), Some("second".to_string()));
}

#[test]
fn stored_record_block_decodes() {
    // Compression method 0: the payload is stored raw behind the tag.
    let kb_payload = key_block_payload_v2(&[(0, "kw")]);
    let key_block = mk_block(&kb_payload);
    let info_payload =
        key_info_payload_v2(1, key_block.len() as u64, kb_payload.len() as u64);
    let compressed_info = zlib_compress(&info_payload);
    let mut info_region = vec![0x02, 0x00, 0x00, 0x00];
    info_region.extend_from_slice(&adler32(&info_payload).to_be_bytes());
    info_region.extend_from_slice(&compressed_info);

    let mut meta = Vec::new();
    meta.extend_from_slice(&1u64.to_be_bytes());
    meta.extend_from_slice(&1u64.to_be_bytes());
    meta.extend_from_slice(&(info_payload.len() as u64).to_be_bytes());
    meta.extend_from_slice(&(info_region.len() as u64).to_be_bytes());
    meta.extend_from_slice(&(key_block.len() as u64).to_be_bytes());

    let mut out = header_bytes("2.0", "0", "UTF-8");
    out.extend_from_slice(&meta);
    out.extend_from_slice(&adler32(&meta).to_be_bytes());
    out.extend_from_slice(&info_region);
    out.extend_from_slice(&key_block);

    let record = mk_stored_block(b"plain\0");
    out.extend_from_slice(&1u64.to_be_bytes());
    out.extend_from_slice(&1u64.to_be_bytes());
    out.extend_from_slice(&16u64.to_be_bytes());
    out.extend_from_slice(&(record.len() as u64).to_be_bytes());
    out.extend_from_slice(&(record.len() as u64).to_be_bytes());
    out.extend_from_slice(&6u64.to_be_bytes());
    out.extend_from_slice(&record);

    let dict = Mdx::new(&out).unwrap();
    assert_eq!(dict.lookup("kw"), Some("plain".to_string()));
}

#[test]
fn truncated_file_is_malformed() {
    let data = mk_v2_mdx("0", &[(0, "aa")], &[b"x\0"], false);
    assert_eq!(Mdx::new(&data[..data.len() - 3]).unwrap_err(), MdxError::Malformed);
    assert_eq!(Mdx::new(&data[..2]).unwrap_err(), MdxError::Malformed);
}

#[test]
fn bad_header_checksum_is_mismatch() {
    let mut data = mk_v2_mdx("0", &[(0, "aa")], &[b"x\0"], false);
    // flip a byte of the header text: the stored little-endian Adler-32 no
    // longer matches
    data[6] ^= 0x01;
    assert_eq!(Mdx::new(&data).unwrap_err(), MdxError::ChecksumMismatch);
}

#[test]
fn unknown_engine_version_is_unsupported() {
    let mut out = header_bytes("9.0", "0", "UTF-8");
    out.extend_from_slice(&[0u8; 44]);
    assert_eq!(Mdx::new(&out).unwrap_err(), MdxError::Unsupported);
}

#[test]
fn garbage_deflate_stream_fails_decompress() {
    // A record block whose tag announces deflate but whose body is noise.
    let kb_payload = key_block_payload_v2(&[(0, "kw")]);
    let key_block = mk_block(&kb_payload);
    let info_payload =
        key_info_payload_v2(1, key_block.len() as u64, kb_payload.len() as u64);
    let compressed_info = zlib_compress(&info_payload);
    let mut info_region = vec![0x02, 0x00, 0x00, 0x00];
    info_region.extend_from_slice(&adler32(&info_payload).to_be_bytes());
    info_region.extend_from_slice(&compressed_info);

    let mut meta = Vec::new();
    meta.extend_from_slice(&1u64.to_be_bytes());
    meta.extend_from_slice(&1u64.to_be_bytes());
    meta.extend_from_slice(&(info_payload.len() as u64).to_be_bytes());
    meta.extend_from_slice(&(info_region.len() as u64).to_be_bytes());
    meta.extend_from_slice(&(key_block.len() as u64).to_be_bytes());

    let mut out = header_bytes("2.0", "0", "UTF-8");
    out.extend_from_slice(&meta);
    out.extend_from_slice(&adler32(&meta).to_be_bytes());
    out.extend_from_slice(&info_region);
    out.extend_from_slice(&key_block);

    let record = vec![0x02, 0x00, 0x00, 0x00, 0, 0, 0, 1, 0xDE, 0xAD, 0xBE, 0xEF];
    out.extend_from_slice(&1u64.to_be_bytes());
    out.extend_from_slice(&1u64.to_be_bytes());
    out.extend_from_slice(&16u64.to_be_bytes());
    out.extend_from_slice(&(record.len() as u64).to_be_bytes());
    out.extend_from_slice(&(record.len() as u64).to_be_bytes());
    out.extend_from_slice(&2u64.to_be_bytes());
    out.extend_from_slice(&record);

    let dict = Mdx::new(&out).unwrap();
    // The fault is per block and surfaces on access.
    assert_eq!(dict.lookup("kw"), None);
    assert_eq!(dict.items().unwrap_err(), MdxError::Decompress);
}

#[test]
fn record_block_bad_adler_is_checksum_mismatch() {
    // A stored record block whose Adler-32 field is off by one.
    let kb_payload = key_block_payload_v2(&[(0, "kw")]);
    let key_block = mk_block(&kb_payload);
    let info_payload = key_info_payload_v2(1, key_block.len() as u64, kb_payload.len() as u64);
    let mut info_region = vec![0x02, 0x00, 0x00, 0x00];
    info_region.extend_from_slice(&adler32(&info_payload).to_be_bytes());
    info_region.extend_from_slice(&zlib_compress(&info_payload));

    let mut meta = Vec::new();
    meta.extend_from_slice(&1u64.to_be_bytes());
    meta.extend_from_slice(&1u64.to_be_bytes());
    meta.extend_from_slice(&(info_payload.len() as u64).to_be_bytes());
    meta.extend_from_slice(&(info_region.len() as u64).to_be_bytes());
    meta.extend_from_slice(&(key_block.len() as u64).to_be_bytes());

    let mut out = header_bytes("2.0", "0", "UTF-8");
    out.extend_from_slice(&meta);
    out.extend_from_slice(&adler32(&meta).to_be_bytes());
    out.extend_from_slice(&info_region);
    out.extend_from_slice(&key_block);

    let payload = b"plain\0";
    let mut record = vec![0x00, 0x00, 0x00, 0x00];
    record.extend_from_slice(&(adler32(payload).wrapping_add(1)).to_be_bytes());
    record.extend_from_slice(payload);
    out.extend_from_slice(&1u64.to_be_bytes());
    out.extend_from_slice(&1u64.to_be_bytes());
    out.extend_from_slice(&16u64.to_be_bytes());
    out.extend_from_slice(&(record.len() as u64).to_be_bytes());
    out.extend_from_slice(&(record.len() as u64).to_be_bytes());
    out.extend_from_slice(&(payload.len() as u64).to_be_bytes());
    out.extend_from_slice(&record);

    let dict = Mdx::new(&out).unwrap();
    assert_eq!(dict.lookup("kw"), None);
    assert_eq!(dict.items().unwrap_err(), MdxError::ChecksumMismatch);
}

#[test]
fn lzo_block_round_trip() {
    let payload = b"lzo compressed record payload, long enough to matter";
    let mut lzo = minilzo_rs::LZO::init().unwrap();
    let compressed = lzo.compress(payload).unwrap();
    let mut block = vec![0x01, 0x00, 0x00, 0x00];
    block.extend_from_slice(&adler32(payload).to_be_bytes());
    block.extend_from_slice(&compressed);
    let decoded = mdx::block::decode_block(&block, payload.len()).unwrap();
    assert_eq!(decoded, payload.to_vec());
}

#[test]
fn locators_are_well_formed_and_increasing() {
    let data = mk_v2_mdx(
        "0",
        &[(0, "aa"), (4, "bb"), (10, "cc")],
        &[b"AAA\0BBBBB\0", b"CCCC\0"],
        false,
    );
    let dict = Mdx::new(&data).unwrap();
    let locs = dict.entries();
    assert_eq!(locs.len(), 3);
    let mut last_global_start: Option<(usize, usize)> = None;
    for l in locs.iter() {
        assert!(l.record_start_in_de_block < l.record_end_in_de_block);
        assert!(l.record_end_in_de_block <= l.block_dsize);
        let key = (l.block_offset_in_buf, l.record_start_in_de_block);
        if let Some(prev) = last_global_start {
            assert!(prev < key);
        }
        last_global_start = Some(key);
    }
    assert_eq!(dict.lookup("cc"), Some("CCCC".to_string()));
}

#[test]
fn reindex_same_bytes_same_items() {
    let data = mk_v2_mdx("0", &[(0, "aa"), (4, "bb")], &[b"AAA\0BBBBB\0"], false);
    let d1 = Mdx::new(&data).unwrap();
    let d2 = Mdx::new(&data).unwrap();
    let i1 = d1.items().unwrap();
    let i2 = d2.items().unwrap();
    assert_eq!(i1.len(), i2.len());
    for (a, b) in i1.iter().zip(i2.iter()) {
        assert_eq!(a.text, b.text);
        assert_eq!(a.definition, b.definition);
    }
}

#[test]
fn unknown_encoding_label_is_unsupported() {
    // The headwords cannot be decoded: the WHATWG registry knows no such
    // label, so opening the file fails closed.
    let kb_payload = key_block_payload_v2(&[(0, "kw")]);
    let key_block = mk_block(&kb_payload);
    let info_payload = key_info_payload_v2(1, key_block.len() as u64, kb_payload.len() as u64);
    let mut info_region = vec![0x02, 0x00, 0x00, 0x00];
    info_region.extend_from_slice(&adler32(&info_payload).to_be_bytes());
    info_region.extend_from_slice(&zlib_compress(&info_payload));

    let mut meta = Vec::new();
    meta.extend_from_slice(&1u64.to_be_bytes());
    meta.extend_from_slice(&1u64.to_be_bytes());
    meta.extend_from_slice(&(info_payload.len() as u64).to_be_bytes());
    meta.extend_from_slice(&(info_region.len() as u64).to_be_bytes());
    meta.extend_from_slice(&(key_block.len() as u64).to_be_bytes());

    let mut out = header_bytes("2.0", "0", "no-such-encoding");
    out.extend_from_slice(&meta);
    out.extend_from_slice(&adler32(&meta).to_be_bytes());
    out.extend_from_slice(&info_region);
    out.extend_from_slice(&key_block);

    let record = mk_stored_block(b"x\0");
    out.extend_from_slice(&1u64.to_be_bytes());
    out.extend_from_slice(&1u64.to_be_bytes());
    out.extend_from_slice(&16u64.to_be_bytes());
    out.extend_from_slice(&(record.len() as u64).to_be_bytes());
    out.extend_from_slice(&(record.len() as u64).to_be_bytes());
    out.extend_from_slice(&2u64.to_be_bytes());
    out.extend_from_slice(&record);

    assert_eq!(Mdx::new(&out).unwrap_err(), MdxError::Unsupported);
}

#[test]
fn encrypted_flag_out_of_domain_is_malformed() {
    // The flag must be one of the digit strings "0".."3".
    let mut out = header_bytes("2.0", "7", "UTF-8");
    out.extend_from_slice(&[0u8; 44]);
    assert_eq!(Mdx::new(&out).unwrap_err(), MdxError::Malformed);

    // "1" (record blocks encrypted) is in the domain and not an info-table
    // flag, so the header parses.
    let (_, h) = parse_header(&header_bytes("2.0", "1", "UTF-8")).unwrap();
    assert_eq!(h.encrypted, "1");
}

#[test]
fn bad_checksum_reported_before_bad_text() {
    // A 9-byte header whose declared text length is odd AND whose checksum
    // disagrees: the checksum is verified before the text is interpreted.
    let mut data = vec![0u8, 0, 0, 1, 0xAA];
    data.extend_from_slice(&0u32.to_le_bytes());
    assert_eq!(parse_header(&data).unwrap_err(), MdxError::ChecksumMismatch);

    // With the checksum right, the odd length itself is the fault.
    let mut ok_sum = vec![0u8, 0, 0, 1, 0xAA];
    ok_sum.extend_from_slice(&adler32(&[0xAA]).to_le_bytes());
    assert_eq!(parse_header(&ok_sum).unwrap_err(), MdxError::Malformed);
}

#[test]
fn framed_lzo_block_decodes() {
    // Some writers prepend 0xF0 to the raw LZO stream; the decoder strips it
    // and retries.
    let payload = b"framed lzo payload, repeated, repeated, repeated";
    let mut lzo = minilzo_rs::LZO::init().unwrap();
    let compressed = lzo.compress(payload).unwrap();
    let mut block = vec![0x01, 0x00, 0x00, 0x00];
    block.extend_from_slice(&adler32(payload).to_be_bytes());
    block.push(0xF0);
    block.extend_from_slice(&compressed);
    let decoded = mdx::block::decode_block(&block, payload.len()).unwrap();
    assert_eq!(decoded, payload.to_vec());
}

#[test]
fn key_meta_entry_count_mismatch_is_malformed() {
    // The key meta declares five entries but the key block holds one.
    let kb_payload = key_block_payload_v2(&[(0, "kw")]);
    let key_block = mk_block(&kb_payload);
    let info_payload = key_info_payload_v2(5, key_block.len() as u64, kb_payload.len() as u64);
    let mut info_region = vec![0x02, 0x00, 0x00, 0x00];
    info_region.extend_from_slice(&adler32(&info_payload).to_be_bytes());
    info_region.extend_from_slice(&zlib_compress(&info_payload));

    let mut meta = Vec::new();
    meta.extend_from_slice(&1u64.to_be_bytes());
    meta.extend_from_slice(&5u64.to_be_bytes());
    meta.extend_from_slice(&(info_payload.len() as u64).to_be_bytes());
    meta.extend_from_slice(&(info_region.len() as u64).to_be_bytes());
    meta.extend_from_slice(&(key_block.len() as u64).to_be_bytes());

    let mut out = header_bytes("2.0", "0", "UTF-8");
    out.extend_from_slice(&meta);
    out.extend_from_slice(&adler32(&meta).to_be_bytes());
    out.extend_from_slice(&info_region);
    out.extend_from_slice(&key_block);

    let record = mk_stored_block(b"x\0");
    out.extend_from_slice(&1u64.to_be_bytes());
    out.extend_from_slice(&1u64.to_be_bytes());
    out.extend_from_slice(&16u64.to_be_bytes());
    out.extend_from_slice(&(record.len() as u64).to_be_bytes());
    out.extend_from_slice(&(record.len() as u64).to_be_bytes());
    out.extend_from_slice(&2u64.to_be_bytes());
    out.extend_from_slice(&record);

    assert_eq!(Mdx::new(&out).unwrap_err(), MdxError::Malformed);
}
