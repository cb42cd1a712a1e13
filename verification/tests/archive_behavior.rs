//! End-to-end tests over synthetic archives: parsing, validation, chunk
//! reassembly, lookups and repack planning.

use std::io::Write;

use sfs::archive::read_sfs;
use sfs::decompress::{decompress_chunk, decompress_sfs};
use sfs::error::{FormatFault, SfsError};
use sfs::finger;
use sfs::lookup::{
    unpack_from_sfs_by_class_name, unpack_from_sfs_by_fingerprint, unpack_from_sfs_by_path,
    unpack_sfs,
};
use sfs::repack::{plan_archive, plan_entry, RepackAction, RepackEntry};

/// One table-of-contents row for the builder: fingerprint, index, offset,
/// size.
type Row = (i64, u32, u32, u32);

/// Builds a complete archive file image: a valid header (checksum filled
/// in, and the middle region encrypted when `version` is `0xCA`), the
/// encrypted table of contents, the encrypted chunk-offset table, and the
/// chunk bytes themselves.
fn build_archive(
    version: u32,
    file_name: &str,
    rows: &[Row],
    chunks: &[Vec<u8>],
    uncompressed_size: u32,
) -> Vec<u8> {
    let toc_count = rows.len() as u32;
    let header_end: u32 = 256;
    let toc_end = 256 + 32 * toc_count;
    let n_chunks = (uncompressed_size >> 15) + if uncompressed_size & 0x7FFF != 0 { 1 } else { 0 };
    let cte = toc_end + 4 * n_chunks + 4;

    let mut h = vec![0u8; 256];
    h[0..4].copy_from_slice(&[0x53, 0x46, 0x53, 0x00]);
    h[4..8].copy_from_slice(&version.to_le_bytes());
    h[12..16].copy_from_slice(&toc_count.to_le_bytes());
    h[16..20].copy_from_slice(&header_end.to_le_bytes());
    h[20..24].copy_from_slice(&toc_end.to_le_bytes());
    // the on-disk chunk_table_end field is untrusted; store garbage there
    h[24..28].copy_from_slice(&0xDEAD_BEEFu32.to_le_bytes());
    h[28..32].copy_from_slice(&uncompressed_size.to_le_bytes());
    let checksum = sfs::parse::header_checksum(&h, 256);
    h[8..12].copy_from_slice(&checksum.to_le_bytes());

    let key = if version == 0xCA {
        finger::string(0, file_name)
    } else {
        finger::bytes(0, &h)
    };

    let mut toc_plain: Vec<u8> = Vec::new();
    for &(fp, index, offset, size) in rows {
        toc_plain.extend_from_slice(&fp.to_le_bytes());
        toc_plain.extend_from_slice(&index.to_le_bytes());
        toc_plain.extend_from_slice(&offset.to_le_bytes());
        toc_plain.extend_from_slice(&size.to_le_bytes());
        toc_plain.extend_from_slice(&0u32.to_le_bytes());
        toc_plain.extend_from_slice(&0u32.to_le_bytes());
        toc_plain.extend_from_slice(&0u32.to_le_bytes());
    }
    let toc_enc = sfs::crypt::sfs_decrypt(key, &toc_plain);

    let mut offsets: Vec<u32> = vec![cte];
    let mut pos = cte;
    for c in chunks {
        pos += c.len() as u32;
        offsets.push(pos);
    }
    assert_eq!(offsets.len() as u32, n_chunks + 1, "builder: wrong chunk count");
    let mut table_plain: Vec<u8> = Vec::new();
    for o in &offsets {
        table_plain.extend_from_slice(&o.to_le_bytes());
    }
    let table_enc = sfs::crypt::sfs_decrypt2(key, &table_plain);

    let mut file: Vec<u8> = Vec::new();
    if version == 0xCA {
        file.extend_from_slice(&h[0..8]);
        file.extend_from_slice(&sfs::crypt::sfs_decrypt(key, &h[8..32]));
        file.extend_from_slice(&h[32..256]);
    } else {
        file.extend_from_slice(&h);
    }
    file.extend_from_slice(&toc_enc);
    file.extend_from_slice(&table_enc);
    for c in chunks {
        file.extend_from_slice(c);
    }
    file
}

#[test]
fn end_to_end_hello_world() {
    let payload = b"hello world".to_vec();
    let data = build_archive(1, "test.sfs", &[(0x1234, 0, 0, 11)], &[payload.clone()], 11);
    let archive = read_sfs(data, "test.sfs").unwrap();
    assert_eq!(archive.header.version, 1);
    assert_eq!(archive.header.toc_count, 1);
    assert_eq!(archive.header.uncompressed_size, 11);
    let decompressed = decompress_sfs(&archive).unwrap();
    assert_eq!(decompressed, payload);
    let bytes = unpack_from_sfs_by_fingerprint(&archive, &decompressed, 0x1234).unwrap();
    assert_eq!(bytes, b"hello world".to_vec());
}

#[test]
fn encrypted_header_version_roundtrip() {
    let payload = b"encrypted header".to_vec();
    let len = payload.len() as u32;
    let data = build_archive(0xCA, "Online.SFS", &[(77, 0, 0, len)], &[payload.clone()], len);
    let archive = read_sfs(data, "Online.SFS").unwrap();
    assert_eq!(archive.header.version, 0xCA);
    let decompressed = decompress_sfs(&archive).unwrap();
    assert_eq!(unpack_from_sfs_by_fingerprint(&archive, &decompressed, 77).unwrap(), payload);
}

#[test]
fn toc_sorted_by_index_after_parse() {
    let payload: Vec<u8> = (0..30u8).collect();
    let rows = [(10i64, 2u32, 20u32, 10u32), (11, 0, 0, 10), (12, 1, 10, 10)];
    let data = build_archive(1, "t.sfs", &rows, &[payload.clone()], 30);
    let archive = read_sfs(data, "t.sfs").unwrap();
    let indices: Vec<u32> = archive.toc.iter().map(|e| e.index).collect();
    assert_eq!(indices, vec![0, 1, 2], "rows must be re-sorted ascending by index");
    let fps: Vec<i64> = archive.toc.iter().map(|e| e.fingerprint).collect();
    assert_eq!(fps, vec![11, 12, 10]);
}

#[test]
fn chunk_reconstruction_exact_length() {
    // exactly divisible: 2 chunks of 32768
    let c1 = vec![0xAAu8; 32768];
    let c2 = vec![0xBBu8; 32768];
    let total = 65536u32;
    let data = build_archive(1, "big.sfs", &[(1, 0, 0, total)], &[c1.clone(), c2.clone()], total);
    let archive = read_sfs(data, "big.sfs").unwrap();
    let dec = decompress_sfs(&archive).unwrap();
    assert_eq!(dec.len() as u32, total);
    assert_eq!(&dec[..32768], &c1[..]);
    assert_eq!(&dec[32768..], &c2[..]);

    // not divisible: a full chunk plus an 11-byte tail
    let tail = b"hello world".to_vec();
    let total2 = 32768 + 11;
    let data2 = build_archive(
        1,
        "big2.sfs",
        &[(1, 0, 0, total2)],
        &[c1.clone(), tail.clone()],
        total2,
    );
    let archive2 = read_sfs(data2, "big2.sfs").unwrap();
    let dec2 = decompress_sfs(&archive2).unwrap();
    assert_eq!(dec2.len() as u32, total2);
    assert_eq!(&dec2[32768..], &tail[..]);
}

#[test]
fn deflate_chunk_is_inflated() {
    let payload: Vec<u8> = (0..4000u32).map(|i| (i % 251) as u8).collect();
    let mut encoder =
        flate2::write::DeflateEncoder::new(Vec::new(), flate2::Compression::default());
    encoder.write_all(&payload).unwrap();
    let compressed = encoder.finish().unwrap();
    // 3-byte frame header: first byte not 1, second byte 8
    let mut chunk = vec![0u8, 8u8, 0u8];
    chunk.extend_from_slice(&compressed);
    assert_ne!(chunk.len(), 32768);
    let total = payload.len() as u32;
    let data = build_archive(1, "z.sfs", &[(5, 0, 0, total)], &[chunk], total);
    let archive = read_sfs(data, "z.sfs").unwrap();
    let dec = decompress_sfs(&archive).unwrap();
    assert_eq!(dec, payload, "deflate chunk must decode to the original payload");
}

#[test]
fn lzss_chunk_is_rejected() {
    let chunk = vec![1u8, 0, 0, 0, 0];
    let data = build_archive(1, "l.sfs", &[(5, 0, 0, 5)], &[chunk], 5);
    let archive = read_sfs(data, "l.sfs").unwrap();
    assert_eq!(
        decompress_sfs(&archive),
        Err(SfsError::UnsupportedCompression),
        "a chunk with leading byte 1 must fail fast"
    );
    let boundary = archive.chunk_boundaries[0];
    assert_eq!(decompress_chunk(&archive, boundary), Err(SfsError::UnsupportedCompression));
}

#[test]
fn unknown_chunk_type_passes_through() {
    let chunk = vec![9u8, 9, 9, 9];
    let data = build_archive(1, "u.sfs", &[(5, 0, 0, 4)], &[chunk.clone()], 4);
    let archive = read_sfs(data, "u.sfs").unwrap();
    assert_eq!(decompress_sfs(&archive).unwrap(), chunk);
}

#[test]
fn bad_magic_rejected() {
    let payload = b"x".to_vec();
    let mut data = build_archive(1, "m.sfs", &[(5, 0, 0, 1)], &[payload], 1);
    data[0] = 0x54;
    match read_sfs(data, "m.sfs") {
        Err(e) => assert_eq!(e, SfsError::Format(FormatFault::BadMagic)),
        Ok(_) => panic!("a wrong magic number must be rejected"),
    }
}

#[test]
fn checksum_mismatch_rejected() {
    let payload = b"x".to_vec();
    let mut data = build_archive(1, "c.sfs", &[(5, 0, 0, 1)], &[payload], 1);
    data[40] ^= 0xFF;  // corrupt a comment byte included in the sum
    match read_sfs(data, "c.sfs") {
        Err(e) => assert_eq!(e, SfsError::Format(FormatFault::ChecksumMismatch)),
        Ok(_) => panic!("corrupted header must be rejected"),
    }
}

#[test]
fn truncated_file_rejected() {
    match read_sfs(vec![0u8; 100], "t.sfs") {
        Err(e) => assert_eq!(e, SfsError::Format(FormatFault::Truncated)),
        Ok(_) => panic!("a file shorter than the header must be rejected"),
    }
}

#[test]
fn path_lookup_matches_fingerprint_lookup() {
    let payload = b"abcdefghij".to_vec();
    let fp = finger::string(0, "gui/Data.INI");
    let data = build_archive(1, "p.sfs", &[(fp, 0, 0, 10)], &[payload.clone()], 10);
    let archive = read_sfs(data, "p.sfs").unwrap();
    let dec = decompress_sfs(&archive).unwrap();
    let by_path = unpack_from_sfs_by_path(&archive, &dec, "gui/Data.INI").unwrap();
    let by_fp = unpack_from_sfs_by_fingerprint(&archive, &dec, fp).unwrap();
    assert_eq!(by_path, by_fp);
    assert_eq!(by_path, payload);
    // case-insensitive: the lower-cased path has the same fingerprint
    assert_eq!(unpack_from_sfs_by_path(&archive, &dec, "GUI/DATA.ini").unwrap(), payload);
    // absolute paths are rejected before any lookup
    assert_eq!(unpack_from_sfs_by_path(&archive, &dec, "/gui/Data.INI"), Err(SfsError::InvalidPath));
    assert_eq!(
        unpack_from_sfs_by_path(&archive, &dec, "C:\\gui\\Data.INI"),
        Err(SfsError::InvalidPath)
    );
}

#[test]
fn lookup_misses_and_directories() {
    let payload = b"0123456789".to_vec();
    let rows = [(1i64, 0u32, 0u32, 10u32), (2, 1, 10, 0)];
    let data = build_archive(1, "d.sfs", &rows, &[payload.clone()], 10);
    let archive = read_sfs(data, "d.sfs").unwrap();
    let dec = decompress_sfs(&archive).unwrap();
    assert_eq!(unpack_from_sfs_by_fingerprint(&archive, &dec, 99), Err(SfsError::NotFound));
    assert_eq!(unpack_from_sfs_by_fingerprint(&archive, &dec, 2), Err(SfsError::InvalidEntry));
}

#[test]
fn class_lookup_plain_and_encrypted() {
    // derive the fingerprint the class path will compute
    let class_name = "com.maddox.rts.Main";
    let obfuscated = format!("sdw{}cwc2w9e", class_name);
    let chars: Vec<i32> = obfuscated.chars().map(|c| c as i32).collect();
    let class_hash = finger::int_hash(&chars);
    let cod = format!("cod/{}", class_hash);
    let fp = finger::string(0, &cod);

    // already carrying the class magic: returned unmodified
    let plain_class = vec![0xCAu8, 0xFE, 0xBA, 0xBE, 1, 2, 3, 4];
    let len = plain_class.len() as u32;
    let data = build_archive(1, "k.sfs", &[(fp, 0, 0, len)], &[plain_class.clone()], len);
    let archive = read_sfs(data, "k.sfs").unwrap();
    let dec = decompress_sfs(&archive).unwrap();
    let got = unpack_from_sfs_by_class_name(&archive, &dec, class_name.to_string()).unwrap();
    assert_eq!(got, plain_class);

    // stripped and encrypted: decrypted and given the reconstructed header
    let body = b"stripped class body".to_vec();
    let stored = sfs::crypt::decrypt_data(body.clone(), class_hash, 14, 0);
    assert_ne!(stored[0..4], [0xCA, 0xFE, 0xBA, 0xBE]);
    let len2 = stored.len() as u32;
    let data2 = build_archive(1, "k2.sfs", &[(fp, 0, 0, len2)], &[stored.clone()], len2);
    let archive2 = read_sfs(data2, "k2.sfs").unwrap();
    let dec2 = decompress_sfs(&archive2).unwrap();
    let got2 = unpack_from_sfs_by_class_name(&archive2, &dec2, class_name.to_string()).unwrap();
    let mut expected = vec![0xCAu8, 0xFE, 0xBA, 0xBE, 0, 0, 0, 0x2F];
    expected.extend_from_slice(&body);
    assert_eq!(got2, expected);
}

#[test]
fn unpack_sfs_extracts_nonempty_rows() {
    let payload = b"aaaaabbbbb".to_vec();
    let rows = [(1i64, 0u32, 0u32, 5u32), (2, 1, 5, 0), (3, 2, 5, 5)];
    let data = build_archive(1, "x.sfs", &rows, &[payload.clone()], 10);
    let archive = read_sfs(data, "x.sfs").unwrap();
    let dec = decompress_sfs(&archive).unwrap();
    let out = unpack_sfs(&archive, &dec).unwrap();
    assert_eq!(out.len(), 2);
    assert_eq!(out[0].0, 1);
    assert_eq!(out[0].1, b"aaaaa".to_vec());
    assert_eq!(out[1].0, 3);
    assert_eq!(out[1].1, b"bbbbb".to_vec());
}

#[test]
fn repack_plan_decisions() {
    let payload = b"plainfilebytes~~".to_vec();
    let keyed_body = b"secret".to_vec();
    let stored_keyed = sfs::crypt::decrypt_data(keyed_body.clone(), 0x77, 9, 2);
    let mut full: Vec<u8> = Vec::new();
    full.extend_from_slice(&payload);
    full.extend_from_slice(&stored_keyed);
    let total = full.len() as u32;
    let rows = [
        (10i64, 0u32, 0u32, payload.len() as u32),
        (11, 1, payload.len() as u32, stored_keyed.len() as u32),
    ];
    let data = build_archive(1, "r.sfs", &rows, &[full], total);
    let archive = read_sfs(data, "r.sfs").unwrap();
    let dec = decompress_sfs(&archive).unwrap();

    let dir_entry = RepackEntry {
        file_name: "maps/online".to_string(),
        file_size: 0,
        fingerprint: 0,
        key_hash: None,
        key_len_offset: None,
        key_idx_offset: None,
    };
    match plan_entry(&archive, &dec, &dir_entry).unwrap() {
        RepackAction::Directory { name } => assert_eq!(name, b"MAPS/ONLINE".to_vec()),
        _ => panic!("zero-size entry must become a directory record"),
    }

    let plain_entry = RepackEntry {
        file_name: "data/file.bin".to_string(),
        file_size: payload.len() as i32,
        fingerprint: 10,
        key_hash: None,
        key_len_offset: None,
        key_idx_offset: None,
    };
    match plan_entry(&archive, &dec, &plain_entry).unwrap() {
        RepackAction::File { name, data } => {
            assert_eq!(name, b"DATA/FILE.BIN".to_vec());
            assert_eq!(data, payload);
        },
        _ => panic!("a plain entry must become a ready file record"),
    }

    let keyed_entry = RepackEntry {
        file_name: "data/enc.bin".to_string(),
        file_size: keyed_body.len() as i32,
        fingerprint: 11,
        key_hash: Some(0x77),
        key_len_offset: Some(9),
        key_idx_offset: Some(2),
    };
    match plan_entry(&archive, &dec, &keyed_entry).unwrap() {
        RepackAction::File { data, .. } => assert_eq!(data, keyed_body),
        _ => panic!("a keyed entry must be decrypted"),
    }

    let missing_entry = RepackEntry {
        file_name: "gone.bin".to_string(),
        file_size: 1,
        fingerprint: 404,
        key_hash: None,
        key_len_offset: None,
        key_idx_offset: None,
    };
    match plan_entry(&archive, &dec, &missing_entry) {
        Err(e) => assert_eq!(e, SfsError::NotFound),
        Ok(_) => panic!("a missing fingerprint must fail the entry"),
    }

    let plan = plan_archive(&archive, &dec, &vec![dir_entry, plain_entry]).unwrap();
    assert_eq!(plan.len(), 2);
}

#[test]
fn comment_text_decoded_and_trimmed() {
    let payload = b"x".to_vec();
    let mut data = build_archive(1, "cm.sfs", &[(5, 0, 0, 1)], &[payload], 1);
    // write a comment into the raw header bytes and decode them directly
    let comment = b"packed by tooling";
    data[34..34 + comment.len()].copy_from_slice(comment);
    let header = sfs::parse::parse_header(&data[0..256]).unwrap();
    assert_eq!(header.comment_text(), "packed by tooling".to_string());
}

#[test]
fn entry_range_overrun_is_a_layout_fault() {
    // the row claims 20 bytes but the payload holds only 10
    let payload = b"0123456789".to_vec();
    let data = build_archive(1, "o.sfs", &[(8, 0, 0, 20)], &[payload], 10);
    let archive = read_sfs(data, "o.sfs").unwrap();
    let dec = decompress_sfs(&archive).unwrap();
    assert_eq!(
        unpack_from_sfs_by_fingerprint(&archive, &dec, 8),
        Err(SfsError::Format(FormatFault::BadLayout))
    );
    match unpack_sfs(&archive, &dec) {
        Err(e) => assert_eq!(e, SfsError::Format(FormatFault::BadLayout)),
        Ok(_) => panic!("an overrunning row must fail extraction"),
    }
}

#[test]
fn toc_region_beyond_file_is_a_layout_fault() {
    let payload = b"x".to_vec();
    let mut data = build_archive(1, "b.sfs", &[(5, 0, 0, 1)], &[payload], 1);
    // declare a table of contents that runs past the end of the file,
    // keeping the checksum valid (toc_end is outside the summed range
    // only when header_end stays at 256, so re-fix the checksum)
    let huge = (data.len() as u32 + 100).to_le_bytes();
    data[20..24].copy_from_slice(&huge);
    data[8..12].copy_from_slice(&0u32.to_le_bytes());
    let checksum = sfs::parse::header_checksum(&data[0..256], 256);
    data[8..12].copy_from_slice(&checksum.to_le_bytes());
    match read_sfs(data, "b.sfs") {
        Err(e) => assert_eq!(e, SfsError::Format(FormatFault::BadLayout)),
        Ok(_) => panic!("a table of contents past the file end must be rejected"),
    }
}

#[test]
fn corrupt_deflate_chunk_is_a_deflate_fault() {
    // a deflate-framed chunk whose stream bytes are garbage
    let chunk = vec![0u8, 8u8, 0u8, 0xFF, 0xFF, 0xFF, 0xFF, 0x00, 0x12];
    let data = build_archive(1, "g.sfs", &[(5, 0, 0, 100)], &[chunk], 100);
    let archive = read_sfs(data, "g.sfs").unwrap();
    match decompress_sfs(&archive) {
        Err(e) => assert_eq!(e, SfsError::Format(FormatFault::BadDeflate)),
        Ok(_) => panic!("a corrupt deflate stream must fail the archive"),
    }
}

#[test]
fn comment_with_invalid_utf8_degrades_to_empty() {
    let payload = b"x".to_vec();
    let mut data = build_archive(1, "iv.sfs", &[(5, 0, 0, 1)], &[payload], 1);
    data[34] = 0xFF;
    data[35] = 0xFE;
    let header = sfs::parse::parse_header(&data[0..256]).unwrap();
    assert_eq!(header.comment_text(), String::new());
}

#[test]
fn toc_sort_is_stable_for_equal_indices() {
    // three rows sharing index 1 must keep their on-disk relative order,
    // with the index-0 row moved in front of them
    let payload: Vec<u8> = (0..40u8).collect();
    let rows = [
        (100i64, 1u32, 0u32, 10u32),
        (200, 1, 10, 10),
        (300, 0, 20, 10),
        (400, 1, 30, 10),
    ];
    let data = build_archive(1, "s.sfs", &rows, &[payload.clone()], 40);
    let archive = read_sfs(data, "s.sfs").unwrap();
    let order: Vec<(i64, u32)> = archive.toc.iter().map(|e| (e.fingerprint, e.index)).collect();
    assert_eq!(order, vec![(300, 0), (100, 1), (200, 1), (400, 1)]);
}
