//! Tests of the engine's pure building blocks: ciphers, fingerprints, text
//! helpers and the handle registry.

use sfs::crypt::{decrypt_data, sfs_decrypt, sfs_decrypt2};
use sfs::error::SfsError;
use sfs::finger;
use sfs::text;
use sfs::vfs::{normalize_vfs_name, FileRegistry, SeekWhence};

#[test]
fn primary_cipher_roundtrip_lengths() {
    let key: i64 = 0x0123_4567_89AB_CDEF;
    for len in [0usize, 1, 3, 7, 8, 9, 13, 100] {
        let data: Vec<u8> = (0..len).map(|i| (i * 37 + 11) as u8).collect();
        let enc = sfs_decrypt(key, &data);
        let dec = sfs_decrypt(key, &enc);
        assert_eq!(dec, data, "primary cipher must round-trip at length {}", len);
    }
}

#[test]
fn secondary_cipher_roundtrip_lengths() {
    let key: i64 = -42;
    for len in [0usize, 1, 5, 8, 17] {
        let data: Vec<u8> = (0..len).map(|i| (i * 101 + 3) as u8).collect();
        let enc = sfs_decrypt2(key, &data);
        let dec = sfs_decrypt2(key, &enc);
        assert_eq!(dec, data, "secondary cipher must round-trip at length {}", len);
    }
}

#[test]
fn ciphers_differ_and_change_bytes() {
    let key: i64 = 0x1122_3344_5566_7788;
    let data: Vec<u8> = (0..64).map(|i| i as u8).collect();
    let p = sfs_decrypt(key, &data);
    let s = sfs_decrypt2(key, &data);
    assert_ne!(p, data, "primary cipher with a non-trivial key must change the bytes");
    assert_ne!(p, s, "the two passes pick key bytes differently");
}

#[test]
fn entry_cipher_roundtrip() {
    let data: Vec<u8> = (0..50).map(|i| (255 - i) as u8).collect();
    let enc = decrypt_data(data.clone(), 0x5EED, 14, 3);
    let dec = decrypt_data(enc.clone(), 0x5EED, 14, 3);
    assert_ne!(enc, data);
    assert_eq!(dec, data, "per-entry pass must round-trip");
}

#[test]
fn fingerprint_deterministic() {
    let a = b"the quick brown fox".to_vec();
    let b = a.clone();
    assert_eq!(finger::bytes(0, &a), finger::bytes(0, &b));
    assert_eq!(finger::bytes(7, &a), finger::bytes(7, &a));
}

#[test]
fn fingerprint_sensitive_to_single_byte() {
    let a = b"the quick brown fox".to_vec();
    for i in 0..a.len() {
        let mut b = a.clone();
        b[i] ^= 0x40;
        assert_ne!(
            finger::bytes(0, &a),
            finger::bytes(0, &b),
            "flipping byte {} must change the fingerprint",
            i
        );
    }
}

#[test]
fn fingerprint_string_folds_case() {
    let upper = finger::string(0, "Maps/Online.SFS");
    let lower = finger::string(0, "maps/online.sfs");
    let bytes = finger::bytes(0, b"maps/online.sfs");
    assert_eq!(upper, lower);
    assert_eq!(upper, bytes);
}

#[test]
fn fingerprint_empty_input_is_seed_invariant() {
    assert_eq!(finger::bytes(0, b""), 0);
    assert_eq!(finger::bytes(0x1234_5678_9ABC_DEF0, b""), 0x1234_5678_9ABC_DEF0);
}

#[test]
fn int_hash_concrete() {
    // h = ((0 * 31 + 'a') * 31 + 'b') * 31 + 'c'
    let chars = vec!['a' as i32, 'b' as i32, 'c' as i32];
    let expected = ((('a' as i32) * 31 + ('b' as i32)) * 31) + ('c' as i32);
    assert_eq!(finger::int_hash(&chars), expected);
    assert_eq!(finger::int_hash(&Vec::new()), 0);
}

#[test]
fn key_table_length_and_determinism() {
    let t = finger::key_table(0x1234, 14);
    assert_eq!(t.len(), 14);
    assert_eq!(t, finger::key_table(0x1234, 14));
    assert_ne!(t, finger::key_table(0x1235, 14));
    assert_eq!(finger::key_table(9, 0).len(), 0);
    assert_eq!(finger::key_table(9, -3).len(), 0);
}

#[test]
fn ascii_case_mapping() {
    assert_eq!(text::ascii_lower(b"Maps/ONLINE.SFS"), b"maps/online.sfs".to_vec());
    assert_eq!(text::ascii_upper(b"gui/fonts.class"), b"GUI/FONTS.CLASS".to_vec());
    let mixed = vec![0x41u8, 0x7Au8, 0x30u8, 0xC3u8, 0xA9u8];
    assert_eq!(text::ascii_lower(&mixed), vec![0x61u8, 0x7Au8, 0x30u8, 0xC3u8, 0xA9u8]);
}

#[test]
fn decimal_formatting() {
    assert_eq!(text::dec_bytes(0), b"0".to_vec());
    assert_eq!(text::dec_bytes(7), b"7".to_vec());
    assert_eq!(text::dec_bytes(1234567890), b"1234567890".to_vec());
    assert_eq!(text::dec_bytes(-45), b"-45".to_vec());
    assert_eq!(text::dec_bytes(i32::MIN), b"-2147483648".to_vec());
    assert_eq!(text::dec_bytes(i32::MAX), b"2147483647".to_vec());
}

#[test]
fn replace_and_ends_with() {
    let r = text::replace_str("com/maddox/rts/Main.class", ".class", "");
    assert_eq!(r, "com/maddox/rts/Main");
    let r2 = text::replace_str(&r, "/", ".");
    assert_eq!(r2, "com.maddox.rts.Main");
    assert!(text::str_ends_with("A.class", ".class"));
    assert!(!text::str_ends_with("A.clas", ".class"));
    assert!(!text::str_ends_with("s", ".class"));
    assert_eq!(text::replace_str("aaa", "aa", "b"), "ba");
    assert_eq!(text::replace_bytes(b"a\\b\\c", b"\\", b"/"), b"a/b/c".to_vec());
}

#[test]
fn chars_to_ints_concrete() {
    let v = text::chars_to_ints("Ab0");
    assert_eq!(v, vec![65, 98, 48]);
}

#[test]
fn vfs_name_normalization() {
    assert_eq!(
        normalize_vfs_name(b"gui\\game\\Main.CLASS"),
        b"GUI/GAME/MAIN.class".to_vec()
    );
    assert_eq!(normalize_vfs_name(b"data/maps.ini"), b"DATA/MAPS.INI".to_vec());
}

#[test]
fn vfs_open_read_seek_close() {
    let mut reg = FileRegistry::new();
    let h = reg.open_read(b"hello world".to_vec()).unwrap();
    assert_eq!(reg.file_length(h), Ok(11));
    assert_eq!(reg.tell(h), Ok(0));
    assert_eq!(reg.eof(h), Ok(false));
    let first = reg.read(h, 5).unwrap();
    assert_eq!(first, b"hello".to_vec());
    assert_eq!(reg.tell(h), Ok(5));
    let rest = reg.read(h, 100).unwrap();
    assert_eq!(rest, b" world".to_vec());
    assert_eq!(reg.eof(h), Ok(true));
    assert_eq!(reg.seek(h, SeekWhence::Begin, 6), Ok(6));
    assert_eq!(reg.read(h, 5).unwrap(), b"world".to_vec());
    assert_eq!(reg.seek(h, SeekWhence::End, -5), Ok(6));
    assert_eq!(reg.seek(h, SeekWhence::Current, -6), Ok(0));
    assert_eq!(reg.seek(h, SeekWhence::Begin, 12), Err(SfsError::InvalidSeek));
    assert_eq!(reg.seek(h, SeekWhence::Begin, -1), Err(SfsError::InvalidSeek));
    assert_eq!(reg.close(h), Ok(()));
    assert_eq!(reg.close(h), Err(SfsError::BadHandle));
    assert_eq!(reg.tell(h), Err(SfsError::BadHandle));
    assert_eq!(reg.read(h, 1), Err(SfsError::BadHandle));
}

#[test]
fn vfs_handles_are_distinct() {
    let mut reg = FileRegistry::new();
    let a = reg.open_read(b"one".to_vec()).unwrap();
    let b = reg.open_read(b"two".to_vec()).unwrap();
    assert_ne!(a, b);
    assert_eq!(reg.read(a, 3).unwrap(), b"one".to_vec());
    assert_eq!(reg.read(b, 3).unwrap(), b"two".to_vec());
    assert_eq!(reg.close(a), Ok(()));
    assert_eq!(reg.read(b, 0).unwrap(), b"".to_vec());
}

#[test]
fn parse_header_and_toc_item_decode_little_endian() {
    let mut h = vec![0u8; 256];
    h[0..4].copy_from_slice(&[0x53, 0x46, 0x53, 0x00]);
    h[4..8].copy_from_slice(&0xCAu32.to_le_bytes());
    h[8..12].copy_from_slice(&0x11223344u32.to_le_bytes());
    h[12..16].copy_from_slice(&3u32.to_le_bytes());
    h[16..20].copy_from_slice(&256u32.to_le_bytes());
    h[20..24].copy_from_slice(&352u32.to_le_bytes());
    h[28..32].copy_from_slice(&99u32.to_le_bytes());
    h[32..34].copy_from_slice(&7u16.to_le_bytes());
    let header = sfs::parse::parse_header(&h).unwrap();
    assert_eq!(header.magic, 0x00534653);
    assert_eq!(header.version, 0xCA);
    assert_eq!(header.checksum, 0x11223344);
    assert_eq!(header.toc_count, 3);
    assert_eq!(header.header_end, 256);
    assert_eq!(header.toc_end, 352);
    assert_eq!(header.uncompressed_size, 99);
    assert_eq!(header.unknown, 7);
    assert!(sfs::parse::parse_header(&h[..100]).is_err());

    let mut row = Vec::new();
    row.extend_from_slice(&(-5i64).to_le_bytes());
    row.extend_from_slice(&2u32.to_le_bytes());
    row.extend_from_slice(&64u32.to_le_bytes());
    row.extend_from_slice(&10u32.to_le_bytes());
    row.extend_from_slice(&1u32.to_le_bytes());
    row.extend_from_slice(&0x20u32.to_le_bytes());
    row.extend_from_slice(&9u32.to_le_bytes());
    let item = sfs::parse::parse_toc_item(&row).unwrap();
    assert_eq!(item.fingerprint, -5);
    assert_eq!(item.index, 2);
    assert_eq!(item.offset, 64);
    assert_eq!(item.size, 10);
    assert_eq!(item.unknown_1, 1);
    assert_eq!(item.attributes, 0x20);
    assert_eq!(item.unknown_2, 9);
    assert!(sfs::parse::parse_toc_item(&row[..31]).is_err());

    let rows: Vec<u8> = row.iter().chain(row.iter()).cloned().collect();
    let header2 = sfs::parse::parse_header(&h).map(|mut hh| { hh.toc_count = 2; hh }).unwrap();
    let toc = sfs::parse::parse_toc(&header2, &rows).unwrap();
    assert_eq!(toc.len(), 2);
    assert_eq!(toc[0], toc[1]);
}

#[test]
fn header_checksum_concrete() {
    // bytes 0..8 sum plus bytes 12..header_end, checksum field skipped
    let mut h = vec![0u8; 256];
    h[0] = 1;
    h[7] = 2;
    h[8] = 0xFF; // checksum bytes must not count
    h[12] = 3;
    h[255] = 4;
    assert_eq!(sfs::parse::header_checksum(&h, 256), 1 + 2 + 3 + 4);
    assert_eq!(sfs::parse::header_checksum(&h, 255), 1 + 2 + 3);
}

#[test]
fn fingerprint_string_folds_unicode_case() {
    // case folding covers the full character set, not only ASCII
    assert_eq!(finger::string(0, "Caf\u{c9}.SFS"), finger::string(0, "caf\u{e9}.sfs"));
    assert_ne!(finger::string(0, "caf\u{e9}.sfs"), finger::string(0, "cafe.sfs"));
}
