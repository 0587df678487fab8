use ironring::bnd;
use ironring::bnd::BinderOptions;
use ironring::errors::UnpackError;

fn push_u32_le(v: &mut Vec<u8>, x: u32) {
    v.extend_from_slice(&x.to_le_bytes());
}

/// A little-endian BND3 with one entry carrying id, path and
/// uncompressed size.
fn sample_bnd() -> Vec<u8> {
    let mut b = Vec::new();
    b.extend_from_slice(b"BND3");
    b.extend_from_slice(b"07D7R6\0\0"); // version tag
    b.push(0x26); // raw format: id | name1 | uncompressed size
    b.push(0); // endianness: little
    b.push(1); // bit endianness: format byte stored as-is
    b.push(0); // flags
    push_u32_le(&mut b, 1); // num_files
    push_u32_le(&mut b, 0x40); // ofs_data
    push_u32_le(&mut b, 0); // unk18
    push_u32_le(&mut b, 0); // unk1C
    // file info at 0x20
    b.extend_from_slice(&[0x40, 0, 0, 0]); // entry flags
    push_u32_le(&mut b, 5); // size
    push_u32_le(&mut b, 0x40); // ofs_data
    push_u32_le(&mut b, 42); // id
    push_u32_le(&mut b, 0x38); // ofs_path
    push_u32_le(&mut b, 5); // uncompressed size
    // path at 0x38
    b.extend_from_slice(b"ab.txt\0\0");
    // data at 0x40
    b.extend_from_slice(b"hello");
    b
}

#[test]
fn test_bnd_format_resolution() {
    // With the bit-endianness byte clear, a raw format that has the BE
    // bit set and the 0x80 bit clear resolves unmodified, and the byte
    // order is big-endian.
    let raw: u8 = 0x07; // BE bit set, 0x80 clear
    assert_eq!(bnd::format(0, raw), raw);
    assert!(bnd::use_be(0, bnd::format(0, raw)));
    // With neither, the raw byte is bit-reversed.
    assert_eq!(bnd::format(0, 0x40), 0x02);
    // The bit-endianness byte forces the raw byte through as-is.
    assert_eq!(bnd::format(1, 0x40), 0x40);
}

#[test]
fn test_bnd_reverse_bits() {
    assert_eq!(bnd::reverse_bits(0b1000_0000), 0b0000_0001);
    assert_eq!(bnd::reverse_bits(0b1100_0010), 0b0100_0011);
    assert_eq!(bnd::reverse_bits(0), 0);
}

#[test]
fn test_bnd_parse() {
    let data = sample_bnd();
    let b = bnd::parse(&data).unwrap();
    assert_eq!(b.header.magic, b"BND3".to_vec());
    assert_eq!(b.header.num_files, 1);
    assert!(b.header.has_ids());
    assert!(b.header.has_paths());
    assert!(b.header.has_uncomp_size());
    assert!(!b.header.use_be());
    let info = &b.file_infos[0];
    assert_eq!(info.id, 42);
    assert_eq!(info.size, 5);
    assert_eq!(info.ofs_data, 0x40);
    assert_eq!(info.path, Some("ab.txt".to_string()));
}

#[test]
fn test_bnd_entry_data() {
    let data = sample_bnd();
    let b = bnd::parse(&data).unwrap();
    assert_eq!(bnd::entry_data(&b.file_infos[0], &data).unwrap(), b"hello".to_vec());
}

#[test]
fn test_bnd_entry_without_path_is_naming_error() {
    let data = sample_bnd();
    let b = bnd::parse(&data).unwrap();
    let info = bnd::BndFileInfo {
        unk00: 0,
        unk01: 0,
        unk02: 0,
        unk03: 0,
        size: b.file_infos[0].size,
        ofs_data: b.file_infos[0].ofs_data,
        id: 0,
        ofs_path: 0,
        uncompressed_size: 0,
        path: None,
    };
    assert!(matches!(bnd::entry_data(&info, &data), Err(UnpackError::Naming(_))));
}

#[test]
fn test_bnd_path_decodes_legacy_text() {
    // The internal path is decoded from the legacy 8-bit Japanese
    // encoding: 0x83 0x65 is katakana "te".
    let mut data = sample_bnd();
    data[0x38..0x3B].copy_from_slice(&[0x83, 0x65, 0x00]);
    let b = bnd::parse(&data).unwrap();
    assert_eq!(b.file_infos[0].path, Some("\u{30C6}".to_string()));
}

#[test]
fn test_bnd_path_decode_failure_is_not_fatal() {
    // A path that fails to decode is reported absent; the parse itself
    // succeeds and every other field is still filled.
    let mut data = sample_bnd();
    data[0x38..0x3A].copy_from_slice(&[0x83, 0x00]); // truncated lead byte
    let b = bnd::parse(&data).unwrap();
    assert_eq!(b.file_infos[0].path, None);
    assert_eq!(b.file_infos[0].id, 42);
}

#[test]
fn test_bnd_file_name_of_path() {
    assert_eq!(bnd::file_name_of_path("dir\\sub\\file.txt"), "file.txt");
    assert_eq!(bnd::file_name_of_path("file.txt"), "file.txt");
    assert_eq!(bnd::file_name_of_path("dir\\"), "");
}

#[test]
fn test_bnd_parse_rejects_bad_magic() {
    let mut data = sample_bnd();
    data[0] = b'X';
    assert!(matches!(bnd::parse(&data), Err(UnpackError::Parsing(_))));
}
