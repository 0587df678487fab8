use ironring::common::Pack;
use ironring::dat;
use ironring::errors::UnpackError;

#[test]
fn test_dat_pack_and_parse_round_trip() {
    // Pack two files, reparse the archive, and check the recomputed
    // layout: offsets are shifted by header + table + table padding.
    let files = vec![
        ("a.txt".to_string(), b"hi".to_vec()),
        ("dir/b.bin".to_string(), vec![7u8; 5]),
    ];
    let bytes = dat::pack_dat(&files);

    let parsed = dat::parse(&bytes).unwrap();
    assert_eq!(parsed.header.unk00, dat::MAGIC);
    assert_eq!(parsed.header.num_files, 2);
    assert_eq!(parsed.files.len(), 2);

    let base = 0x40 + 2 * 0x40 + ironring::bits::pad(0x40 + 2 * 0x40, 0x8000);
    assert_eq!(base, 0x8000);
    let e0 = &parsed.files[0];
    assert_eq!(e0.name, "a.txt");
    assert_eq!(e0.size, 2);
    assert_eq!(e0.padded_size, 2 + 0x7FFE);
    assert_eq!(e0.ofs_data, base as u32);
    let e1 = &parsed.files[1];
    assert_eq!(e1.name, "dir/b.bin");
    assert_eq!(e1.size, 5);
    assert_eq!(e1.ofs_data, base as u32 + 0x8000);

    // The extracted payloads are the exact packed contents.
    assert_eq!(dat::entry_data(e0, &bytes).unwrap(), b"hi".to_vec());
    assert_eq!(dat::entry_data(e1, &bytes).unwrap(), vec![7u8; 5]);

    // Re-serializing a parsed entry reproduces its on-disk bytes.
    let mut rec = Vec::new();
    let n = e0.write(&mut rec);
    assert_eq!(n, 0x40);
    assert_eq!(rec, bytes[0x40..0x80].to_vec());
}

#[test]
fn test_dat_header_round_trip() {
    let header = dat::DatHeader { unk00: dat::MAGIC, num_files: 3 };
    let mut out = Vec::new();
    let n = header.write(&mut out);
    assert_eq!(n, 8);
    assert_eq!(out, vec![0x00, 0x80, 0x04, 0x1E, 3, 0, 0, 0]);
}

#[test]
fn test_dat_parse_rejects_truncated() {
    assert!(matches!(dat::parse(&[0u8; 8]), Err(UnpackError::Parsing(_))));
    // A header that declares more entries than fit is rejected.
    let mut b = vec![0u8; 0x40];
    b[4] = 9;
    assert!(matches!(dat::parse(&b), Err(UnpackError::Parsing(_))));
}

#[test]
fn test_dat_name_lossy_decoding() {
    // An invalid UTF-8 byte in a name slot decodes to the replacement
    // character rather than failing the parse.
    let mut b = vec![0u8; 0x40];
    b[4] = 1; // one entry
    let mut entry = vec![0x61u8, 0xFF, 0x62, 0x00]; // name "a?b"
    entry.resize(0x34, 0);
    entry.extend_from_slice(&[0u8; 12]); // size, padded size, offset
    b.extend_from_slice(&entry);
    let parsed = dat::parse(&b).unwrap();
    assert_eq!(parsed.files[0].name, "a\u{FFFD}b");
}

#[test]
fn test_dat_entry_data_out_of_bounds() {
    let entry = dat::DatFileEntry {
        name: "x".to_string(),
        size: 16,
        padded_size: 0x8000,
        ofs_data: 0x40,
    };
    assert!(matches!(
        dat::entry_data(&entry, &[0u8; 0x48]),
        Err(UnpackError::Parsing(_))
    ));
}
