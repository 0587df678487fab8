use ironring::bhf;
use ironring::bnd::BinderOptions;
use ironring::errors::UnpackError;

/// A big-endian BHF3 with one entry carrying id, path and
/// uncompressed size; the payload lives in a separate data file.
fn sample_bhf() -> Vec<u8> {
    let mut b = Vec::new();
    b.extend_from_slice(b"BHF3");
    b.extend_from_slice(b"07D7R6\0\0");
    b.push(0x26); // raw format: id | name1 | uncompressed size
    b.push(1); // endianness byte doubles as the bit-endianness flag
    b.push(0);
    b.push(0);
    b.extend_from_slice(&1u32.to_be_bytes()); // num_files (big-endian fields)
    b.extend_from_slice(&[0u8; 12]); // reserved words
    // file info at 0x20 (big-endian fields: endianness byte is 1)
    b.extend_from_slice(&[0, 0, 0, 0]);
    b.extend_from_slice(&5u32.to_be_bytes()); // size
    b.extend_from_slice(&0x10u32.to_be_bytes()); // ofs_data into the BDT
    b.extend_from_slice(&7u32.to_be_bytes()); // id
    b.extend_from_slice(&0x38u32.to_be_bytes()); // ofs_path
    b.extend_from_slice(&5u32.to_be_bytes()); // uncompressed size
    b.extend_from_slice(b"cd.txt\0\0"); // path at 0x38
    b
}

#[test]
fn test_bhf_parse() {
    let data = sample_bhf();
    let b = bhf::load_bhf(&data).unwrap();
    assert_eq!(b.header.magic, b"BHF3".to_vec());
    // The endianness byte equal to 1 selects big-endian fields.
    assert!(b.header.use_be());
    assert_eq!(b.header.num_files, 1);
    let info = &b.file_infos[0];
    assert_eq!(info.size, 5);
    assert_eq!(info.ofs_data, 0x10);
    assert_eq!(info.id, 7);
    assert_eq!(info.path, Some("cd.txt".to_string()));
}

#[test]
fn test_bhf_entry_data_from_bdt() {
    let data = sample_bhf();
    let b = bhf::load_bhf(&data).unwrap();
    let mut bdt = vec![0u8; 0x10];
    bdt.extend_from_slice(b"world");
    assert_eq!(bhf::entry_data(&b.file_infos[0], &bdt).unwrap(), b"world".to_vec());
    // The same entry against a short data file is a parse error.
    let short = vec![0u8; 0x12];
    assert!(matches!(
        bhf::entry_data(&b.file_infos[0], &short),
        Err(UnpackError::Parsing(_))
    ));
}

#[test]
fn test_bdt_extension() {
    assert_eq!(bhf::bdt_extension("tpfbhd"), "tpfbdt");
    // An extension that does not end in bhd still gets bdt appended.
    assert_eq!(bhf::bdt_extension("xxx"), "xxxbdt");
    assert_eq!(bhf::bdt_extension("bhdbhd"), "bdt");
}

#[test]
fn test_bhf_parse_rejects_truncated() {
    let data = sample_bhf();
    assert!(matches!(bhf::parse(&data[..0x10]), Err(UnpackError::Parsing(_))));
}
