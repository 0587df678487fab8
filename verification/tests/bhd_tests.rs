use ironring::bhd;
use ironring::errors::UnpackError;
use ironring::name_hashes::NameMap;

fn push_u32_le(v: &mut Vec<u8>, x: u32) {
    v.extend_from_slice(&x.to_le_bytes());
}

fn push_u64_le(v: &mut Vec<u8>, x: u64) {
    v.extend_from_slice(&x.to_le_bytes());
}

/// A BHD with two buckets: two entries in the first, one in the second.
fn sample_bhd() -> Vec<u8> {
    let mut b = Vec::new();
    push_u32_le(&mut b, 0x35444842); // magic "BHD5"
    b.extend_from_slice(&[0, 0, 0, 0]); // platform flags
    push_u32_le(&mut b, 0); // unk08
    push_u32_le(&mut b, 0x78); // file_len
    push_u32_le(&mut b, 2); // num_buckets
    push_u32_le(&mut b, 0x18); // ofs_buckets
    // bucket infos at 0x18
    push_u32_le(&mut b, 2); // count
    push_u32_le(&mut b, 0x28); // offset
    push_u32_le(&mut b, 1); // count
    push_u32_le(&mut b, 0x48); // offset
    // bucket 0 at 0x28: two entries
    push_u32_le(&mut b, 0xCAFECAFE); // hash
    push_u32_le(&mut b, 4); // size
    push_u64_le(&mut b, 0x10); // offset
    push_u32_le(&mut b, 0x0000DECE);
    push_u32_le(&mut b, 2);
    push_u64_le(&mut b, 0x20);
    // bucket 1 at 0x48: one entry
    push_u32_le(&mut b, 0x12345678);
    push_u32_le(&mut b, 3);
    push_u64_le(&mut b, 0x30);
    b
}

#[test]
fn test_bhd_parse() {
    let data = sample_bhd();
    let bhd = bhd::parse(&data).unwrap();
    assert_eq!(bhd.header.num_buckets, 2);
    assert_eq!(bhd.bucket_infos.len(), 2);
    assert_eq!(bhd.bucket_infos[0], bhd::BhdBucketInfo { count: 2, offset: 0x28 });
    assert_eq!(bhd.buckets.len(), 2);
    assert_eq!(bhd.buckets[0].len(), 2);
    assert_eq!(bhd.buckets[1].len(), 1);
    assert_eq!(
        bhd.buckets[0][0],
        bhd::BhdFile { hash: 0xCAFECAFE, size: 4, offset: 0x10 }
    );
    assert_eq!(
        bhd.buckets[1][0],
        bhd::BhdFile { hash: 0x12345678, size: 3, offset: 0x30 }
    );
}

#[test]
fn test_bhd_parse_rejects_bad_magic() {
    let mut data = sample_bhd();
    data[0] = 0x00;
    assert!(matches!(bhd::parse(&data), Err(UnpackError::Parsing(_))));
}

#[test]
fn test_bhd_parse_rejects_bucket_out_of_bounds() {
    let mut data = sample_bhd();
    // Point the second bucket past the end of the file.
    let bad_ofs = (data.len() as u32).to_le_bytes();
    data[0x20..0x24].copy_from_slice(&bad_ofs);
    assert!(matches!(bhd::parse(&data), Err(UnpackError::Parsing(_))));
}

#[test]
fn test_bhd_extract_three_records() {
    // Three bucketed entries; only two hashes exist in the name table.
    let data = sample_bhd();
    let bhd = bhd::parse(&data).unwrap();
    let bdt: Vec<u8> = (0u8..=0xFF).collect();
    let mut names = NameMap::new();
    assert!(names.add_line("CAFECAFE: /chr/a.bin"));
    assert!(names.add_line("0000DECE: /obj/b.bin"));

    let files = bhd::extract_entries(&bhd, &bdt, &names).unwrap();
    // Extraction writes exactly three files: the sum of per-bucket counts.
    assert_eq!(files.len(), 3);
    // Two under resolved names, one under its hash string, and the miss
    // is reported without terminating the batch.
    assert_eq!(files[0].path, "chr/a.bin");
    assert!(files[0].named);
    assert_eq!(files[1].path, "obj/b.bin");
    assert!(files[1].named);
    assert_eq!(files[2].path, "12345678");
    assert!(!files[2].named);
    // Each entry's content is the exact slice of the companion data.
    assert_eq!(files[0].data, bdt[0x10..0x14].to_vec());
    assert_eq!(files[1].data, bdt[0x20..0x22].to_vec());
    assert_eq!(files[2].data, bdt[0x30..0x33].to_vec());
}

#[test]
fn test_bhd_extract_rejects_entry_out_of_bounds() {
    let data = sample_bhd();
    let bhd = bhd::parse(&data).unwrap();
    let bdt = vec![0u8; 0x12]; // too short for the first entry
    let names = NameMap::new();
    assert!(matches!(
        bhd::extract_entries(&bhd, &bdt, &names),
        Err(UnpackError::Parsing(_))
    ));
}

#[test]
fn test_bhd_parse_file() {
    let mut rec = Vec::new();
    push_u32_le(&mut rec, 0xAABBCCDD);
    push_u32_le(&mut rec, 7);
    push_u64_le(&mut rec, 0x40);
    let f = bhd::parse_file(&rec).unwrap();
    assert_eq!(f, bhd::BhdFile { hash: 0xAABBCCDD, size: 7, offset: 0x40 });
    assert!(matches!(bhd::parse_file(&rec[..8]), Err(UnpackError::Parsing(_))));
}
