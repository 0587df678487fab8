use ironring::dcx;
use ironring::errors::PackError;
use ironring::errors::UnpackError;

fn push_u32_be(v: &mut Vec<u8>, x: u32) {
    v.extend_from_slice(&x.to_be_bytes());
}

/// A DCX container in the canonical contiguous layout, with the given
/// method tag and compressed payload.
fn sample_dcx(method: &[u8; 4], payload: &[u8], uncompressed_size: u32) -> Vec<u8> {
    let mut b = Vec::new();
    b.extend_from_slice(b"DCX\0");
    push_u32_be(&mut b, 0x10000);
    push_u32_be(&mut b, 0x18); // sizes section offset
    push_u32_be(&mut b, 0x24); // params section offset
    push_u32_be(&mut b, 0x24);
    push_u32_be(&mut b, 0x2C);
    // sizes at 0x18
    b.extend_from_slice(b"DCS\0");
    push_u32_be(&mut b, uncompressed_size);
    push_u32_be(&mut b, payload.len() as u32);
    // params at 0x24
    b.extend_from_slice(b"DCP\0");
    b.extend_from_slice(method);
    push_u32_be(&mut b, 0x20); // archive offset, relative to params
    b.extend_from_slice(&[9, 0, 0, 0]); // level and flags
    push_u32_be(&mut b, 0);
    push_u32_be(&mut b, 0);
    push_u32_be(&mut b, 0);
    push_u32_be(&mut b, 0x00010100);
    // archive at 0x44
    b.extend_from_slice(b"DCA\0");
    push_u32_be(&mut b, 8);
    // compressed payload at 0x4C
    b.extend_from_slice(payload);
    b
}

#[test]
fn test_dcx_parse_sections() {
    let data = sample_dcx(b"DFLT", b"xx", 5);
    let (dcx, payload_pos) = dcx::parse(&data).unwrap();
    assert_eq!(dcx.header.magic, b"DCX\0".to_vec());
    assert_eq!(dcx.header.ofs_dcs, 0x18);
    assert_eq!(dcx.header.ofs_dcp, 0x24);
    assert_eq!(dcx.sizes.uncompressed_size, 5);
    assert_eq!(dcx.sizes.compressed_size, 2);
    assert_eq!(dcx.params.method, b"DFLT".to_vec());
    assert_eq!(dcx.params.ofs_dca, 0x20);
    assert_eq!(dcx.params.unk0c, 9);
    assert_eq!(dcx.archive.magic, b"DCA\0".to_vec());
    // The payload starts right after the archive section.
    assert_eq!(payload_pos, 0x4C);
}

#[test]
fn test_dcx_parse_rejects_unrecognized_method() {
    let data = sample_dcx(b"ZZZZ", b"", 0);
    assert!(matches!(dcx::parse(&data), Err(UnpackError::Parsing(_))));
}

#[test]
fn test_dcx_repack_and_decompress_round_trip() {
    // Repack new payload bytes through the real deflate encoder, then
    // reparse and decode them back.
    let data = sample_dcx(b"DFLT", b"", 0);
    let (mut dcx, _) = dcx::parse(&data).unwrap();
    let payload = b"the quick brown fox jumps over the lazy dog";
    let out = dcx::pack_dcx(&mut dcx, payload).unwrap();
    assert_eq!(dcx.sizes.uncompressed_size as usize, payload.len());

    let (dcx2, payload_pos) = dcx::parse(&out).unwrap();
    assert_eq!(dcx2.sizes.uncompressed_size as usize, payload.len());
    assert_eq!(dcx2.sizes.compressed_size as usize, out.len() - payload_pos);
    // Every field not recomputed is reproduced byte-identically: the
    // repacked prefix differs from the original only in the two sizes.
    assert_eq!(out[..0x18], data[..0x18]);
    assert_eq!(out[0x24..0x4C], data[0x24..0x4C]);
    let decoded = dcx::decompress_dcx(&dcx2, &out[payload_pos..]).unwrap();
    assert_eq!(decoded, payload.to_vec());
}

#[test]
fn test_dcx_unsupported_method_on_decode() {
    // An EDGE container parses structurally, and fails only when a
    // decode is attempted, with the distinct unsupported-method error.
    let data = sample_dcx(b"EDGE", b"\x01\x02", 4);
    let (dcx, payload_pos) = dcx::parse(&data).unwrap();
    assert_eq!(dcx.params.method, b"EDGE".to_vec());
    let r = dcx::decompress_dcx(&dcx, &data[payload_pos..]);
    assert!(matches!(r, Err(UnpackError::Compression(_))));
    assert!(!matches!(
        dcx::decompress_dcx(&dcx, &data[payload_pos..]),
        Err(UnpackError::Parsing(_))
    ));
}

#[test]
fn test_dcx_compress_rejects_unsupported_method() {
    let data = sample_dcx(b"KRAK", b"", 0);
    let (dcx, _) = dcx::parse(&data).unwrap();
    assert!(matches!(dcx::compress(&dcx, b"abc"), Err(PackError::Compression(_))));
}

#[test]
fn test_dcx_corrupt_stream_is_io_error() {
    let data = sample_dcx(b"DFLT", b"\xFF\xFF\xFF", 10);
    let (dcx, payload_pos) = dcx::parse(&data).unwrap();
    assert!(matches!(
        dcx::decompress_dcx(&dcx, &data[payload_pos..]),
        Err(UnpackError::Io(_))
    ));
}
