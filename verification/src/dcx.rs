//! Compressed container (DCX): four chained sections — header, sizes,
//! params and archive — each located through an offset in the previous
//! one, wrapping a deflate-compressed payload. Only the DFLT method has
//! a working codec; the other recognized tags parse but cannot be
//! decoded.
use vstd::prelude::*;

verus! {

use crate::common::Pack;
use crate::common::push_u32_be;
use crate::common::read_u32;
use crate::common::u32_be_bytes;
use crate::common::utf8_to_string_lossy;
use crate::common::read_u8;
use crate::common::subrange_vec;
use crate::common::u32_be;
use crate::errors::PackError;
use crate::errors::UnpackError;
use crate::common::lemma_u32_be_roundtrip;

/// The section magics and recognized method tags.
pub open spec fn dcx_magic() -> Seq<u8> {
    seq![0x44u8, 0x43u8, 0x58u8, 0x00u8]
}

/// "DCS\0", the sizes-section magic.
pub open spec fn dcs_magic() -> Seq<u8> {
    seq![0x44u8, 0x43u8, 0x53u8, 0x00u8]
}

/// "DCP\0", the params-section magic.
pub open spec fn dcp_magic() -> Seq<u8> {
    seq![0x44u8, 0x43u8, 0x50u8, 0x00u8]
}

/// "DCA\0", the archive-section magic.
pub open spec fn dca_magic() -> Seq<u8> {
    seq![0x44u8, 0x43u8, 0x41u8, 0x00u8]
}

/// "DFLT", the only method tag with a working codec.
pub open spec fn dflt_tag() -> Seq<u8> {
    seq![0x44u8, 0x46u8, 0x4Cu8, 0x54u8]
}

/// "EDGE", recognized but unsupported.
pub open spec fn edge_tag() -> Seq<u8> {
    seq![0x45u8, 0x44u8, 0x47u8, 0x45u8]
}

/// "KRAK", recognized but unsupported.
pub open spec fn krak_tag() -> Seq<u8> {
    seq![0x4Bu8, 0x52u8, 0x41u8, 0x4Bu8]
}

/// Outer header: magic, a reserved word, the absolute offsets of the
/// sizes and params sections, and two reserved words.
#[derive(Debug)]
pub struct DcxHeader {
    pub magic: Vec<u8>,
    pub unk04: u32,
    pub ofs_dcs: u32,
    pub ofs_dcp: u32,
    pub unk10: u32,
    pub unk14: u32,
}

/// Sizes section: the declared uncompressed and compressed lengths.
#[derive(Debug)]
pub struct DcxSizes {
    pub magic: Vec<u8>,
    pub uncompressed_size: u32,
    pub compressed_size: u32,
}

/// Params section: the method tag, the archive-section offset (relative
/// to this section), four flag bytes and four reserved words.
#[derive(Debug)]
pub struct DcxParams {
    pub magic: Vec<u8>,
    pub method: Vec<u8>,
    pub ofs_dca: u32,
    pub unk0c: u8,
    pub unk0d: u8,
    pub unk0e: u8,
    pub unk0f: u8,
    pub unk10: u32,
    pub unk14: u32,
    pub unk18: u32,
    pub unk1c: u32,
}

/// Archive section: magic and the payload offset field.
#[derive(Debug)]
pub struct DcxArchive {
    pub magic: Vec<u8>,
    pub ofs_data: u32,
}

/// A parsed DCX container.
#[derive(Debug)]
pub struct Dcx {
    pub header: DcxHeader,
    pub sizes: DcxSizes,
    pub params: DcxParams,
    pub archive: DcxArchive,
}

// --- Spec layout ---

/// The absolute offset of the sizes section.
pub open spec fn spec_pos_dcs(b: Seq<u8>) -> int {
    u32_be(b, 8) as int
}

/// The absolute offset of the params section.
pub open spec fn spec_pos_dcp(b: Seq<u8>) -> int {
    u32_be(b, 0xC) as int
}

/// The absolute offset of the archive section: relative to the start of
/// the params section, the one offset in the format that is not
/// file-absolute.
pub open spec fn spec_pos_dca(b: Seq<u8>) -> int {
    spec_pos_dcp(b) + u32_be(b, spec_pos_dcp(b) + 8) as int
}

/// Where the compressed payload begins: right after the archive section.
pub open spec fn spec_payload_pos(b: Seq<u8>) -> int {
    spec_pos_dca(b) + 8
}

/// A buffer is a well-formed DCX container when all four chained
/// sections are in bounds, carry their magics, and the method tag is one
/// of the three recognized tags.
pub open spec fn spec_wf(b: Seq<u8>) -> bool {
    let s = spec_pos_dcs(b);
    let p = spec_pos_dcp(b);
    let a = spec_pos_dca(b);
    &&& b.len() >= 0x18
    &&& b.subrange(0, 4) == dcx_magic()
    &&& s + 0xC <= b.len()
    &&& b.subrange(s, s + 4) == dcs_magic()
    &&& p + 0x20 <= b.len()
    &&& b.subrange(p, p + 4) == dcp_magic()
    &&& (b.subrange(p + 4, p + 8) == dflt_tag() || b.subrange(p + 4, p + 8) == edge_tag()
        || b.subrange(p + 4, p + 8) == krak_tag())
    &&& a + 8 <= b.len()
    &&& b.subrange(a, a + 4) == dca_magic()
}

impl Dcx {
    /// Well-formedness: each section carries its four magic bytes'
    /// worth of tag, and the method tag is four bytes. The parser
    /// establishes this; the repacker relies on it.
    pub open spec fn wf(&self) -> bool {
        &&& self.header.magic@.len() == 4
        &&& self.sizes.magic@.len() == 4
        &&& self.params.magic@.len() == 4
        &&& self.params.method@.len() == 4
        &&& self.archive.magic@.len() == 4
    }

    /// The parse below fills each section from its chained offset.
    pub open spec fn parsed_from(self, b: Seq<u8>) -> bool {
        let s = spec_pos_dcs(b);
        let p = spec_pos_dcp(b);
        let a = spec_pos_dca(b);
        &&& self.header.magic@ == b.subrange(0, 4)
        &&& self.header.unk04 == u32_be(b, 4)
        &&& self.header.ofs_dcs == u32_be(b, 8)
        &&& self.header.ofs_dcp == u32_be(b, 0xC)
        &&& self.header.unk10 == u32_be(b, 0x10)
        &&& self.header.unk14 == u32_be(b, 0x14)
        &&& self.sizes.magic@ == b.subrange(s, s + 4)
        &&& self.sizes.uncompressed_size == u32_be(b, s + 4)
        &&& self.sizes.compressed_size == u32_be(b, s + 8)
        &&& self.params.magic@ == b.subrange(p, p + 4)
        &&& self.params.method@ == b.subrange(p + 4, p + 8)
        &&& self.params.ofs_dca == u32_be(b, p + 8)
        &&& self.params.unk0c == b[p + 0xC]
        &&& self.params.unk0d == b[p + 0xD]
        &&& self.params.unk0e == b[p + 0xE]
        &&& self.params.unk0f == b[p + 0xF]
        &&& self.params.unk10 == u32_be(b, p + 0x10)
        &&& self.params.unk14 == u32_be(b, p + 0x14)
        &&& self.params.unk18 == u32_be(b, p + 0x18)
        &&& self.params.unk1c == u32_be(b, p + 0x1C)
        &&& self.archive.magic@ == b.subrange(a, a + 4)
        &&& self.archive.ofs_data == u32_be(b, a + 4)
    }
}

/// Compare four bytes of the buffer against an expected magic.
fn tag4_matches(i: &[u8], pos: usize, t0: u8, t1: u8, t2: u8, t3: u8) -> (r: bool)
    requires
        pos + 4 <= i@.len() <= usize::MAX,
    ensures
        r == (i@.subrange(pos as int, pos + 4) == seq![t0, t1, t2, t3]),
{
    let r = read_u8(i, pos) == t0 && read_u8(i, pos + 1) == t1 && read_u8(i, pos + 2) == t2
        && read_u8(i, pos + 3) == t3;
    proof {
        if r {
            assert(i@.subrange(pos as int, pos + 4) =~= seq![t0, t1, t2, t3]);
        } else {
            assert(i@.subrange(pos as int, pos + 4) != seq![t0, t1, t2, t3]);
        }
    }
    r
}

/// Parse a DCX container, returning the structure together with the
/// byte offset where the compressed payload begins.
///
/// Returns the structure exactly when the buffer is well-formed; a
/// missing magic, an unrecognized method tag or an out-of-bounds chained
/// section is a fatal parse error.
pub fn parse(i: &[u8]) -> (r: Result<(Dcx, usize), UnpackError>)
    ensures
        match r {
            Ok((dcx, payload)) => spec_wf(i@) && dcx.wf() && dcx.parsed_from(i@) && payload
                == spec_payload_pos(i@),
            Err(e) => !spec_wf(i@) && e matches UnpackError::Parsing(_),
        },
{
    let n = i.len();
    if n < 0x18 {
        return Err(UnpackError::parsing_err("DCX", "truncated header"));
    }
    if !tag4_matches(i, 0, 0x44, 0x43, 0x58, 0x00) {
        return Err(UnpackError::parsing_err("DCX", "bad magic"));
    }
    let header = DcxHeader {
        magic: subrange_vec(i, 0, 4),
        unk04: read_u32(i, 4, true),
        ofs_dcs: read_u32(i, 8, true),
        ofs_dcp: read_u32(i, 0xC, true),
        unk10: read_u32(i, 0x10, true),
        unk14: read_u32(i, 0x14, true),
    };

    let s64 = header.ofs_dcs as u64;
    if s64 + 0xC > n as u64 {
        return Err(UnpackError::parsing_err("DCX", "sizes section out of bounds"));
    }
    let s = header.ofs_dcs as usize;
    if !tag4_matches(i, s, 0x44, 0x43, 0x53, 0x00) {
        return Err(UnpackError::parsing_err("DCX", "bad sizes magic"));
    }
    let sizes = DcxSizes {
        magic: subrange_vec(i, s, s + 4),
        uncompressed_size: read_u32(i, s + 4, true),
        compressed_size: read_u32(i, s + 8, true),
    };

    let p64 = header.ofs_dcp as u64;
    if p64 + 0x20 > n as u64 {
        return Err(UnpackError::parsing_err("DCX", "params section out of bounds"));
    }
    let p = header.ofs_dcp as usize;
    if !tag4_matches(i, p, 0x44, 0x43, 0x50, 0x00) {
        return Err(UnpackError::parsing_err("DCX", "bad params magic"));
    }
    let is_dflt = tag4_matches(i, p + 4, 0x44, 0x46, 0x4C, 0x54);
    let is_edge = tag4_matches(i, p + 4, 0x45, 0x44, 0x47, 0x45);
    let is_krak = tag4_matches(i, p + 4, 0x4B, 0x52, 0x41, 0x4B);
    if !(is_dflt || is_edge || is_krak) {
        return Err(UnpackError::parsing_err("DCX", "unrecognized method tag"));
    }
    let params = DcxParams {
        magic: subrange_vec(i, p, p + 4),
        method: subrange_vec(i, p + 4, p + 8),
        ofs_dca: read_u32(i, p + 8, true),
        unk0c: read_u8(i, p + 0xC),
        unk0d: read_u8(i, p + 0xD),
        unk0e: read_u8(i, p + 0xE),
        unk0f: read_u8(i, p + 0xF),
        unk10: read_u32(i, p + 0x10, true),
        unk14: read_u32(i, p + 0x14, true),
        unk18: read_u32(i, p + 0x18, true),
        unk1c: read_u32(i, p + 0x1C, true),
    };

    let a64 = p as u64 + params.ofs_dca as u64;
    if a64 + 8 > n as u64 {
        return Err(UnpackError::parsing_err("DCX", "archive section out of bounds"));
    }
    let a = p + params.ofs_dca as usize;
    if !tag4_matches(i, a, 0x44, 0x43, 0x41, 0x00) {
        return Err(UnpackError::parsing_err("DCX", "bad archive magic"));
    }
    let archive = DcxArchive { magic: subrange_vec(i, a, a + 4), ofs_data: read_u32(i, a + 4, true) };

    Ok((Dcx { header, sizes, params, archive }, a + 8))
}


// --- Serialization ---

impl Pack for DcxHeader {
    open spec fn bytes(&self) -> Seq<u8> {
        self.magic@ + u32_be_bytes(self.unk04) + u32_be_bytes(self.ofs_dcs) + u32_be_bytes(
            self.ofs_dcp,
        ) + u32_be_bytes(self.unk10) + u32_be_bytes(self.unk14)
    }

    fn write(&self, out: &mut Vec<u8>) -> (n: usize) {
        out.extend_from_slice(self.magic.as_slice());
        push_u32_be(out, self.unk04);
        push_u32_be(out, self.ofs_dcs);
        push_u32_be(out, self.ofs_dcp);
        push_u32_be(out, self.unk10);
        push_u32_be(out, self.unk14);
        proof {
            assert(out@ =~= old(out)@ + self.bytes());
        }
        self.magic.len() + 20
    }
}

impl Pack for DcxSizes {
    open spec fn bytes(&self) -> Seq<u8> {
        self.magic@ + u32_be_bytes(self.uncompressed_size) + u32_be_bytes(self.compressed_size)
    }

    fn write(&self, out: &mut Vec<u8>) -> (n: usize) {
        out.extend_from_slice(self.magic.as_slice());
        push_u32_be(out, self.uncompressed_size);
        push_u32_be(out, self.compressed_size);
        proof {
            assert(out@ =~= old(out)@ + self.bytes());
        }
        self.magic.len() + 8
    }
}

impl Pack for DcxParams {
    open spec fn bytes(&self) -> Seq<u8> {
        self.magic@ + self.method@ + u32_be_bytes(self.ofs_dca) + seq![
            self.unk0c,
            self.unk0d,
            self.unk0e,
            self.unk0f,
        ] + u32_be_bytes(self.unk10) + u32_be_bytes(self.unk14) + u32_be_bytes(self.unk18)
            + u32_be_bytes(self.unk1c)
    }

    fn write(&self, out: &mut Vec<u8>) -> (n: usize) {
        out.extend_from_slice(self.magic.as_slice());
        out.extend_from_slice(self.method.as_slice());
        push_u32_be(out, self.ofs_dca);
        out.push(self.unk0c);
        out.push(self.unk0d);
        out.push(self.unk0e);
        out.push(self.unk0f);
        push_u32_be(out, self.unk10);
        push_u32_be(out, self.unk14);
        push_u32_be(out, self.unk18);
        push_u32_be(out, self.unk1c);
        proof {
            assert(out@ =~= old(out)@ + self.bytes());
        }
        self.magic.len() + self.method.len() + 24
    }
}

impl Pack for DcxArchive {
    open spec fn bytes(&self) -> Seq<u8> {
        self.magic@ + u32_be_bytes(self.ofs_data)
    }

    fn write(&self, out: &mut Vec<u8>) -> (n: usize) {
        out.extend_from_slice(self.magic.as_slice());
        push_u32_be(out, self.ofs_data);
        proof {
            assert(out@ =~= old(out)@ + self.bytes());
        }
        self.magic.len() + 4
    }
}

impl Dcx {
    /// All four sections serialized back to back, the on-disk layout the
    /// repacker emits.
    pub open spec fn sections_bytes(&self) -> Seq<u8> {
        self.header.bytes() + self.sizes.bytes() + self.params.bytes() + self.archive.bytes()
    }
}

/// Round-trip law for the container sections: re-serializing a parsed
/// container reproduces the original bytes up to the payload, whenever
/// the sections lie back to back as the writer lays them out (sizes at
/// 0x18, params at 0x24, archive at params + 0x20).
pub proof fn lemma_dcx_roundtrip(dcx: Dcx, b: Seq<u8>)
    requires
        spec_wf(b),
        dcx.parsed_from(b),
        spec_pos_dcs(b) == 0x18,
        spec_pos_dcp(b) == 0x24,
        u32_be(b, 0x24int + 8) == 0x20,
    ensures
        dcx.sections_bytes() =~= b.subrange(0, spec_payload_pos(b)),
{
    lemma_u32_be_roundtrip(b, 4);
    lemma_u32_be_roundtrip(b, 8);
    lemma_u32_be_roundtrip(b, 0xC);
    lemma_u32_be_roundtrip(b, 0x10);
    lemma_u32_be_roundtrip(b, 0x14);
    assert(dcx.header.bytes() =~= b.subrange(0, 0x18));
    lemma_u32_be_roundtrip(b, 0x18int + 4);
    lemma_u32_be_roundtrip(b, 0x18int + 8);
    assert(dcx.sizes.bytes() =~= b.subrange(0x18, 0x24));
    lemma_u32_be_roundtrip(b, 0x24int + 8);
    lemma_u32_be_roundtrip(b, 0x24int + 0x10);
    lemma_u32_be_roundtrip(b, 0x24int + 0x14);
    lemma_u32_be_roundtrip(b, 0x24int + 0x18);
    lemma_u32_be_roundtrip(b, 0x24int + 0x1C);
    assert(seq![dcx.params.unk0c, dcx.params.unk0d, dcx.params.unk0e, dcx.params.unk0f]
        =~= b.subrange(0x24int + 0xC, 0x24int + 0x10));
    assert(dcx.params.bytes() =~= b.subrange(0x24, 0x44));
    lemma_u32_be_roundtrip(b, 0x44int + 4);
    assert(dcx.archive.bytes() =~= b.subrange(0x44, 0x4C));
    assert(spec_payload_pos(b) == 0x4C);
}

// --- Compression ---

/// What the deflate-style encoder produces for a payload at a given
/// compression level.
pub uninterp spec fn zlib_deflate_of(data: Seq<u8>, level: u8) -> Seq<u8>;

/// Compress bytes as a zlib stream.
///
/// Relies on flate2::write::ZlibEncoder with the default pure-Rust
/// backend: for levels up to the encoder's maximum of 10 (it asserts no
/// more is passed), the stream it produces depends on the input bytes
/// and the level alone, decompressing it yields the input back, and
/// writing to an in-memory sink cannot fail.
#[verifier::external_body]
fn zlib_compress(data: &[u8], level: u8) -> (r: Vec<u8>)
    requires
        level <= 10,
    ensures
        r@ == zlib_deflate_of(data@, level),
        zlib_inflate_of(r@, data@.len() as nat) == Some(data@),
{
    let mut encoder = flate2::write::ZlibEncoder::new(
        Vec::new(),
        flate2::Compression::new(level as u32),
    );
    std::io::Write::write_all(&mut encoder, data).expect("write to a Vec cannot fail");
    encoder.finish().expect("finish to a Vec cannot fail")
}

/// The compression level actually used for a container's level byte:
/// clamped to the encoder's maximum of 10, as the encoder itself clamps.
pub open spec fn spec_clamped_level(level: u8) -> u8 {
    if level > 10 {
        10
    } else {
        level
    }
}

/// What reading exactly `n` decompressed bytes of a zlib stream yields:
/// the bytes, or nothing when the stream is corrupt or too short.
pub uninterp spec fn zlib_inflate_of(data: Seq<u8>, n: nat) -> Option<Seq<u8>>;

/// Decompress exactly `n` bytes from a zlib stream.
///
/// Relies on flate2::read::ZlibDecoder and Read::read_exact: the outcome
/// depends on the input bytes and `n` alone; a corrupt or short stream
/// reports an error instead of filling the buffer.
#[verifier::external_body]
fn zlib_decompress(data: &[u8], n: usize) -> (r: Option<Vec<u8>>)
    ensures
        match r {
            Some(v) => zlib_inflate_of(data@, n as nat) == Some(v@) && v@.len() == n,
            None => zlib_inflate_of(data@, n as nat) is None,
        },
{
    let mut out = vec![0u8; n];
    let mut decoder = flate2::read::ZlibDecoder::new(data);
    match std::io::Read::read_exact(&mut decoder, &mut out) {
        Ok(()) => Some(out),
        Err(_) => None,
    }
}

/// Whether the container's method tag is the supported DFLT tag.
fn method_is_dflt(method: &Vec<u8>) -> (r: bool)
    ensures
        r == (method@ == dflt_tag()),
{
    let r = method.len() == 4 && method[0] == 0x44 && method[1] == 0x46 && method[2] == 0x4C
        && method[3] == 0x54;
    proof {
        if r {
            assert(method@ =~= dflt_tag());
        }
    }
    r
}

/// Compress data using the container's params, the level byte clamped
/// to the encoder's range.
///
/// Only the DFLT method is supported for writing; any other tag is a
/// compression error.
pub fn compress(dcx: &Dcx, data: &[u8]) -> (r: Result<Vec<u8>, PackError>)
    ensures
        match r {
            Ok(v) => {
                &&& dcx.params.method@ == dflt_tag()
                &&& v@ == zlib_deflate_of(data@, spec_clamped_level(dcx.params.unk0c))
                &&& zlib_inflate_of(v@, data@.len() as nat) == Some(data@)
            },
            Err(e) => dcx.params.method@ != dflt_tag() && e matches PackError::Compression(_),
        },
{
    if method_is_dflt(&dcx.params.method) {
        let level: u8 = if dcx.params.unk0c > 10 {
            10
        } else {
            dcx.params.unk0c
        };
        Ok(zlib_compress(data, level))
    } else {
        let mut message = "Method unknown: ".to_owned();
        let method_string = utf8_to_string_lossy(dcx.params.method.as_slice());
        message.append(method_string.as_str());
        Err(PackError::Compression(message))
    }
}

/// Decompress the payload of a parsed container.
///
/// Only the DFLT method can be decoded: the other recognized tags fail
/// with the distinct unsupported-method error, and a corrupt or short
/// stream is an I/O error, never silently truncated or padded.
pub fn decompress_dcx(dcx: &Dcx, comp_data: &[u8]) -> (r: Result<Vec<u8>, UnpackError>)
    ensures
        match r {
            Ok(v) => dcx.params.method@ == dflt_tag() && zlib_inflate_of(
                comp_data@,
                dcx.sizes.uncompressed_size as nat,
            ) == Some(v@) && v@.len() == dcx.sizes.uncompressed_size,
            Err(e) => match e {
                UnpackError::Io(_) => dcx.params.method@ == dflt_tag() && zlib_inflate_of(
                    comp_data@,
                    dcx.sizes.uncompressed_size as nat,
                ) is None,
                UnpackError::Compression(_) => dcx.params.method@ != dflt_tag(),
                _ => false,
            },
        },
{
    if method_is_dflt(&dcx.params.method) {
        match zlib_decompress(comp_data, dcx.sizes.uncompressed_size as usize) {
            Some(v) => Ok(v),
            None => Err(UnpackError::Io("truncated or corrupt deflate stream".to_owned())),
        }
    } else {
        let mut message = "Unknown method: ".to_owned();
        let method_string = utf8_to_string_lossy(dcx.params.method.as_slice());
        message.append(method_string.as_str());
        Err(UnpackError::Compression(message))
    }
}

/// Serialize the four sections followed by the compressed payload.
fn write_sections(dcx: &Dcx, compressed: &Vec<u8>) -> (out: Vec<u8>)
    requires
        dcx.sections_bytes().len() + compressed@.len() <= usize::MAX,
    ensures
        out@ == dcx.sections_bytes() + compressed@,
{
    let mut out: Vec<u8> = Vec::new();
    dcx.header.write(&mut out);
    dcx.sizes.write(&mut out);
    dcx.params.write(&mut out);
    dcx.archive.write(&mut out);
    out.extend_from_slice(compressed.as_slice());
    proof {
        assert(out@ =~= dcx.sections_bytes() + compressed@);
    }
    out
}

/// A well-formed container's sections serialize to exactly 0x4C bytes.
#[verifier::rlimit(100)]
proof fn lemma_sections_len(dcx: Dcx)
    requires
        dcx.wf(),
    ensures
        dcx.sections_bytes().len() == 0x4C,
{
    assert(dcx.header.bytes().len() == 24);
    assert(dcx.sizes.bytes().len() == 12);
    assert(dcx.params.bytes().len() == 32);
    assert(dcx.archive.bytes().len() == 8);
}

/// Repack a previously parsed DCX container around new payload bytes.
///
/// The two size fields are recomputed from the new payload and its
/// compressed form; every other field of all four sections is reused
/// verbatim. The serialized container is returned. Requesting repack
/// with a method other than DFLT, or a payload whose compressed form
/// cannot be represented, is a compression error.
#[verifier::rlimit(100)]
pub fn pack_dcx(dcx: &mut Dcx, data: &[u8]) -> (r: Result<Vec<u8>, PackError>)
    requires
        old(dcx).wf(),
        data@.len() <= u32::MAX,
    ensures
        final(dcx).header == old(dcx).header,
        final(dcx).params == old(dcx).params,
        final(dcx).archive == old(dcx).archive,
        final(dcx).sizes.magic == old(dcx).sizes.magic,
        match r {
            Ok(out) => {
                &&& old(dcx).params.method@ == dflt_tag()
                &&& final(dcx).sizes.uncompressed_size == data@.len()
                &&& final(dcx).sizes.compressed_size == zlib_deflate_of(
                    data@,
                    spec_clamped_level(old(dcx).params.unk0c),
                ).len()
                &&& out@ == final(dcx).sections_bytes() + zlib_deflate_of(
                    data@,
                    spec_clamped_level(old(dcx).params.unk0c),
                )
                &&& zlib_inflate_of(
                    out@.subrange(0x4C, out@.len() as int),
                    data@.len() as nat,
                ) == Some(data@)
            },
            Err(e) => e matches PackError::Compression(_) && (old(dcx).params.method@
                != dflt_tag() || zlib_deflate_of(
                data@,
                spec_clamped_level(old(dcx).params.unk0c),
            ).len() > u32::MAX || zlib_deflate_of(
                data@,
                spec_clamped_level(old(dcx).params.unk0c),
            ).len() > usize::MAX - 0x4C),
        },
{
    dcx.sizes.uncompressed_size = data.len() as u32;
    let compressed = match compress(dcx, data) {
        Ok(c) => c,
        Err(e) => {
            return Err(e);
        },
    };
    if compressed.len() > 0xFFFF_FFFFusize {
        return Err(PackError::Compression("compressed payload too large".to_owned()));
    }
    if compressed.len() > usize::MAX - 0x4C {
        return Err(PackError::Compression("container too large to serialize".to_owned()));
    }
    dcx.sizes.compressed_size = compressed.len() as u32;
    proof {
        lemma_sections_len(*dcx);
    }
    let out = write_sections(dcx, &compressed);
    proof {
        assert(out@.subrange(0x4C, out@.len() as int) =~= compressed@);
    }
    Ok(out)
}

} // verus!
