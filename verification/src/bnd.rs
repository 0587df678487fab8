//! Sequential binder (BND3): a header whose two flag bytes determine the
//! bit order of the format byte and the byte order of every later field,
//! followed by a file-info table with flag-gated optional fields and
//! offset-addressed internal paths.
use vstd::prelude::*;

verus! {

use crate::common::cstr_len;
use crate::common::read_u32;
use crate::common::read_u8;
use crate::common::sjis_of;
use crate::common::sjis_to_string;
use crate::common::subrange_vec;
use crate::common::take_cstring;
use crate::common::u32_at;
use crate::errors::UnpackError;

/// Format bit: file data is big-endian.
pub const FORMAT_BE: u8 = 0b00000001;

/// Format bit: entries carry an id.
pub const FORMAT_HAS_ID: u8 = 0b00000010;

/// Format bit: entries carry a path offset (first variant).
pub const FORMAT_HAS_NAME1: u8 = 0b00000100;

/// Format bit: entries carry a path offset (second variant).
pub const FORMAT_HAS_NAME2: u8 = 0b00001000;

/// Format bit: entries carry an uncompressed size.
pub const FORMAT_HAS_UNCOMP_SIZE: u8 = 0b00100000;

/// Whether `v` has all bits of `flag` set (spec twin of `bits::has_flag`).
pub open spec fn fhas(v: u8, flag: u8) -> bool {
    v & flag == flag
}

/// A byte with its bit order reversed.
pub open spec fn spec_reverse_bits(v: u8) -> u8 {
    ((v & 0x80) >> 7) | ((v & 0x40) >> 5) | ((v & 0x20) >> 3) | ((v & 0x10) >> 1) | ((v & 0x08)
        << 1) | ((v & 0x04) << 3) | ((v & 0x02) << 5) | ((v & 0x01) << 7)
}

/// Reverse the bit order of a byte.
pub fn reverse_bits(v: u8) -> (r: u8)
    ensures
        r == spec_reverse_bits(v),
{
    ((v & 0x80) >> 7) | ((v & 0x40) >> 5) | ((v & 0x20) >> 3) | ((v & 0x10) >> 1) | ((v & 0x08)
        << 1) | ((v & 0x04) << 3) | ((v & 0x02) << 5) | ((v & 0x01) << 7)
}

/// The resolved format byte: the raw byte as stored when the
/// bit-endianness flag says so, or when it already carries the BE bit
/// without the 0x80 bit; otherwise the raw byte bit-reversed.
pub open spec fn spec_format(bit_en: u8, raw_format: u8) -> u8 {
    if bit_en == 1 || (fhas(raw_format, FORMAT_BE) && !fhas(raw_format, 0x80)) {
        raw_format
    } else {
        spec_reverse_bits(raw_format)
    }
}

/// Return the format byte with varying bit order managed.
pub fn format(bit_en: u8, raw_format: u8) -> (r: u8)
    ensures
        r == spec_format(bit_en, raw_format),
{
    if bit_en == 1 || (raw_format & FORMAT_BE == FORMAT_BE) && !(raw_format & 0x80 == 0x80) {
        raw_format
    } else {
        reverse_bits(raw_format)
    }
}

/// Whether multi-byte fields are big-endian: the endianness byte says so,
/// or the resolved format carries the BE bit.
pub open spec fn spec_use_be(en: u8, format: u8) -> bool {
    en == 1 || fhas(format, FORMAT_BE)
}

/// Return whether the parsing byte order is big-endian.
pub fn use_be(en: u8, format: u8) -> (r: bool)
    ensures
        r == spec_use_be(en, format),
{
    en == 1 || format & FORMAT_BE == FORMAT_BE
}

/// Flag-dependent helpers shared by the binder headers: the resolved
/// format byte, the byte order, and which optional per-entry fields are
/// present.
pub trait BinderOptions {
    /// The resolved format byte, as a spec-level value.
    spec fn format_spec(&self) -> u8;

    /// The resolved byte order, as a spec-level value.
    spec fn use_be_spec(&self) -> bool;

    /// The resolved format byte.
    fn format(&self) -> (r: u8)
        ensures
            r == self.format_spec(),
    ;

    /// Whether multi-byte fields are big-endian.
    fn use_be(&self) -> (r: bool)
        ensures
            r == self.use_be_spec(),
    ;

    /// Return whether files have IDs.
    fn has_ids(&self) -> (r: bool)
        ensures
            r == fhas(self.format_spec(), FORMAT_HAS_ID),
    ;

    /// Return whether files have paths.
    fn has_paths(&self) -> (r: bool)
        ensures
            r == (fhas(self.format_spec(), FORMAT_HAS_NAME1) || fhas(
                self.format_spec(),
                FORMAT_HAS_NAME2,
            )),
    ;

    /// Return whether files have an uncompressed size.
    fn has_uncomp_size(&self) -> (r: bool)
        ensures
            r == fhas(self.format_spec(), FORMAT_HAS_UNCOMP_SIZE),
    ;
}

/// BND3 header: magic and version tags, the two flag bytes that gate
/// everything later, and the flag-ordered numeric fields.
#[derive(Debug)]
pub struct BndHeader {
    pub magic: Vec<u8>,
    pub version: Vec<u8>,
    pub raw_format: u8,
    pub endianness: u8,
    pub bit_endianness: u8,
    pub flags0f: u8,
    pub num_files: u32,
    pub ofs_data: u32,
    pub unk18: u32,
    pub unk1c: u32,
}

impl BinderOptions for BndHeader {
    open spec fn format_spec(&self) -> u8 {
        spec_format(self.bit_endianness, self.raw_format)
    }

    open spec fn use_be_spec(&self) -> bool {
        spec_use_be(self.endianness, self.format_spec())
    }

    /// See the `format` function.
    fn format(&self) -> (r: u8) {
        format(self.bit_endianness, self.raw_format)
    }

    /// See the `use_be` function.
    fn use_be(&self) -> (r: bool) {
        use_be(self.endianness, self.format())
    }

    fn has_ids(&self) -> (r: bool) {
        self.format() & FORMAT_HAS_ID == FORMAT_HAS_ID
    }

    fn has_paths(&self) -> (r: bool) {
        let f = self.format();
        f & FORMAT_HAS_NAME1 == FORMAT_HAS_NAME1 || f & FORMAT_HAS_NAME2 == FORMAT_HAS_NAME2
    }

    fn has_uncomp_size(&self) -> (r: bool) {
        self.format() & FORMAT_HAS_UNCOMP_SIZE == FORMAT_HAS_UNCOMP_SIZE
    }
}

/// One file-info record: four opaque flag bytes, size and data offset,
/// then flag-gated id, path offset and uncompressed size (absent fields
/// default to zero), and the path resolved from the shared buffer.
#[derive(Debug)]
pub struct BndFileInfo {
    pub unk00: u8,
    pub unk01: u8,
    pub unk02: u8,
    pub unk03: u8,
    pub size: u32,
    pub ofs_data: u32,
    pub id: u32,
    pub ofs_path: u32,
    pub uncompressed_size: u32,
    pub path: Option<String>,
}

// --- Spec layout of the file-info table ---

/// Whether entries carry paths under this resolved format.
pub open spec fn spec_has_paths(fmt: u8) -> bool {
    fhas(fmt, FORMAT_HAS_NAME1) || fhas(fmt, FORMAT_HAS_NAME2)
}

/// The byte size of one file-info record under this resolved format.
pub open spec fn spec_info_size(fmt: u8) -> int {
    12 + (if fhas(fmt, FORMAT_HAS_ID) {
        4int
    } else {
        0int
    }) + (if spec_has_paths(fmt) {
        4int
    } else {
        0int
    }) + (if fhas(fmt, FORMAT_HAS_UNCOMP_SIZE) {
        4int
    } else {
        0int
    })
}

/// The id stored at record offset `p`, or zero when absent.
pub open spec fn spec_info_id(b: Seq<u8>, p: int, fmt: u8, be: bool) -> u32 {
    if fhas(fmt, FORMAT_HAS_ID) {
        u32_at(b, p + 12, be)
    } else {
        0
    }
}

/// The offset of the path-offset field inside a record.
pub open spec fn spec_path_field_ofs(fmt: u8) -> int {
    12 + (if fhas(fmt, FORMAT_HAS_ID) {
        4int
    } else {
        0int
    })
}

/// The path offset stored at record offset `p`, or zero when absent.
pub open spec fn spec_info_ofs_path(b: Seq<u8>, p: int, fmt: u8, be: bool) -> u32 {
    if spec_has_paths(fmt) {
        u32_at(b, p + spec_path_field_ofs(fmt), be)
    } else {
        0
    }
}

/// The uncompressed size stored at record offset `p`, or zero when absent.
pub open spec fn spec_info_uncomp(b: Seq<u8>, p: int, fmt: u8, be: bool) -> u32 {
    if fhas(fmt, FORMAT_HAS_UNCOMP_SIZE) {
        u32_at(
            b,
            p + spec_path_field_ofs(fmt) + (if spec_has_paths(fmt) {
                4int
            } else {
                0int
            }),
            be,
        )
    } else {
        0
    }
}

/// The resolved format byte of the buffer's header.
pub open spec fn spec_buf_format(b: Seq<u8>) -> u8 {
    spec_format(b[0xE], b[0xC])
}

/// The resolved byte order of the buffer's header.
pub open spec fn spec_buf_be(b: Seq<u8>) -> bool {
    spec_use_be(b[0xD], spec_buf_format(b))
}

/// The number of file-info records the buffer's header declares.
pub open spec fn spec_buf_num_files(b: Seq<u8>) -> int {
    u32_at(b, 0x10, spec_buf_be(b)) as int
}

/// The byte offset of file-info record `k`.
pub open spec fn spec_info_pos(b: Seq<u8>, k: int) -> int {
    0x20 + k * spec_info_size(spec_buf_format(b))
}

/// A buffer is a well-formed BND3 file when the magic matches, the whole
/// file-info table fits, and every present path offset stays in bounds.
pub open spec fn spec_wf(b: Seq<u8>) -> bool {
    &&& b.len() >= 0x20
    &&& b.subrange(0, 4) == seq![0x42u8, 0x4Eu8, 0x44u8, 0x33u8]
    &&& 0x20 + spec_buf_num_files(b) * spec_info_size(spec_buf_format(b)) <= b.len()
    &&& spec_has_paths(spec_buf_format(b)) ==> forall|k: int|
        0 <= k < spec_buf_num_files(b) ==> spec_info_ofs_path(
            b,
            #[trigger] spec_info_pos(b, k),
            spec_buf_format(b),
            spec_buf_be(b),
        ) <= b.len()
}

/// A parsed BND3 binder.
#[derive(Debug)]
pub struct Bnd {
    pub header: BndHeader,
    pub file_infos: Vec<BndFileInfo>,
}

impl Bnd {
    /// The parse below fills the header from the fixed offsets and every
    /// record from its flag-dependent layout, resolving paths through the
    /// legacy text decoding (a decode failure leaves the path absent).
    pub open spec fn parsed_from(self, b: Seq<u8>) -> bool {
        let fmt = spec_buf_format(b);
        let be = spec_buf_be(b);
        &&& self.header.magic@ == b.subrange(0, 4)
        &&& self.header.version@ == b.subrange(4, 0xC)
        &&& self.header.raw_format == b[0xC]
        &&& self.header.endianness == b[0xD]
        &&& self.header.bit_endianness == b[0xE]
        &&& self.header.flags0f == b[0xF]
        &&& self.header.num_files == u32_at(b, 0x10, be)
        &&& self.header.ofs_data == u32_at(b, 0x14, be)
        &&& self.header.unk18 == u32_at(b, 0x18, be)
        &&& self.header.unk1c == u32_at(b, 0x1C, be)
        &&& self.file_infos@.len() == spec_buf_num_files(b)
        &&& forall|k: int|
            0 <= k < spec_buf_num_files(b) ==> info_parsed_from(
                #[trigger] self.file_infos@[k],
                b,
                spec_info_pos(b, k),
            )
    }
}

/// One record parsed from offset `p`, its path resolved when present.
pub open spec fn info_parsed_from(info: BndFileInfo, b: Seq<u8>, p: int) -> bool {
    let fmt = spec_buf_format(b);
    let be = spec_buf_be(b);
    &&& info.unk00 == b[p]
    &&& info.unk01 == b[p + 1]
    &&& info.unk02 == b[p + 2]
    &&& info.unk03 == b[p + 3]
    &&& info.size == u32_at(b, p + 4, be)
    &&& info.ofs_data == u32_at(b, p + 8, be)
    &&& info.id == spec_info_id(b, p, fmt, be)
    &&& info.ofs_path == spec_info_ofs_path(b, p, fmt, be)
    &&& info.uncompressed_size == spec_info_uncomp(b, p, fmt, be)
    &&& if spec_has_paths(fmt) {
        path_resolved(info.path, b, spec_info_ofs_path(b, p, fmt, be) as int)
    } else {
        info.path is None
    }
}

/// The outcome of resolving a path from the buffer: the legacy decoding
/// of the null-terminated span at `ofs`, or absent when decoding fails.
pub open spec fn path_resolved(path: Option<String>, b: Seq<u8>, ofs: int) -> bool {
    match sjis_of(b.subrange(ofs, ofs + cstr_len(b, ofs))) {
        Some(s) => path matches Some(p) && p@ == s,
        None => path is None,
    }
}

/// Parse a BND3 binder.
///
/// Returns the fully resolved structure exactly when the buffer is
/// well-formed; truncation, bad magic or an out-of-bounds path offset is
/// a fatal parse error. A path that fails to decode is left absent and
/// does not abort the parse.
pub fn parse(i: &[u8]) -> (r: Result<Bnd, UnpackError>)
    ensures
        match r {
            Ok(bnd) => spec_wf(i@) && bnd.parsed_from(i@),
            Err(e) => !spec_wf(i@) && e matches UnpackError::Parsing(_),
        },
{
    let n = i.len();
    if n < 0x20 {
        return Err(UnpackError::parsing_err("BND", "truncated header"));
    }
    if !(read_u8(i, 0) == 0x42 && read_u8(i, 1) == 0x4E && read_u8(i, 2) == 0x44 && read_u8(i, 3)
        == 0x33) {
        proof {
            assert(i@.subrange(0, 4) != seq![0x42u8, 0x4Eu8, 0x44u8, 0x33u8]);
        }
        return Err(UnpackError::parsing_err("BND", "bad magic"));
    }
    proof {
        assert(i@.subrange(0, 4) =~= seq![0x42u8, 0x4Eu8, 0x44u8, 0x33u8]);
    }
    let raw_format = read_u8(i, 0xC);
    let endianness = read_u8(i, 0xD);
    let bit_endianness = read_u8(i, 0xE);
    let flags0f = read_u8(i, 0xF);
    let fmt = format(bit_endianness, raw_format);
    let be = use_be(endianness, fmt);
    let header = BndHeader {
        magic: subrange_vec(i, 0, 4),
        version: subrange_vec(i, 4, 0xC),
        raw_format,
        endianness,
        bit_endianness,
        flags0f,
        num_files: read_u32(i, 0x10, be),
        ofs_data: read_u32(i, 0x14, be),
        unk18: read_u32(i, 0x18, be),
        unk1c: read_u32(i, 0x1C, be),
    };

    let has_id = fmt & FORMAT_HAS_ID == FORMAT_HAS_ID;
    let has_paths = fmt & FORMAT_HAS_NAME1 == FORMAT_HAS_NAME1 || fmt & FORMAT_HAS_NAME2
        == FORMAT_HAS_NAME2;
    let has_uncomp = fmt & FORMAT_HAS_UNCOMP_SIZE == FORMAT_HAS_UNCOMP_SIZE;
    let isz: usize = 12 + (if has_id {
        4usize
    } else {
        0usize
    }) + (if has_paths {
        4usize
    } else {
        0usize
    }) + (if has_uncomp {
        4usize
    } else {
        0usize
    });
    let num64 = header.num_files as u64;
    proof {
        vstd::arithmetic::mul::lemma_mul_upper_bound(num64 as int, 0xFFFF_FFFF, isz as int, 24);
    }
    if 0x20u64 + num64 * (isz as u64) > n as u64 {
        return Err(UnpackError::parsing_err("BND", "file-info table out of bounds"));
    }
    let num = header.num_files as usize;

    let mut file_infos: Vec<BndFileInfo> = Vec::new();
    let mut k: usize = 0;
    while k < num
        invariant
            n == i@.len() <= usize::MAX,
            n >= 0x20,
            fmt == spec_buf_format(i@),
            be == spec_buf_be(i@),
            num == spec_buf_num_files(i@),
            isz == spec_info_size(fmt),
            has_id == fhas(fmt, FORMAT_HAS_ID),
            has_paths == spec_has_paths(fmt),
            has_uncomp == fhas(fmt, FORMAT_HAS_UNCOMP_SIZE),
            0x20 + num * isz <= n,
            0 <= k <= num,
            file_infos@.len() == k,
            forall|j: int|
                0 <= j < k ==> info_parsed_from(
                    #[trigger] file_infos@[j],
                    i@,
                    spec_info_pos(i@, j),
                ),
            forall|j: int|
                0 <= j < k && has_paths ==> spec_info_ofs_path(
                    i@,
                    #[trigger] spec_info_pos(i@, j),
                    fmt,
                    be,
                ) <= n,
        decreases num - k,
    {
        proof {
            vstd::arithmetic::mul::lemma_mul_inequality(k as int, num as int, isz as int);
        }
        let p = 0x20 + k * isz;
        proof {
            assert(p == spec_info_pos(i@, k as int));
            assert(p + isz <= n) by (nonlinear_arith)
                requires
                    0x20 + num * isz <= n,
                    p == 0x20 + k * isz,
                    0 <= k < num,
            ;
        }
        let unk00 = read_u8(i, p);
        let unk01 = read_u8(i, p + 1);
        let unk02 = read_u8(i, p + 2);
        let unk03 = read_u8(i, p + 3);
        let size = read_u32(i, p + 4, be);
        let ofs_data = read_u32(i, p + 8, be);
        let mut cur = p + 12;
        let id = if has_id {
            let v = read_u32(i, cur, be);
            cur = cur + 4;
            v
        } else {
            0
        };
        let ofs_path = if has_paths {
            let v = read_u32(i, cur, be);
            cur = cur + 4;
            v
        } else {
            0
        };
        let uncompressed_size = if has_uncomp {
            read_u32(i, cur, be)
        } else {
            0
        };

        let path: Option<String> = if has_paths {
            if ofs_path as u64 > n as u64 {
                return Err(UnpackError::parsing_err("BND", "path offset out of bounds"));
            }
            let sjis_path = take_cstring(i, ofs_path as usize);
            sjis_to_string(sjis_path.as_slice())
        } else {
            None
        };

        file_infos.push(
            BndFileInfo {
                unk00,
                unk01,
                unk02,
                unk03,
                size,
                ofs_data,
                id,
                ofs_path,
                uncompressed_size,
                path,
            },
        );
        k = k + 1;
    }

    Ok(Bnd { header, file_infos })
}


/// The documented resolution rule, as a law: with the bit-endianness
/// byte clear, a raw format byte that carries the BE bit and not the
/// 0x80 bit resolves to itself (no bit reversal), and the resolved
/// byte order is big-endian whatever the endianness byte holds.
pub proof fn lemma_format_resolution(raw: u8, en: u8)
    requires
        fhas(raw, FORMAT_BE),
        !fhas(raw, 0x80),
    ensures
        spec_format(0, raw) == raw,
        spec_use_be(en, spec_format(0, raw)),
{
}

/// The index of the last backslash in an internal path, or -1 when
/// there is none.
pub open spec fn last_backslash(s: Seq<char>) -> int
    decreases s.len(),
{
    if s.len() == 0 {
        -1
    } else if s.last() == '\\' {
        s.len() - 1
    } else {
        last_backslash(s.drop_last())
    }
}

/// The file-name part of an internal path: the text after the last
/// backslash, or the whole path when there is none.
pub open spec fn spec_file_name(s: Seq<char>) -> Seq<char> {
    let lb = last_backslash(s);
    if lb < 0 {
        s
    } else {
        s.subrange(lb + 1, s.len() as int)
    }
}

/// Return the file-name part of an entry's internal path, dropping the
/// directory components before the last backslash.
pub fn file_name_of_path(path: &str) -> (r: String)
    ensures
        r@ == spec_file_name(path@),
{
    let n = path.unicode_len();
    let mut lb: usize = 0;
    let mut found = false;
    let mut i: usize = 0;
    while i < n
        invariant
            n == path@.len(),
            0 <= i <= n,
            found ==> lb < i && last_backslash(path@.take(i as int)) == lb,
            !found ==> last_backslash(path@.take(i as int)) == -1,
        decreases n - i,
    {
        proof {
            assert(path@.take(i + 1).drop_last() =~= path@.take(i as int));
        }
        let c = path.get_char(i);
        if c == '\\' {
            lb = i;
            found = true;
        }
        i = i + 1;
    }
    proof {
        assert(path@.take(n as int) =~= path@);
    }
    if found {
        path.substring_char(lb + 1, n).to_owned()
    } else {
        proof {
            assert(path@.subrange(0, n as int) =~= path@);
        }
        path.substring_char(0, n).to_owned()
    }
}

/// Copy one entry's payload out of the binder bytes.
///
/// The info must carry a resolved internal path (a missing path is a
/// naming failure that skips the entry, never the batch); an
/// out-of-bounds range is a fatal parse error.
pub fn entry_data(file_info: &BndFileInfo, bnd_data: &[u8]) -> (r: Result<Vec<u8>, UnpackError>)
    ensures
        match r {
            Ok(v) => file_info.path is Some && file_info.ofs_data + file_info.size
                <= bnd_data@.len() && v@ == bnd_data@.subrange(
                file_info.ofs_data as int,
                file_info.ofs_data + file_info.size,
            ),
            Err(e) => match e {
                UnpackError::Naming(_) => file_info.path is None,
                UnpackError::Parsing(_) => file_info.path is Some && file_info.ofs_data
                    + file_info.size > bnd_data@.len(),
                _ => false,
            },
        },
{
    if file_info.path.is_none() {
        return Err(UnpackError::Naming("No path for BND entry.".to_owned()));
    }
    let n = bnd_data.len();
    if file_info.ofs_data as u64 + file_info.size as u64 > n as u64 {
        return Err(UnpackError::parsing_err("BND", "entry data out of bounds"));
    }
    let start = file_info.ofs_data as usize;
    let end = start + file_info.size as usize;
    Ok(subrange_vec(bnd_data, start, end))
}

/// Load a BND file from a byte slice.
pub fn load_bnd(bnd_data: &[u8]) -> (r: Result<Bnd, UnpackError>)
    ensures
        match r {
            Ok(bnd) => spec_wf(bnd_data@) && bnd.parsed_from(bnd_data@),
            Err(e) => !spec_wf(bnd_data@) && e matches UnpackError::Parsing(_),
        },
{
    parse(bnd_data)
}

} // verus!
