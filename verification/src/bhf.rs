//! Sequential binder header file (BHF3): the same flag-gated file-info
//! table as BND3, but paired with a separate data file (BDT) that holds
//! the payload bytes.
use vstd::prelude::*;

verus! {

use crate::bnd::BinderOptions;
use crate::bnd::FORMAT_HAS_ID;
use crate::bnd::FORMAT_HAS_NAME1;
use crate::bnd::FORMAT_HAS_NAME2;
use crate::bnd::FORMAT_HAS_UNCOMP_SIZE;
use crate::bnd::FORMAT_BE;
use crate::bnd::fhas;
use crate::bnd::path_resolved;
use crate::bnd::spec_format;
use crate::bnd::spec_has_paths;
use crate::bnd::spec_info_id;
use crate::bnd::spec_info_ofs_path;
use crate::bnd::spec_info_size;
use crate::bnd::spec_info_uncomp;
use crate::bnd::spec_use_be;
use crate::bnd::use_be;
use crate::common::read_u32;
use crate::common::read_u8;
use crate::common::sjis_to_string;
use crate::common::subrange_vec;
use crate::common::take_cstring;
use crate::common::u32_at;
use crate::errors::UnpackError;

/// BHF3 header. The single endianness byte doubles as the bit-endianness
/// flag when resolving the format byte.
#[derive(Debug)]
pub struct BhfHeader {
    pub magic: Vec<u8>,
    pub version: Vec<u8>,
    pub raw_format: u8,
    pub endianness: u8,
    pub unk0e: u8,
    pub unk0f: u8,
    pub num_files: u32,
    pub unk14: u32,
    pub unk18: u32,
    pub unk1c: u32,
}

impl BinderOptions for BhfHeader {
    open spec fn format_spec(&self) -> u8 {
        spec_format(self.endianness, self.raw_format)
    }

    open spec fn use_be_spec(&self) -> bool {
        spec_use_be(self.endianness, self.format_spec())
    }

    /// See the `bnd::format` function.
    fn format(&self) -> (r: u8) {
        crate::bnd::format(self.endianness, self.raw_format)
    }

    /// See the `bnd::use_be` function.
    fn use_be(&self) -> (r: bool) {
        use_be(self.endianness, self.format())
    }

    fn has_ids(&self) -> (r: bool) {
        self.format() & FORMAT_HAS_ID == FORMAT_HAS_ID
    }

    fn has_paths(&self) -> (r: bool) {
        let f = self.format();
        f & FORMAT_HAS_NAME1 == FORMAT_HAS_NAME1 || f & FORMAT_HAS_NAME2 == FORMAT_HAS_NAME2
    }

    fn has_uncomp_size(&self) -> (r: bool) {
        self.format() & FORMAT_HAS_UNCOMP_SIZE == FORMAT_HAS_UNCOMP_SIZE
    }
}

/// One file-info record of a BHF3; the layout matches the BND3 record.
#[derive(Debug)]
pub struct BhfFileInfo {
    pub unk00: u8,
    pub unk01: u8,
    pub unk02: u8,
    pub unk03: u8,
    pub size: u32,
    pub ofs_data: u32,
    pub id: u32,
    pub ofs_path: u32,
    pub uncompressed_size: u32,
    pub path: Option<String>,
}

/// The resolved format byte of the buffer's header.
pub open spec fn spec_buf_format(b: Seq<u8>) -> u8 {
    spec_format(b[0xD], b[0xC])
}

/// The resolved byte order of the buffer's header.
pub open spec fn spec_buf_be(b: Seq<u8>) -> bool {
    spec_use_be(b[0xD], spec_buf_format(b))
}

/// The number of file-info records the buffer's header declares.
pub open spec fn spec_buf_num_files(b: Seq<u8>) -> int {
    u32_at(b, 0x10, spec_buf_be(b)) as int
}

/// The byte offset of file-info record `k`.
pub open spec fn spec_info_pos(b: Seq<u8>, k: int) -> int {
    0x20 + k * spec_info_size(spec_buf_format(b))
}

/// A buffer is a well-formed BHF3 file when the magic matches, the whole
/// file-info table fits, and every present path offset stays in bounds.
pub open spec fn spec_wf(b: Seq<u8>) -> bool {
    &&& b.len() >= 0x20
    &&& b.subrange(0, 4) == seq![0x42u8, 0x48u8, 0x46u8, 0x33u8]
    &&& 0x20 + spec_buf_num_files(b) * spec_info_size(spec_buf_format(b)) <= b.len()
    &&& spec_has_paths(spec_buf_format(b)) ==> forall|k: int|
        0 <= k < spec_buf_num_files(b) ==> spec_info_ofs_path(
            b,
            #[trigger] spec_info_pos(b, k),
            spec_buf_format(b),
            spec_buf_be(b),
        ) <= b.len()
}

/// A parsed BHF3 binder header file.
#[derive(Debug)]
pub struct Bhf {
    pub header: BhfHeader,
    pub file_infos: Vec<BhfFileInfo>,
}

/// One record parsed from offset `p`, its path resolved when present.
pub open spec fn info_parsed_from(info: BhfFileInfo, b: Seq<u8>, p: int) -> bool {
    let fmt = spec_buf_format(b);
    let be = spec_buf_be(b);
    &&& info.unk00 == b[p]
    &&& info.unk01 == b[p + 1]
    &&& info.unk02 == b[p + 2]
    &&& info.unk03 == b[p + 3]
    &&& info.size == u32_at(b, p + 4, be)
    &&& info.ofs_data == u32_at(b, p + 8, be)
    &&& info.id == spec_info_id(b, p, fmt, be)
    &&& info.ofs_path == spec_info_ofs_path(b, p, fmt, be)
    &&& info.uncompressed_size == spec_info_uncomp(b, p, fmt, be)
    &&& if spec_has_paths(fmt) {
        path_resolved(info.path, b, spec_info_ofs_path(b, p, fmt, be) as int)
    } else {
        info.path is None
    }
}

impl Bhf {
    /// The parse below fills the header from the fixed offsets and every
    /// record from its flag-dependent layout.
    pub open spec fn parsed_from(self, b: Seq<u8>) -> bool {
        let be = spec_buf_be(b);
        &&& self.header.magic@ == b.subrange(0, 4)
        &&& self.header.version@ == b.subrange(4, 0xC)
        &&& self.header.raw_format == b[0xC]
        &&& self.header.endianness == b[0xD]
        &&& self.header.unk0e == b[0xE]
        &&& self.header.unk0f == b[0xF]
        &&& self.header.num_files == u32_at(b, 0x10, be)
        &&& self.header.unk14 == u32_at(b, 0x14, be)
        &&& self.header.unk18 == u32_at(b, 0x18, be)
        &&& self.header.unk1c == u32_at(b, 0x1C, be)
        &&& self.file_infos@.len() == spec_buf_num_files(b)
        &&& forall|k: int|
            0 <= k < spec_buf_num_files(b) ==> info_parsed_from(
                #[trigger] self.file_infos@[k],
                b,
                spec_info_pos(b, k),
            )
    }
}

/// Parse a BHF3 binder header file.
///
/// Returns the fully resolved structure exactly when the buffer is
/// well-formed; truncation, bad magic or an out-of-bounds path offset is
/// a fatal parse error. A path that fails to decode is left absent and
/// does not abort the parse.
pub fn parse(i: &[u8]) -> (r: Result<Bhf, UnpackError>)
    ensures
        match r {
            Ok(bhf) => spec_wf(i@) && bhf.parsed_from(i@),
            Err(e) => !spec_wf(i@) && e matches UnpackError::Parsing(_),
        },
{
    let n = i.len();
    if n < 0x20 {
        return Err(UnpackError::parsing_err("BHF", "truncated header"));
    }
    if !(read_u8(i, 0) == 0x42 && read_u8(i, 1) == 0x48 && read_u8(i, 2) == 0x46 && read_u8(i, 3)
        == 0x33) {
        proof {
            assert(i@.subrange(0, 4) != seq![0x42u8, 0x48u8, 0x46u8, 0x33u8]);
        }
        return Err(UnpackError::parsing_err("BHF", "bad magic"));
    }
    proof {
        assert(i@.subrange(0, 4) =~= seq![0x42u8, 0x48u8, 0x46u8, 0x33u8]);
    }
    let raw_format = read_u8(i, 0xC);
    let endianness = read_u8(i, 0xD);
    let unk0e = read_u8(i, 0xE);
    let unk0f = read_u8(i, 0xF);
    let fmt = crate::bnd::format(endianness, raw_format);
    let be = use_be(endianness, fmt);
    let header = BhfHeader {
        magic: subrange_vec(i, 0, 4),
        version: subrange_vec(i, 4, 0xC),
        raw_format,
        endianness,
        unk0e,
        unk0f,
        num_files: read_u32(i, 0x10, be),
        unk14: read_u32(i, 0x14, be),
        unk18: read_u32(i, 0x18, be),
        unk1c: read_u32(i, 0x1C, be),
    };

    let has_id = fmt & FORMAT_HAS_ID == FORMAT_HAS_ID;
    let has_paths = fmt & FORMAT_HAS_NAME1 == FORMAT_HAS_NAME1 || fmt & FORMAT_HAS_NAME2
        == FORMAT_HAS_NAME2;
    let has_uncomp = fmt & FORMAT_HAS_UNCOMP_SIZE == FORMAT_HAS_UNCOMP_SIZE;
    let isz: usize = 12 + (if has_id {
        4usize
    } else {
        0usize
    }) + (if has_paths {
        4usize
    } else {
        0usize
    }) + (if has_uncomp {
        4usize
    } else {
        0usize
    });
    let num64 = header.num_files as u64;
    proof {
        vstd::arithmetic::mul::lemma_mul_upper_bound(num64 as int, 0xFFFF_FFFF, isz as int, 24);
    }
    if 0x20u64 + num64 * (isz as u64) > n as u64 {
        return Err(UnpackError::parsing_err("BHF", "file-info table out of bounds"));
    }
    let num = header.num_files as usize;

    let mut file_infos: Vec<BhfFileInfo> = Vec::new();
    let mut k: usize = 0;
    while k < num
        invariant
            n == i@.len() <= usize::MAX,
            n >= 0x20,
            fmt == spec_buf_format(i@),
            be == spec_buf_be(i@),
            num == spec_buf_num_files(i@),
            isz == spec_info_size(fmt),
            has_id == fhas(fmt, FORMAT_HAS_ID),
            has_paths == spec_has_paths(fmt),
            has_uncomp == fhas(fmt, FORMAT_HAS_UNCOMP_SIZE),
            0x20 + num * isz <= n,
            0 <= k <= num,
            file_infos@.len() == k,
            forall|j: int|
                0 <= j < k ==> info_parsed_from(
                    #[trigger] file_infos@[j],
                    i@,
                    spec_info_pos(i@, j),
                ),
            forall|j: int|
                0 <= j < k && has_paths ==> spec_info_ofs_path(
                    i@,
                    #[trigger] spec_info_pos(i@, j),
                    fmt,
                    be,
                ) <= n,
        decreases num - k,
    {
        proof {
            vstd::arithmetic::mul::lemma_mul_inequality(k as int, num as int, isz as int);
        }
        let p = 0x20 + k * isz;
        proof {
            assert(p == spec_info_pos(i@, k as int));
            assert(p + isz <= n) by (nonlinear_arith)
                requires
                    0x20 + num * isz <= n,
                    p == 0x20 + k * isz,
                    0 <= k < num,
            ;
        }
        let unk00 = read_u8(i, p);
        let unk01 = read_u8(i, p + 1);
        let unk02 = read_u8(i, p + 2);
        let unk03 = read_u8(i, p + 3);
        let size = read_u32(i, p + 4, be);
        let ofs_data = read_u32(i, p + 8, be);
        let mut cur = p + 12;
        let id = if has_id {
            let v = read_u32(i, cur, be);
            cur = cur + 4;
            v
        } else {
            0
        };
        let ofs_path = if has_paths {
            let v = read_u32(i, cur, be);
            cur = cur + 4;
            v
        } else {
            0
        };
        let uncompressed_size = if has_uncomp {
            read_u32(i, cur, be)
        } else {
            0
        };

        let path: Option<String> = if has_paths {
            if ofs_path as u64 > n as u64 {
                return Err(UnpackError::parsing_err("BHF", "path offset out of bounds"));
            }
            let sjis_path = take_cstring(i, ofs_path as usize);
            sjis_to_string(sjis_path.as_slice())
        } else {
            None
        };

        file_infos.push(
            BhfFileInfo {
                unk00,
                unk01,
                unk02,
                unk03,
                size,
                ofs_data,
                id,
                ofs_path,
                uncompressed_size,
                path,
            },
        );
        k = k + 1;
    }

    Ok(Bhf { header, file_infos })
}

/// Load a BHF file from a byte slice.
pub fn load_bhf(bhf_data: &[u8]) -> (r: Result<Bhf, UnpackError>)
    ensures
        match r {
            Ok(bhf) => spec_wf(bhf_data@) && bhf.parsed_from(bhf_data@),
            Err(e) => !spec_wf(bhf_data@) && e matches UnpackError::Parsing(_),
        },
{
    parse(bhf_data)
}


/// Copy one entry's payload out of the companion data-file bytes.
///
/// The info must carry a resolved internal path (a missing path is a
/// naming failure that skips the entry, never the batch); an
/// out-of-bounds range is a fatal parse error.
pub fn entry_data(file_info: &BhfFileInfo, bdt_data: &[u8]) -> (r: Result<Vec<u8>, UnpackError>)
    ensures
        match r {
            Ok(v) => file_info.path is Some && file_info.ofs_data + file_info.size
                <= bdt_data@.len() && v@ == bdt_data@.subrange(
                file_info.ofs_data as int,
                file_info.ofs_data + file_info.size,
            ),
            Err(e) => match e {
                UnpackError::Naming(_) => file_info.path is None,
                UnpackError::Parsing(_) => file_info.path is Some && file_info.ofs_data
                    + file_info.size > bdt_data@.len(),
                _ => false,
            },
        },
{
    if file_info.path.is_none() {
        return Err(UnpackError::Naming("No path for BHF entry.".to_owned()));
    }
    let n = bdt_data.len();
    if file_info.ofs_data as u64 + file_info.size as u64 > n as u64 {
        return Err(UnpackError::parsing_err("BHF", "entry data out of bounds"));
    }
    let start = file_info.ofs_data as usize;
    let end = start + file_info.size as usize;
    Ok(subrange_vec(bdt_data, start, end))
}


/// An extension text with its trailing "bhd" repetitions removed.
pub open spec fn strip_bhd_suffix(s: Seq<char>) -> Seq<char>
    decreases s.len(),
{
    if s.len() >= 3 && s[s.len() - 3] == 'b' && s[s.len() - 2] == 'h' && s[s.len() - 1] == 'd' {
        strip_bhd_suffix(s.subrange(0, s.len() - 3))
    } else {
        s
    }
}

/// Return the companion data-file extension for a binder-header
/// extension: the trailing "bhd" (however often it repeats) replaced
/// by "bdt". An extension that does not end in "bhd" gets "bdt"
/// appended whole.
pub fn bdt_extension(ext: &str) -> (r: String)
    ensures
        r@ == strip_bhd_suffix(ext@) + "bdt"@,
{
    let n = ext.unicode_len();
    proof {
        assert(ext@.subrange(0, n as int) =~= ext@);
    }
    let mut e: usize = n;
    while e >= 3 && ext.get_char(e - 3) == 'b' && ext.get_char(e - 2) == 'h' && ext.get_char(
        e - 1,
    ) == 'd'
        invariant
            n == ext@.len(),
            0 <= e <= n,
            strip_bhd_suffix(ext@) == strip_bhd_suffix(ext@.subrange(0, e as int)),
        decreases e,
    {
        proof {
            assert(ext@.subrange(0, e as int).subrange(0, e - 3) =~= ext@.subrange(0, e - 3));
        }
        e = e - 3;
    }
    proof {
        assert(strip_bhd_suffix(ext@.subrange(0, e as int)) == ext@.subrange(0, e as int));
    }
    let mut r = ext.substring_char(0, e).to_owned();
    r.append("bdt");
    r
}

} // verus!
