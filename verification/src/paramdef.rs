//! Schema format (PARAMDEF): an ordered list of typed field descriptors.
//! The header's format version gates whether a fields-table offset is
//! present, whether description offsets are 32 or 64-bit, and whether
//! per-field internal names exist; a field's bit width is encoded
//! textually in its internal name after a trailing colon.
use vstd::prelude::*;

verus! {

use crate::common::VarSizeInt;
use crate::common::cstr_at;
use crate::common::read_u16;
use crate::common::read_u32;
use crate::common::read_u64;
use crate::common::read_u8;
use crate::common::sjis_lossy_of;
use crate::common::sjis_to_string_lossy;
use crate::common::take_cstring;
use crate::common::take_cstring_from;
use crate::common::u16_at;
use crate::common::u32_at;
use crate::common::u64_at;
use crate::common::utf8_lossy_of;
use crate::common::utf8_to_string_lossy;
use crate::errors::UnpackError;

/// PARAMDEF header.
#[derive(Debug)]
pub struct ParamdefHeader {
    pub file_size: u32,
    pub header_size: u16,
    pub data_version: u16,
    pub num_fields: u16,
    pub field_size: u16,
    pub param_name: String,
    pub endianness: u8,
    pub unicode: u8,
    pub format_version: u16,
    pub ofs_fields: u64,
}

/// Whether the stored endianness byte selects big-endian fields.
pub open spec fn spec_use_be(endianness: u8) -> bool {
    endianness == 0xFF
}

/// Whether this format version stores an explicit fields-table offset.
pub open spec fn spec_has_ofs_fields(format_version: u16) -> bool {
    format_version >= 201
}

impl ParamdefHeader {
    /// Whether multi-byte fields are big-endian.
    pub fn use_be(&self) -> (r: bool)
        ensures
            r == spec_use_be(self.endianness),
    {
        self.endianness == 0xFF
    }

    /// Whether the field table is located by an explicit offset rather
    /// than following the header directly.
    pub fn has_ofs_fields(&self) -> (r: bool)
        ensures
            r == spec_has_ofs_fields(self.format_version),
    {
        self.format_version >= 201
    }

    /// Whether per-field description offsets are 64-bit.
    pub fn has_64b_ofs_desc(&self) -> (r: bool)
        ensures
            r == (self.format_version >= 201),
    {
        self.format_version >= 201
    }

    /// Whether fields can carry a bit-packed width in their internal
    /// name.
    pub fn can_have_bit_size(&self) -> (r: bool)
        ensures
            r == (self.format_version >= 102),
    {
        self.format_version >= 102
    }
}

/// One field descriptor. The four value parameters are kept as the raw
/// 32-bit patterns of the stored floats: they are purely descriptive and
/// never structurally load-bearing.
#[derive(Debug)]
pub struct ParamdefField {
    pub display_name: String,
    pub display_type: String,
    pub display_format: String,
    pub default_value: u32,
    pub min_value: u32,
    pub max_value: u32,
    pub increment: u32,
    pub edit_flags: u32,
    pub byte_count: u32,
    pub ofs_desc: VarSizeInt,
    pub internal_type: String,
    pub internal_name: Option<String>,
    pub sort_id: u32,
    pub description: Option<String>,
}

// --- The bit width encoded in the internal name ---

/// The index of the last colon in the text, or -1 when there is none.
pub open spec fn last_colon(s: Seq<char>) -> int
    decreases s.len(),
{
    if s.len() == 0 {
        -1
    } else if s.last() == ':' {
        s.len() - 1
    } else {
        last_colon(s.drop_last())
    }
}

/// Whether the character is a decimal digit.
pub open spec fn is_digit(c: char) -> bool {
    48 <= c as u32 <= 57
}

/// The decimal value of a digit string.
pub open spec fn dec_val(s: Seq<char>) -> int
    decreases s.len(),
{
    if s.len() == 0 {
        0
    } else {
        dec_val(s.drop_last()) * 10 + (s.last() as u32 - 48)
    }
}

/// Whether the character is Unicode whitespace: the White_Space set
/// that a string trim removes.
pub open spec fn is_ws(c: char) -> bool {
    let u = c as u32;
    (9 <= u <= 13) || u == 0x20 || u == 0x85 || u == 0xA0 || u == 0x1680 || (0x2000 <= u
        <= 0x200A) || u == 0x2028 || u == 0x2029 || u == 0x202F || u == 0x205F || u == 0x3000
}

/// A text with its trailing whitespace removed.
pub open spec fn trim_back(s: Seq<char>) -> Seq<char>
    decreases s.len(),
{
    if s.len() > 0 && is_ws(s.last()) {
        trim_back(s.drop_last())
    } else {
        s
    }
}

/// A text with its leading whitespace removed.
pub open spec fn trim_front(s: Seq<char>) -> Seq<char>
    decreases s.len(),
{
    if s.len() > 0 && is_ws(s.first()) {
        trim_front(s.drop_first())
    } else {
        s
    }
}

/// A text with whitespace removed from both ends.
pub open spec fn trim_ws(s: Seq<char>) -> Seq<char> {
    trim_front(trim_back(s))
}

/// A text past its optional single leading plus sign: what a decimal
/// parse of an unsigned machine integer accepts before the digits.
pub open spec fn sign_stripped(s: Seq<char>) -> Seq<char> {
    if s.len() > 0 && s.first() == '+' {
        s.drop_first()
    } else {
        s
    }
}

/// The bit width encoded in a field's internal name: the text after the
/// last colon, trimmed of whitespace, read as a decimal count; zero when
/// there is no colon or the suffix is not a (machine-sized) number.
pub open spec fn spec_bit_size_of(s: Seq<char>) -> int {
    let lc = last_colon(s);
    if lc < 0 {
        0
    } else {
        let digits = sign_stripped(trim_ws(s.subrange(lc + 1, s.len() as int)));
        if digits.len() > 0 && (forall|i: int|
            0 <= i < digits.len() ==> is_digit(#[trigger] digits[i])) && dec_val(digits)
            <= usize::MAX {
            dec_val(digits)
        } else {
            0
        }
    }
}

/// A whitespace tail scan lands exactly where `trim_back` stops.
proof fn lemma_trim_back_scan(s: Seq<char>, e: int)
    requires
        0 <= e <= s.len(),
        forall|i: int| e <= i < s.len() ==> is_ws(#[trigger] s[i]),
        e > 0 ==> !is_ws(s[e - 1]),
    ensures
        trim_back(s) == s.subrange(0, e),
    decreases s.len(),
{
    if e == s.len() {
        assert(s.subrange(0, e) =~= s);
    } else {
        lemma_trim_back_scan(s.drop_last(), e);
        assert(s.drop_last().subrange(0, e) =~= s.subrange(0, e));
    }
}

/// A whitespace head scan lands exactly where `trim_front` stops.
proof fn lemma_trim_front_scan(s: Seq<char>, t: int)
    requires
        0 <= t <= s.len(),
        forall|i: int| 0 <= i < t ==> is_ws(#[trigger] s[i]),
        t < s.len() ==> !is_ws(s[t]),
    ensures
        trim_front(s) == s.subrange(t, s.len() as int),
    decreases t,
{
    if t == 0 {
        assert(s.subrange(0, s.len() as int) =~= s);
    } else {
        lemma_trim_front_scan(s.drop_first(), t - 1);
        assert(s.drop_first().subrange(t - 1, s.drop_first().len() as int) =~= s.subrange(
            t,
            s.len() as int,
        ));
    }
}

/// Whether the character is Unicode whitespace.
fn is_ws_char(c: char) -> (r: bool)
    ensures
        r == is_ws(c),
{
    let u = c as u32;
    (u >= 9 && u <= 13) || u == 0x20 || u == 0x85 || u == 0xA0 || u == 0x1680 || (u >= 0x2000
        && u <= 0x200A) || u == 0x2028 || u == 0x2029 || u == 0x202F || u == 0x205F || u
        == 0x3000
}

/// The bit width of a field, from its internal name.
pub open spec fn spec_bit_size(f: ParamdefField) -> int {
    match f.internal_name {
        Some(name) => spec_bit_size_of(name@),
        None => 0,
    }
}

/// Digit strings only grow in value as digits are appended.
proof fn lemma_dec_val_mono(s: Seq<char>, m: int)
    requires
        0 <= m <= s.len(),
        forall|i: int| 0 <= i < s.len() ==> is_digit(#[trigger] s[i]),
    ensures
        dec_val(s.take(m)) <= dec_val(s),
    decreases s.len() - m,
{
    if m < s.len() {
        lemma_dec_val_mono(s, m + 1);
        assert(s.take(m + 1).drop_last() =~= s.take(m));
        assert(dec_val(s.take(m + 1)) == dec_val(s.take(m)) * 10 + (s[m] as u32 - 48));
        assert(dec_val(s.take(m)) >= 0) by {
            lemma_dec_val_nonneg(s.take(m));
        }
    } else {
        assert(s.take(m) =~= s);
    }
}

/// A digit string's value is never negative.
proof fn lemma_dec_val_nonneg(s: Seq<char>)
    ensures
        dec_val(s) >= 0 || exists|i: int| 0 <= i < s.len() && !is_digit(#[trigger] s[i]),
    decreases s.len(),
{
    if s.len() > 0 {
        lemma_dec_val_nonneg(s.drop_last());
        if is_digit(s.last()) {
            if dec_val(s.drop_last()) >= 0 {
            } else {
                let i = choose|i: int|
                    0 <= i < s.drop_last().len() && !is_digit(#[trigger] s.drop_last()[i]);
                assert(s[i] == s.drop_last()[i]);
            }
        }
    }
}

impl ParamdefField {
    /// Return the bit width for this field, or 0 when it is not
    /// bit-packed. It is parsed out of the internal name, after the
    /// trailing colon separator.
    pub fn bit_size(&self) -> (r: usize)
        ensures
            r == spec_bit_size(*self),
    {
        let name = match &self.internal_name {
            Some(name) => name,
            None => {
                return 0;
            },
        };
        let s = name.as_str();
        let n = s.unicode_len();

        let mut lc: usize = 0;
        let mut found = false;
        let mut i: usize = 0;
        while i < n
            invariant
                n == s@.len(),
                0 <= i <= n,
                found ==> lc < i && last_colon(s@.take(i as int)) == lc,
                !found ==> last_colon(s@.take(i as int)) == -1,
            decreases n - i,
        {
            proof {
                assert(s@.take(i + 1).drop_last() =~= s@.take(i as int));
            }
            let c = s.get_char(i);
            if c == ':' {
                lc = i;
                found = true;
            }
            i = i + 1;
        }
        proof {
            assert(s@.take(n as int) =~= s@);
        }
        if !found {
            return 0;
        }

        let ghost suf = s@.subrange(lc + 1, n as int);
        let mut e: usize = n;
        while e > lc + 1 && is_ws_char(s.get_char(e - 1))
            invariant
                n == s@.len(),
                0 <= lc < n,
                lc + 1 <= e <= n,
                forall|i: int| e <= i < n ==> is_ws(#[trigger] s@[i]),
            decreases e,
        {
            e = e - 1;
        }
        let mut t: usize = lc + 1;
        while t < e && is_ws_char(s.get_char(t))
            invariant
                n == s@.len(),
                0 <= lc < n,
                lc + 1 <= t <= e <= n,
                forall|i: int| lc + 1 <= i < t ==> is_ws(#[trigger] s@[i]),
            decreases e - t,
        {
            t = t + 1;
        }
        proof {
            lemma_trim_back_scan(suf, e - lc - 1);
            assert(suf.subrange(0, e - lc - 1) =~= s@.subrange(lc + 1, e as int));
            lemma_trim_front_scan(s@.subrange(lc + 1, e as int), t - lc - 1);
            assert(s@.subrange(lc + 1, e as int).subrange(t - lc - 1, e - lc - 1)
                =~= s@.subrange(t as int, e as int));
            assert(trim_ws(suf) == s@.subrange(t as int, e as int));
        }
        if t == e {
            return 0;
        }
        let mut start: usize = t;
        if s.get_char(t) == '+' {
            start = t + 1;
        }
        let ghost digits = sign_stripped(trim_ws(suf));
        proof {
            assert(digits =~= s@.subrange(start as int, e as int));
            assert(digits == s@.subrange(start as int, e as int));
        }
        if start == e {
            return 0;
        }

        let mut val: usize = 0;
        let mut i: usize = start;
        while i < e
            invariant
                n == s@.len(),
                self.internal_name matches Some(nm) && nm@ == s@,
                last_colon(s@) == lc,
                0 <= lc,
                lc + 1 <= t <= start <= i <= e <= n,
                start < e,
                digits == sign_stripped(trim_ws(s@.subrange(lc + 1, n as int))),
                digits == s@.subrange(start as int, e as int),
                forall|j: int| 0 <= j < i - start ==> is_digit(#[trigger] digits[j]),
                val == dec_val(digits.take(i - start)),
            decreases e - i,
        {
            let c = s.get_char(i);
            let d = c as u32;
            if d < 48 || d > 57 {
                proof {
                    assert(!is_digit(digits[i - start]));
                }
                return 0;
            }
            let dv = (d - 48) as usize;
            if val > (usize::MAX - dv) / 10 {
                proof {
                    assert(digits.take(i - start + 1).drop_last() =~= digits.take(i - start));
                    assert(dec_val(digits.take(i - start + 1)) == val * 10 + dv);
                    assert(val * 10 + dv > usize::MAX) by (nonlinear_arith)
                        requires
                            val > (usize::MAX - dv) / 10,
                            0 <= dv <= 9,
                    ;
                    if forall|j: int| 0 <= j < digits.len() ==> is_digit(#[trigger] digits[j]) {
                        lemma_dec_val_mono(digits, i - start + 1);
                    }
                }
                return 0;
            }
            proof {
                assert(digits.take(i - start + 1).drop_last() =~= digits.take(i - start));
                assert(val * 10 + dv <= usize::MAX) by (nonlinear_arith)
                    requires
                        val <= (usize::MAX - dv) / 10,
                        0 <= dv <= 9,
                ;
            }
            val = val * 10 + dv;
            i = i + 1;
        }
        proof {
            assert(digits.take(e - start) =~= digits);
        }
        val
    }
}

/// A parsed PARAMDEF schema.
#[derive(Debug)]
pub struct Paramdef {
    pub header: ParamdefHeader,
    pub fields: Vec<ParamdefField>,
}

// --- Spec layout ---

/// Whether the buffer's fields are big-endian.
pub open spec fn spec_buf_be(b: Seq<u8>) -> bool {
    b[0x2C] == 0xFF
}

/// The buffer's format version.
pub open spec fn spec_buf_fv(b: Seq<u8>) -> u16 {
    u16_at(b, 0x2E, spec_buf_be(b))
}

/// The buffer's field count.
pub open spec fn spec_buf_num(b: Seq<u8>) -> int {
    u16_at(b, 8, spec_buf_be(b)) as int
}

/// The byte size of one field record under this format version.
pub open spec fn spec_field_size(fv: u16) -> int {
    0x68 + (if fv >= 201 {
        8int
    } else {
        4int
    }) + 0x20 + (if fv >= 102 {
        0x20int
    } else {
        0int
    }) + (if fv >= 104 {
        4int
    } else {
        0int
    })
}

/// Where the field table starts: at the stored offset for new formats,
/// directly after the header otherwise.
pub open spec fn spec_fields_start(b: Seq<u8>) -> int {
    if spec_has_ofs_fields(spec_buf_fv(b)) {
        u64_at(b, 0x30, spec_buf_be(b)) as int
    } else {
        0x30
    }
}

/// The description offset stored in the field record at `p`.
pub open spec fn spec_ofs_desc(b: Seq<u8>, p: int) -> int {
    if spec_buf_fv(b) >= 201 {
        u64_at(b, p + 0x68, spec_buf_be(b)) as int
    } else {
        u32_at(b, p + 0x68, spec_buf_be(b)) as int
    }
}

/// A buffer is a well-formed PARAMDEF when the header, the whole field
/// table and every nonzero description offset are in bounds.
pub open spec fn spec_wf(b: Seq<u8>) -> bool {
    let fv = spec_buf_fv(b);
    let start = spec_fields_start(b);
    let num = spec_buf_num(b);
    &&& b.len() >= 0x30
    &&& (spec_has_ofs_fields(fv) ==> b.len() >= 0x38)
    &&& start >= 0
    &&& start + num * spec_field_size(fv) <= b.len()
    &&& forall|k: int|
        0 <= k < num ==> spec_ofs_desc(b, start + #[trigger] (k * spec_field_size(fv)))
            <= b.len()
}

/// One field descriptor parsed from offset `p`.
pub open spec fn field_parsed_from(f: ParamdefField, b: Seq<u8>, p: int) -> bool {
    let be = spec_buf_be(b);
    let fv = spec_buf_fv(b);
    let dsz: int = if fv >= 201 {
        8
    } else {
        4
    };
    &&& f.display_name@ == sjis_lossy_of(cstr_at(b, p))
    &&& f.display_type@ == sjis_lossy_of(cstr_at(b, p + 0x40))
    &&& f.display_format@ == sjis_lossy_of(cstr_at(b, p + 0x48))
    &&& f.default_value == u32_at(b, p + 0x50, be)
    &&& f.min_value == u32_at(b, p + 0x54, be)
    &&& f.max_value == u32_at(b, p + 0x58, be)
    &&& f.increment == u32_at(b, p + 0x5C, be)
    &&& f.edit_flags == u32_at(b, p + 0x60, be)
    &&& f.byte_count == u32_at(b, p + 0x64, be)
    &&& (if fv >= 201 {
        f.ofs_desc matches VarSizeInt::U64(v) && v == u64_at(b, p + 0x68, be)
    } else {
        f.ofs_desc matches VarSizeInt::U32(v) && v == u32_at(b, p + 0x68, be)
    })
    &&& f.internal_type@ == sjis_lossy_of(cstr_at(b, p + 0x68 + dsz))
    &&& (if fv >= 102 {
        f.internal_name matches Some(s) && s@ == sjis_lossy_of(cstr_at(b, p + 0x88 + dsz))
    } else {
        f.internal_name is None
    })
    &&& f.sort_id == (if fv >= 104 {
        u32_at(
            b,
            p + 0x88 + dsz + (if fv >= 102 {
                0x20int
            } else {
                0int
            }),
            be,
        )
    } else {
        0
    })
    &&& (if spec_ofs_desc(b, p) == 0 {
        f.description is None
    } else {
        f.description matches Some(d) && d@ == sjis_lossy_of(cstr_at(b, spec_ofs_desc(b, p)))
    })
}

impl Paramdef {
    /// The parse below fills the header and every field descriptor,
    /// resolving nonzero description offsets eagerly.
    pub open spec fn parsed_from(self, b: Seq<u8>) -> bool {
        let be = spec_buf_be(b);
        let fv = spec_buf_fv(b);
        &&& self.header.file_size == u32_at(b, 0, be)
        &&& self.header.header_size == u16_at(b, 4, be)
        &&& self.header.data_version == u16_at(b, 6, be)
        &&& self.header.num_fields == u16_at(b, 8, be)
        &&& self.header.field_size == u16_at(b, 0xA, be)
        &&& self.header.param_name@ == utf8_lossy_of(cstr_at(b, 0xC))
        &&& self.header.endianness == b[0x2C]
        &&& self.header.unicode == b[0x2D]
        &&& self.header.format_version == fv
        &&& self.header.ofs_fields == (if spec_has_ofs_fields(fv) {
            u64_at(b, 0x30, be)
        } else {
            0
        })
        &&& self.fields@.len() == spec_buf_num(b)
        &&& forall|k: int|
            0 <= k < spec_buf_num(b) ==> field_parsed_from(
                #[trigger] self.fields@[k],
                b,
                spec_fields_start(b) + k * spec_field_size(fv),
            )
    }
}

/// Parse a PARAMDEF schema.
///
/// Returns the fully resolved structure exactly when the buffer is
/// well-formed; truncation, an out-of-bounds field table or an
/// out-of-bounds description offset is a fatal parse error.
#[verifier::rlimit(100)]
pub fn parse(i: &[u8]) -> (r: Result<Paramdef, UnpackError>)
    ensures
        match r {
            Ok(def) => spec_wf(i@) && def.parsed_from(i@),
            Err(e) => !spec_wf(i@) && e matches UnpackError::Parsing(_),
        },
{
    let n = i.len();
    if n < 0x30 {
        return Err(UnpackError::parsing_err("PARAMDEF", "truncated header"));
    }
    let endianness = read_u8(i, 0x2C);
    let be = endianness == 0xFF;
    let format_version = read_u16(i, 0x2E, be);
    let has_ofs = format_version >= 201;
    if has_ofs && n < 0x38 {
        return Err(UnpackError::parsing_err("PARAMDEF", "truncated header"));
    }
    let (name_bytes, _) = take_cstring_from(i, 0xC, 0x20);
    let header = ParamdefHeader {
        file_size: read_u32(i, 0, be),
        header_size: read_u16(i, 4, be),
        data_version: read_u16(i, 6, be),
        num_fields: read_u16(i, 8, be),
        field_size: read_u16(i, 0xA, be),
        param_name: utf8_to_string_lossy(name_bytes.as_slice()),
        endianness,
        unicode: read_u8(i, 0x2D),
        format_version,
        ofs_fields: if has_ofs {
            read_u64(i, 0x30, be)
        } else {
            0
        },
    };

    let fsize: usize = 0x68 + (if has_ofs {
        8usize
    } else {
        4usize
    }) + 0x20 + (if format_version >= 102 {
        0x20usize
    } else {
        0usize
    }) + (if format_version >= 104 {
        4usize
    } else {
        0usize
    });
    let dsz: usize = if has_ofs {
        8
    } else {
        4
    };
    let start64: u64 = if has_ofs {
        header.ofs_fields
    } else {
        0x30
    };
    let num = header.num_fields as usize;
    proof {
        vstd::arithmetic::mul::lemma_mul_upper_bound(num as int, 0xFFFF, fsize as int, 0xB4);
    }
    if start64 > n as u64 || (num as u64) * (fsize as u64) > n as u64 - start64 {
        return Err(UnpackError::parsing_err("PARAMDEF", "field table out of bounds"));
    }
    let start = start64 as usize;

    let mut fields: Vec<ParamdefField> = Vec::new();
    let mut k: usize = 0;
    while k < num
        invariant
            n == i@.len() <= usize::MAX,
            n >= 0x30,
            be == spec_buf_be(i@),
            format_version == spec_buf_fv(i@),
            has_ofs == (format_version >= 201),
            num == spec_buf_num(i@),
            fsize == spec_field_size(format_version),
            dsz == (if has_ofs {
                8int
            } else {
                4int
            }),
            start == spec_fields_start(i@),
            start + num * fsize <= n,
            0 <= k <= num,
            fields@.len() == k,
            forall|j: int|
                0 <= j < k ==> field_parsed_from(
                    #[trigger] fields@[j],
                    i@,
                    start + j * fsize,
                ),
            forall|j: int| 0 <= j < k ==> spec_ofs_desc(i@, start + #[trigger] (j * fsize)) <= n,
        decreases num - k,
    {
        proof {
            vstd::arithmetic::mul::lemma_mul_inequality(k as int, num as int, fsize as int);
        }
        let p = start + k * fsize;
        proof {
            assert(p + fsize <= n) by (nonlinear_arith)
                requires
                    start + num * fsize <= n,
                    p == start + k * fsize,
                    0 <= k < num,
            ;
        }
        let (dn_bytes, _) = take_cstring_from(i, p, 0x40);
        let (dt_bytes, _) = take_cstring_from(i, p + 0x40, 0x8);
        let (df_bytes, _) = take_cstring_from(i, p + 0x48, 0x8);
        let default_value = read_u32(i, p + 0x50, be);
        let min_value = read_u32(i, p + 0x54, be);
        let max_value = read_u32(i, p + 0x58, be);
        let increment = read_u32(i, p + 0x5C, be);
        let edit_flags = read_u32(i, p + 0x60, be);
        let byte_count = read_u32(i, p + 0x64, be);
        let (ofs_desc, desc64) = if has_ofs {
            let v = read_u64(i, p + 0x68, be);
            (VarSizeInt::U64(v), v)
        } else {
            let v = read_u32(i, p + 0x68, be);
            (VarSizeInt::U32(v), v as u64)
        };
        let (it_bytes, _) = take_cstring_from(i, p + 0x68 + dsz, 0x20);
        let internal_name: Option<String> = if format_version >= 102 {
            let (in_bytes, _) = take_cstring_from(i, p + 0x88 + dsz, 0x20);
            Some(sjis_to_string_lossy(in_bytes.as_slice()))
        } else {
            None
        };
        let sort_id = if format_version >= 104 {
            read_u32(
                i,
                p + 0x88 + dsz + (if format_version >= 102 {
                    0x20usize
                } else {
                    0usize
                }),
                be,
            )
        } else {
            0
        };

        let description: Option<String> = if desc64 == 0 {
            None
        } else {
            if desc64 > n as u64 {
                return Err(UnpackError::parsing_err("PARAMDEF", "description offset out of bounds"));
            }
            let desc_bytes = take_cstring(i, desc64 as usize);
            Some(sjis_to_string_lossy(desc_bytes.as_slice()))
        };

        fields.push(
            ParamdefField {
                display_name: sjis_to_string_lossy(dn_bytes.as_slice()),
                display_type: sjis_to_string_lossy(dt_bytes.as_slice()),
                display_format: sjis_to_string_lossy(df_bytes.as_slice()),
                default_value,
                min_value,
                max_value,
                increment,
                edit_flags,
                byte_count,
                ofs_desc,
                internal_type: sjis_to_string_lossy(it_bytes.as_slice()),
                internal_name,
                sort_id,
                description,
            },
        );
        k = k + 1;
    }

    Ok(Paramdef { header, fields })
}


/// Load a PARAMDEF from a byte slice.
pub fn load_paramdef(paramdef_data: &[u8]) -> (r: Result<Paramdef, UnpackError>)
    ensures
        match r {
            Ok(def) => spec_wf(paramdef_data@) && def.parsed_from(paramdef_data@),
            Err(e) => !spec_wf(paramdef_data@) && e matches UnpackError::Parsing(_),
        },
{
    parse(paramdef_data)
}

} // verus!
