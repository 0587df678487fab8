//! Primitive byte-cursor utilities shared by every codec: endianness-aware
//! integer readers, null-terminated string extraction, and the serialization
//! trait for the writers.
use vstd::prelude::*;

verus! {

use vstd::slice::slice_subrange;
use vstd::slice::slice_to_vec;

// --- Spec views of fixed-width integers stored at a byte offset ---

/// The unsigned 16-bit value stored little-endian at offset `p` of `b`.
pub open spec fn u16_le(b: Seq<u8>, p: int) -> u16 {
    (b[p] + b[p + 1] * 0x100) as u16
}

/// The unsigned 16-bit value stored big-endian at offset `p` of `b`.
pub open spec fn u16_be(b: Seq<u8>, p: int) -> u16 {
    (b[p] * 0x100 + b[p + 1]) as u16
}

/// The unsigned 16-bit value at offset `p` of `b`, in the given byte order.
pub open spec fn u16_at(b: Seq<u8>, p: int, big: bool) -> u16 {
    if big {
        u16_be(b, p)
    } else {
        u16_le(b, p)
    }
}

/// The unsigned 32-bit value stored little-endian at offset `p` of `b`.
pub open spec fn u32_le(b: Seq<u8>, p: int) -> u32 {
    (b[p] + b[p + 1] * 0x100 + b[p + 2] * 0x1_0000 + b[p + 3] * 0x100_0000) as u32
}

/// The unsigned 32-bit value stored big-endian at offset `p` of `b`.
pub open spec fn u32_be(b: Seq<u8>, p: int) -> u32 {
    (b[p] * 0x100_0000 + b[p + 1] * 0x1_0000 + b[p + 2] * 0x100 + b[p + 3]) as u32
}

/// The unsigned 32-bit value at offset `p` of `b`, in the given byte order.
pub open spec fn u32_at(b: Seq<u8>, p: int, big: bool) -> u32 {
    if big {
        u32_be(b, p)
    } else {
        u32_le(b, p)
    }
}

/// The unsigned 64-bit value stored little-endian at offset `p` of `b`.
pub open spec fn u64_le(b: Seq<u8>, p: int) -> u64 {
    (u32_le(b, p) + u32_le(b, p + 4) * 0x1_0000_0000) as u64
}

/// The unsigned 64-bit value stored big-endian at offset `p` of `b`.
pub open spec fn u64_be(b: Seq<u8>, p: int) -> u64 {
    (u32_be(b, p) * 0x1_0000_0000 + u32_be(b, p + 4)) as u64
}

/// The unsigned 64-bit value at offset `p` of `b`, in the given byte order.
pub open spec fn u64_at(b: Seq<u8>, p: int, big: bool) -> u64 {
    if big {
        u64_be(b, p)
    } else {
        u64_le(b, p)
    }
}

/// The signed reading of a byte, in two's complement.
pub open spec fn signed8(v: u8) -> i8 {
    if v < 0x80 {
        v as i8
    } else {
        (v - 0x100) as i8
    }
}

/// The signed reading of a 16-bit value, in two's complement.
pub open spec fn signed16(v: u16) -> i16 {
    if v < 0x8000 {
        v as i16
    } else {
        (v - 0x1_0000) as i16
    }
}

/// The signed reading of a 32-bit value, in two's complement.
pub open spec fn signed32(v: u32) -> i32 {
    if v < 0x8000_0000 {
        v as i32
    } else {
        (v - 0x1_0000_0000) as i32
    }
}

// --- Exec readers ---

/// Read the byte at `pos`.
pub fn read_u8(b: &[u8], pos: usize) -> (r: u8)
    requires
        pos < b@.len(),
    ensures
        r == b@[pos as int],
{
    b[pos]
}

/// Read the byte at `pos` as a signed value.
pub fn read_i8(b: &[u8], pos: usize) -> (r: i8)
    requires
        pos < b@.len(),
    ensures
        r == signed8(b@[pos as int]),
{
    let v = b[pos];
    if v < 0x80 {
        v as i8
    } else {
        let neg: i32 = -(0x100i32 - v as i32);
        neg as i8
    }
}

/// Read the 16-bit integer at `pos`, big-endian when `big` is set.
pub fn read_u16(b: &[u8], pos: usize, big: bool) -> (r: u16)
    requires
        pos + 2 <= b@.len(),
    ensures
        r == u16_at(b@, pos as int, big),
{
    let b0 = b[pos] as u16;
    let b1 = b[pos + 1] as u16;
    if big {
        b0 * 0x100 + b1
    } else {
        b1 * 0x100 + b0
    }
}

/// Read the 32-bit integer at `pos`, big-endian when `big` is set.
pub fn read_u32(b: &[u8], pos: usize, big: bool) -> (r: u32)
    requires
        pos + 4 <= b@.len(),
    ensures
        r == u32_at(b@, pos as int, big),
{
    let b0 = b[pos] as u32;
    let b1 = b[pos + 1] as u32;
    let b2 = b[pos + 2] as u32;
    let b3 = b[pos + 3] as u32;
    if big {
        b0 * 0x100_0000 + b1 * 0x1_0000 + b2 * 0x100 + b3
    } else {
        b3 * 0x100_0000 + b2 * 0x1_0000 + b1 * 0x100 + b0
    }
}

/// Read the 64-bit integer at `pos`, big-endian when `big` is set.
pub fn read_u64(b: &[u8], pos: usize, big: bool) -> (r: u64)
    requires
        pos + 8 <= b@.len() <= usize::MAX,
    ensures
        r == u64_at(b@, pos as int, big),
{
    if big {
        let hi = read_u32(b, pos, true) as u64;
        let lo = read_u32(b, pos + 4, true) as u64;
        hi * 0x1_0000_0000 + lo
    } else {
        let lo = read_u32(b, pos, false) as u64;
        let hi = read_u32(b, pos + 4, false) as u64;
        hi * 0x1_0000_0000 + lo
    }
}

/// Reinterpret a 16-bit value as signed.
pub fn to_i16(v: u16) -> (r: i16)
    ensures
        r == signed16(v),
{
    if v < 0x8000 {
        v as i16
    } else {
        let neg: i32 = -(0x1_0000i32 - v as i32);
        neg as i16
    }
}

/// Reinterpret a 32-bit value as signed.
pub fn to_i32(v: u32) -> (r: i32)
    ensures
        r == signed32(v),
{
    if v < 0x8000_0000 {
        v as i32
    } else {
        let neg: i64 = -(0x1_0000_0000i64 - v as i64);
        neg as i32
    }
}

// --- Null-terminated strings ---

/// The number of bytes before the first NUL at or after `p`, or up to the
/// end of the buffer when no NUL follows.
pub open spec fn cstr_len(b: Seq<u8>, p: int) -> int
    decreases b.len() - p when 0 <= p <= b.len()
{
    if p < 0 || p >= b.len() || b[p] == 0 {
        0
    } else {
        1 + cstr_len(b, p + 1)
    }
}

/// The span of `cstr_len` is NUL-free and ends at a NUL or at the end of
/// the buffer.
pub proof fn lemma_cstr_len(b: Seq<u8>, p: int)
    requires
        0 <= p <= b.len(),
    ensures
        0 <= cstr_len(b, p),
        p + cstr_len(b, p) <= b.len(),
        forall|i: int| p <= i < p + cstr_len(b, p) ==> b[i] != 0,
        p + cstr_len(b, p) < b.len() ==> b[p + cstr_len(b, p)] == 0,
    decreases b.len() - p,
{
    if p < b.len() && b[p] != 0 {
        lemma_cstr_len(b, p + 1);
    }
}

/// The null-terminated span starting at `p`: the bytes before the first
/// NUL at or after `p`, or everything through the end of the buffer when
/// no NUL follows.
pub open spec fn cstr_at(b: Seq<u8>, p: int) -> Seq<u8> {
    b.subrange(p, p + cstr_len(b, p))
}

/// Scan from `pos` and return the span up to (not including) the first NUL,
/// or up to the end of the buffer when no NUL follows.
pub fn take_cstring(b: &[u8], pos: usize) -> (r: Vec<u8>)
    requires
        pos <= b@.len(),
    ensures
        r@ == b@.subrange(pos as int, pos + cstr_len(b@, pos as int)),
        r@.len() == cstr_len(b@, pos as int),
{
    proof {
        lemma_cstr_len(b@, pos as int);
    }
    let mut end = pos;
    while end < b.len() && b[end] != 0
        invariant
            pos <= end <= b@.len(),
            forall|i: int| pos <= i < end ==> b@[i] != 0,
        decreases b@.len() - end,
    {
        end = end + 1;
    }
    proof {
        lemma_cstr_scan_end(b@, pos as int, end as int);
    }
    slice_to_vec(slice_subrange(b, pos, end))
}

/// A NUL-free span that stops at a NUL or at the end of the buffer has
/// exactly the length `cstr_len` gives.
proof fn lemma_cstr_scan_end(b: Seq<u8>, p: int, e: int)
    requires
        0 <= p <= e <= b.len(),
        forall|i: int| p <= i < e ==> b[i] != 0,
        e == b.len() || b[e] == 0,
    ensures
        cstr_len(b, p) == e - p,
    decreases e - p,
{
    if p < e {
        lemma_cstr_scan_end(b, p + 1, e);
    }
}

/// Scan a null-terminated string at `pos` but advance the cursor by exactly
/// the `slot` width, whatever the terminator position, so trailing garbage
/// in the slot cannot shift subsequent fields.
pub fn take_cstring_from(b: &[u8], pos: usize, slot: usize) -> (r: (Vec<u8>, usize))
    requires
        pos + slot <= b@.len() <= usize::MAX,
    ensures
        r.0@ == b@.subrange(pos as int, pos + cstr_len(b@, pos as int)),
        r.1 == pos + slot,
{
    let s = take_cstring(b, pos);
    (s, pos + slot)
}

// --- Small byte helpers ---

/// Copy the bytes in `[from, to)` out of the buffer.
pub fn subrange_vec(b: &[u8], from: usize, to: usize) -> (r: Vec<u8>)
    requires
        from <= to <= b@.len(),
    ensures
        r@ == b@.subrange(from as int, to as int),
{
    slice_to_vec(slice_subrange(b, from, to))
}

/// Compare two byte strings for equality.
pub fn bytes_eq(a: &[u8], b: &[u8]) -> (r: bool)
    ensures
        r == (a@ == b@),
{
    if a.len() != b.len() {
        proof {
            assert(a@.len() != b@.len());
        }
        return false;
    }
    let n = a.len();
    let mut i: usize = 0;
    while i < n
        invariant
            0 <= i <= n,
            n == a@.len() && n == b@.len(),
            forall|j: int| 0 <= j < i ==> a@[j] == b@[j],
        decreases n - i,
    {
        if a[i] != b[i] {
            return false;
        }
        i = i + 1;
    }
    proof {
        assert(a@ =~= b@);
    }
    true
}



// --- Serialization of fixed-width integers ---

/// The four little-endian bytes of a 32-bit value.
pub open spec fn u32_le_bytes(v: u32) -> Seq<u8> {
    seq![
        (v % 0x100) as u8,
        ((v / 0x100) % 0x100) as u8,
        ((v / 0x1_0000) % 0x100) as u8,
        ((v / 0x100_0000) % 0x100) as u8,
    ]
}

/// The four big-endian bytes of a 32-bit value.
pub open spec fn u32_be_bytes(v: u32) -> Seq<u8> {
    seq![
        ((v / 0x100_0000) % 0x100) as u8,
        ((v / 0x1_0000) % 0x100) as u8,
        ((v / 0x100) % 0x100) as u8,
        (v % 0x100) as u8,
    ]
}

/// Append a 32-bit value as four little-endian bytes.
pub fn push_u32_le(out: &mut Vec<u8>, v: u32)
    ensures
        final(out)@ == old(out)@ + u32_le_bytes(v),
{
    out.push((v % 0x100) as u8);
    out.push((v / 0x100 % 0x100) as u8);
    out.push((v / 0x1_0000 % 0x100) as u8);
    out.push((v / 0x100_0000 % 0x100) as u8);
    proof {
        assert(out@ =~= old(out)@ + u32_le_bytes(v));
    }
}

/// Append a 32-bit value as four big-endian bytes.
pub fn push_u32_be(out: &mut Vec<u8>, v: u32)
    ensures
        final(out)@ == old(out)@ + u32_be_bytes(v),
{
    out.push((v / 0x100_0000 % 0x100) as u8);
    out.push((v / 0x1_0000 % 0x100) as u8);
    out.push((v / 0x100 % 0x100) as u8);
    out.push((v % 0x100) as u8);
    proof {
        assert(out@ =~= old(out)@ + u32_be_bytes(v));
    }
}

/// Serializing the little-endian value read at `p` reproduces the four
/// bytes it was read from.
pub proof fn lemma_u32_le_roundtrip(b: Seq<u8>, p: int)
    requires
        0 <= p,
        p + 4 <= b.len(),
    ensures
        u32_le_bytes(u32_le(b, p)) =~= b.subrange(p, p + 4),
{
    let b0 = b[p] as int;
    let b1 = b[p + 1] as int;
    let b2 = b[p + 2] as int;
    let b3 = b[p + 3] as int;
    let v = u32_le(b, p) as int;
    assert(v % 0x100 == b0 && v / 0x100 % 0x100 == b1 && v / 0x1_0000 % 0x100 == b2 && v
        / 0x100_0000 % 0x100 == b3) by (nonlinear_arith)
        requires
            v == b0 + b1 * 0x100 + b2 * 0x1_0000 + b3 * 0x100_0000,
            0 <= b0 < 0x100,
            0 <= b1 < 0x100,
            0 <= b2 < 0x100,
            0 <= b3 < 0x100,
    ;
}

/// Serializing the big-endian value read at `p` reproduces the four
/// bytes it was read from.
pub proof fn lemma_u32_be_roundtrip(b: Seq<u8>, p: int)
    requires
        0 <= p,
        p + 4 <= b.len(),
    ensures
        u32_be_bytes(u32_be(b, p)) =~= b.subrange(p, p + 4),
{
    let b0 = b[p] as int;
    let b1 = b[p + 1] as int;
    let b2 = b[p + 2] as int;
    let b3 = b[p + 3] as int;
    let v = u32_be(b, p) as int;
    assert(v % 0x100 == b3 && v / 0x100 % 0x100 == b2 && v / 0x1_0000 % 0x100 == b1 && v
        / 0x100_0000 % 0x100 == b0) by (nonlinear_arith)
        requires
            v == b3 + b2 * 0x100 + b1 * 0x1_0000 + b0 * 0x100_0000,
            0 <= b0 < 0x100,
            0 <= b1 < 0x100,
            0 <= b2 < 0x100,
            0 <= b3 < 0x100,
    ;
}

// --- Text decoding ---

/// What SHIFT_JIS decoding yields for a byte string: the decoded text, or
/// nothing when some byte sequence is malformed.
pub uninterp spec fn sjis_of(b: Seq<u8>) -> Option<Seq<char>>;

/// Decode a Shift JIS encoded byte slice, failing on any malformed
/// sequence rather than substituting replacement characters.
///
/// Relies on encoding_rs::SHIFT_JIS.decode: the decoded text and the
/// malformed-sequence report depend on the input bytes alone.
#[verifier::external_body]
pub fn sjis_to_string(i: &[u8]) -> (r: Option<String>)
    ensures
        match r {
            Some(s) => sjis_of(i@) == Some(s@),
            None => sjis_of(i@) is None,
        },
{
    let (cow, _, has_errors) = encoding_rs::SHIFT_JIS.decode(i);
    if has_errors {
        None
    } else {
        Some(cow.to_string())
    }
}

/// The hexadecimal digit for a value below 16.
pub open spec fn hex_digit_char(d: int) -> char {
    if d == 0 { '0' } else if d == 1 { '1' } else if d == 2 { '2' }
    else if d == 3 { '3' } else if d == 4 { '4' } else if d == 5 { '5' }
    else if d == 6 { '6' } else if d == 7 { '7' } else if d == 8 { '8' }
    else if d == 9 { '9' } else if d == 10 { 'a' } else if d == 11 { 'b' }
    else if d == 12 { 'c' } else if d == 13 { 'd' } else if d == 14 { 'e' }
    else { 'f' }
}

/// A byte rendered in lowercase hexadecimal, without a leading zero.
pub open spec fn byte_hex_chars(v: u8) -> Seq<char> {
    if v < 16 {
        seq![hex_digit_char(v as int)]
    } else {
        seq![hex_digit_char(v as int / 16), hex_digit_char(v as int % 16)]
    }
}

/// The first `i` bytes rendered in hexadecimal, separated by comma-space.
pub open spec fn hex_debug_prefix(b: Seq<u8>, i: int) -> Seq<char>
    decreases i,
{
    if i <= 0 {
        Seq::empty()
    } else if i == 1 {
        byte_hex_chars(b[0])
    } else {
        hex_debug_prefix(b, i - 1) + seq![',', ' '] + byte_hex_chars(b[i - 1])
    }
}

/// A byte string rendered as a bracketed list of lowercase hexadecimal
/// byte values, for diagnostics.
pub open spec fn hex_debug(b: Seq<u8>) -> Seq<char> {
    seq!['['] + hex_debug_prefix(b, b.len() as int) + seq![']']
}

/// The one-character string for a hexadecimal digit.
pub(crate) fn hex_digit_str(d: u8) -> (r: &'static str)
    requires
        d < 16,
    ensures
        r@ =~= seq![hex_digit_char(d as int)],
{
    proof {
        reveal_strlit("0"); reveal_strlit("1"); reveal_strlit("2");
        reveal_strlit("3"); reveal_strlit("4"); reveal_strlit("5");
        reveal_strlit("6"); reveal_strlit("7"); reveal_strlit("8");
        reveal_strlit("9"); reveal_strlit("a"); reveal_strlit("b");
        reveal_strlit("c"); reveal_strlit("d"); reveal_strlit("e");
        reveal_strlit("f");
    }
    match d {
        0 => "0", 1 => "1", 2 => "2", 3 => "3",
        4 => "4", 5 => "5", 6 => "6", 7 => "7",
        8 => "8", 9 => "9", 10 => "a", 11 => "b",
        12 => "c", 13 => "d", 14 => "e", _ => "f",
    }
}

/// Append a byte in lowercase hexadecimal.
fn push_hex_byte(s: &mut String, v: u8)
    ensures
        final(s)@ == old(s)@ + byte_hex_chars(v),
{
    if v < 16 {
        s.append(hex_digit_str(v));
    } else {
        s.append(hex_digit_str(v / 16));
        s.append(hex_digit_str(v % 16));
        proof {
            assert(s@ =~= old(s)@ + byte_hex_chars(v));
        }
    }
    proof {
        assert(s@ =~= old(s)@ + byte_hex_chars(v));
    }
}

/// Render a byte string as a bracketed hexadecimal list.
fn hex_debug_string(b: &[u8]) -> (r: String)
    ensures
        r@ == hex_debug(b@),
{
    proof {
        reveal_strlit("[");
        reveal_strlit("]");
        reveal_strlit(", ");
    }
    let mut s = String::from_str("[");
    let n = b.len();
    let mut i: usize = 0;
    while i < n
        invariant
            0 <= i <= n,
            n == b@.len(),
            s@ =~= seq!['['] + hex_debug_prefix(b@, i as int),
        decreases n - i,
    {
        proof {
            reveal_strlit(", ");
        }
        if i > 0 {
            s.append(", ");
        }
        push_hex_byte(&mut s, b[i]);
        proof {
            assert(s@ =~= seq!['['] + hex_debug_prefix(b@, i + 1));
        }
        i = i + 1;
    }
    proof {
        reveal_strlit("]");
    }
    s.append("]");
    proof {
        assert(s@ =~= hex_debug(b@));
    }
    s
}

/// What the lossy decoding yields: the decoded text, or the hexadecimal
/// rendering when decoding fails.
pub open spec fn sjis_lossy_of(b: Seq<u8>) -> Seq<char> {
    match sjis_of(b) {
        Some(s) => s,
        None => hex_debug(b),
    }
}

/// Decode a Shift JIS encoded byte slice, or fall back to a hexadecimal
/// rendering of the bytes when decoding fails. For diagnostics only, never
/// for round-trip-critical paths.
pub fn sjis_to_string_lossy(i: &[u8]) -> (r: String)
    ensures
        r@ == sjis_lossy_of(i@),
{
    match sjis_to_string(i) {
        Some(s) => s,
        None => hex_debug_string(i),
    }
}

/// What lossy UTF-8 decoding yields for a byte string.
pub uninterp spec fn utf8_lossy_of(b: Seq<u8>) -> Seq<char>;

/// Decode bytes as UTF-8, substituting replacement characters for any
/// invalid sequence.
///
/// Relies on String::from_utf8_lossy: the result depends on the bytes
/// alone, and valid UTF-8 input decodes to exactly the text it encodes.
#[verifier::external_body]
pub(crate) fn utf8_to_string_lossy(b: &[u8]) -> (r: String)
    ensures
        r@ == utf8_lossy_of(b@),
        vstd::utf8::valid_utf8(b@) ==> b@ == vstd::utf8::encode_utf8(r@),
{
    String::from_utf8_lossy(b).to_string()
}

/// A text with its leading repetitions of one character removed.
pub open spec fn trim_leading(s: Seq<char>, c: char) -> Seq<char>
    decreases s.len(),
{
    if s.len() > 0 && s.first() == c {
        trim_leading(s.drop_first(), c)
    } else {
        s
    }
}

/// A head scan over the repeated character lands exactly where
/// `trim_leading` stops.
proof fn lemma_trim_leading_scan(s: Seq<char>, c: char, t: int)
    requires
        0 <= t <= s.len(),
        forall|i: int| 0 <= i < t ==> s[i] == c,
        t < s.len() ==> s[t] != c,
    ensures
        trim_leading(s, c) == s.subrange(t, s.len() as int),
    decreases t,
{
    if t == 0 {
        assert(s.subrange(0, s.len() as int) =~= s);
    } else {
        assert(s.first() == c);
        lemma_trim_leading_scan(s.drop_first(), c, t - 1);
        assert(s.drop_first().subrange(t - 1, s.drop_first().len() as int) =~= s.subrange(
            t,
            s.len() as int,
        ));
    }
}

/// Remove the leading repetitions of one character from a string.
pub fn trim_leading_chars(s: &str, c: char) -> (r: String)
    ensures
        r@ == trim_leading(s@, c),
{
    let m = s.unicode_len();
    let mut t: usize = 0;
    while t < m && s.get_char(t) == c
        invariant
            m == s@.len(),
            0 <= t <= m,
            forall|i: int| 0 <= i < t ==> s@[i] == c,
        decreases m - t,
    {
        t = t + 1;
    }
    proof {
        lemma_trim_leading_scan(s@, c, t as int);
    }
    s.substring_char(t, m).to_owned()
}

/// Compare a string against a literal.
pub fn str_eq(s: &String, lit: &str) -> (r: bool)
    ensures
        r == (s@ == lit@),
{
    *s == lit.to_owned()
}

// --- Variable-width integers ---

/// An integer stored as 32 or 64 bits depending on per-file flags, kept as
/// a tagged variant together with the width that was read.
#[derive(Clone, Copy, Debug)]
pub enum VarSizeInt {
    U32(u32),
    U64(u64),
}

impl VarSizeInt {
    /// The value widened to 64 bits unconditionally.
    pub open spec fn spec_u64(&self) -> u64 {
        match *self {
            VarSizeInt::U32(v) => v as u64,
            VarSizeInt::U64(v) => v,
        }
    }

    /// Widen to 64 bits. The flag that chose the stored width is passed
    /// along so call sites document which width they expect.
    pub fn u64_if(&self, c: bool) -> (r: u64)
        ensures
            r == self.spec_u64(),
    {
        match *self {
            VarSizeInt::U32(v) => v as u64,
            VarSizeInt::U64(v) => v,
        }
    }
}

// --- Serialization ---

/// Trait for structs that serialize to a fixed byte layout.
pub trait Pack {
    /// The bytes `write` appends.
    spec fn bytes(&self) -> Seq<u8>;

    /// Append the entirety of `self` as bytes to `out`, returning the
    /// number of bytes written.
    fn write(&self, out: &mut Vec<u8>) -> (n: usize)
        requires
            old(out)@.len() + self.bytes().len() <= usize::MAX,
        ensures
            final(out)@ == old(out)@ + self.bytes(),
            n == self.bytes().len(),
    ;
}

} // verus!
