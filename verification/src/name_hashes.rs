//! The content-hash used by the archive name lookup: a base-37 fold over
//! the lowercased path, kept to 32 bits, its fixed-width hexadecimal
//! rendering, and the hash-to-name table consulted during extraction.
use vstd::prelude::*;

verus! {

use vstd::wrapping::u32_specs;

/// What str::to_lowercase yields: the lowercase equivalent of the text.
pub uninterp spec fn lower_of(s: Seq<char>) -> Seq<char>;

/// Lowercase a string.
///
/// Relies on str::to_lowercase: the result depends on the characters
/// alone; an empty string stays empty and a nonempty one stays
/// nonempty; and the result is already lowercase, so lowercasing it
/// again changes nothing — which makes the name hash case-insensitive.
#[verifier::external_body]
fn lowercase(s: &str) -> (r: String)
    ensures
        r@ == lower_of(s@),
        s@.len() == 0 <==> r@.len() == 0,
        lower_of(r@) == r@,
{
    s.to_lowercase()
}

/// The 32-bit fold the formats hash names with: over the characters in
/// order, multiply by 37 and add the character, keeping the low 32
/// bits.
pub open spec fn hash_chars(s: Seq<char>) -> u32
    decreases s.len(),
{
    if s.len() == 0 {
        0
    } else {
        ((hash_chars(s.drop_last()) * 37 + s.last() as u32) % 0x1_0000_0000) as u32
    }
}

/// One fold step computed with wrapping arithmetic equals the modular
/// step.
proof fn lemma_hash_step(h: u32, c: u32)
    ensures
        u32_specs::wrapping_add(u32_specs::wrapping_mul(h, 37), c) == ((h * 37 + c)
            % 0x1_0000_0000) as u32,
{
    let m = u32_specs::wrapping_mul(h, 37);
    assert(m == ((h as nat * 37) % 0x1_0000_0000nat) as u32);
    assert(m == (h * 37) % 0x1_0000_0000);
    assert(((h * 37) % 0x1_0000_0000 + c) % 0x1_0000_0000 == (h * 37 + c) % 0x1_0000_0000)
        by (nonlinear_arith);
    if m + c > u32::MAX {
        assert((m + c - 0x1_0000_0000) as u32 == (m + c) % 0x1_0000_0000) by (nonlinear_arith)
            requires
                0x1_0000_0000 <= m + c < 0x2_0000_0000,
        ;
    } else {
        assert((m + c) as u32 == (m + c) % 0x1_0000_0000) by (nonlinear_arith)
            requires
                0 <= m + c < 0x1_0000_0000,
        ;
    }
}

/// Compute the name hash for a string: the base-37 fold over its
/// lowercased characters.
pub fn hash(s: &str) -> (r: u32)
    ensures
        r == hash_chars(lower_of(s@)),
{
    let lowered = lowercase(s);
    let ls = lowered.as_str();
    let m = ls.unicode_len();
    let mut val: u32 = 0;
    let mut idx: usize = 0;
    while idx < m
        invariant
            m == ls@.len(),
            ls@ == lower_of(s@),
            0 <= idx <= m,
            val == hash_chars(ls@.take(idx as int)),
        decreases m - idx,
    {
        let c = ls.get_char(idx);
        let c32 = c as u32;
        proof {
            lemma_hash_step(val, c32);
            assert(ls@.take(idx + 1).drop_last() =~= ls@.take(idx as int));
        }
        val = val.wrapping_mul(37).wrapping_add(c32);
        idx = idx + 1;
    }
    proof {
        assert(ls@.take(m as int) =~= ls@);
    }
    val
}

/// The uppercase hexadecimal digit for a value below 16.
pub open spec fn hex_upper_char(d: int) -> char {
    if d == 0 { '0' } else if d == 1 { '1' } else if d == 2 { '2' }
    else if d == 3 { '3' } else if d == 4 { '4' } else if d == 5 { '5' }
    else if d == 6 { '6' } else if d == 7 { '7' } else if d == 8 { '8' }
    else if d == 9 { '9' } else if d == 10 { 'A' } else if d == 11 { 'B' }
    else if d == 12 { 'C' } else if d == 13 { 'D' } else if d == 14 { 'E' }
    else { 'F' }
}

/// A 32-bit hash as eight uppercase hexadecimal digits, zero-padded.
pub open spec fn hex8_of(h: u32) -> Seq<char> {
    seq![
        hex_upper_char(h as int / 0x1000_0000),
        hex_upper_char(h as int / 0x100_0000 % 16),
        hex_upper_char(h as int / 0x10_0000 % 16),
        hex_upper_char(h as int / 0x1_0000 % 16),
        hex_upper_char(h as int / 0x1000 % 16),
        hex_upper_char(h as int / 0x100 % 16),
        hex_upper_char(h as int / 0x10 % 16),
        hex_upper_char(h as int % 16),
    ]
}

/// The one-character string for an uppercase hexadecimal digit.
fn hex_upper_str(d: u32) -> (r: &'static str)
    requires
        d < 16,
    ensures
        r@ =~= seq![hex_upper_char(d as int)],
{
    proof {
        reveal_strlit("0"); reveal_strlit("1"); reveal_strlit("2");
        reveal_strlit("3"); reveal_strlit("4"); reveal_strlit("5");
        reveal_strlit("6"); reveal_strlit("7"); reveal_strlit("8");
        reveal_strlit("9"); reveal_strlit("A"); reveal_strlit("B");
        reveal_strlit("C"); reveal_strlit("D"); reveal_strlit("E");
        reveal_strlit("F");
    }
    match d {
        0 => "0", 1 => "1", 2 => "2", 3 => "3",
        4 => "4", 5 => "5", 6 => "6", 7 => "7",
        8 => "8", 9 => "9", 10 => "A", 11 => "B",
        12 => "C", 13 => "D", 14 => "E", _ => "F",
    }
}

/// Get the fixed-width string representation for this hash: eight
/// uppercase hexadecimal digits.
pub fn hash_as_string(h: u32) -> (r: String)
    ensures
        r@ == hex8_of(h),
{
    let mut s = String::new();
    s.append(hex_upper_str(h / 0x1000_0000));
    s.append(hex_upper_str(h / 0x100_0000 % 16));
    s.append(hex_upper_str(h / 0x10_0000 % 16));
    s.append(hex_upper_str(h / 0x1_0000 % 16));
    s.append(hex_upper_str(h / 0x1000 % 16));
    s.append(hex_upper_str(h / 0x100 % 16));
    s.append(hex_upper_str(h / 0x10 % 16));
    s.append(hex_upper_str(h % 16));
    proof {
        assert(s@ =~= hex8_of(h));
    }
    s
}

// --- The hash-to-name table ---

/// The value of an uppercase hexadecimal digit character, or -1.
pub open spec fn hex_char_val(c: char) -> int {
    if 48 <= c as u32 <= 57 {
        c as u32 - 48
    } else if 65 <= c as u32 <= 70 {
        c as u32 - 55
    } else {
        -1
    }
}

/// The value of the first `j` uppercase hexadecimal digits of a text.
pub open spec fn hex_prefix_val(s: Seq<char>, j: int) -> int
    decreases j,
{
    if j <= 0 {
        0
    } else {
        hex_prefix_val(s, j - 1) * 16 + hex_char_val(s[j - 1])
    }
}

/// Eight hexadecimal digits stay below 2^32.
proof fn lemma_hex_prefix_bound(s: Seq<char>, j: int)
    requires
        0 <= j <= 8,
        forall|i: int| 0 <= i < j ==> hex_char_val(#[trigger] s[i]) >= 0,
    ensures
        0 <= hex_prefix_val(s, j),
        hex_prefix_val(s, j) < vstd::arithmetic::power2::pow2((4 * j) as nat),
        hex_prefix_val(s, j) < 0x1_0000_0000,
        j < 8 ==> hex_prefix_val(s, j) < 0x1000_0000,
    decreases j,
{
    vstd::arithmetic::power2::lemma2_to64();
    if j > 0 {
        lemma_hex_prefix_bound(s, j - 1);
        let prev = hex_prefix_val(s, j - 1);
        let cap = vstd::arithmetic::power2::pow2((4 * j - 4) as nat);
        assert(hex_char_val(s[j - 1]) <= 15);
        vstd::arithmetic::power2::lemma_pow2_adds((4 * j - 4) as nat, 4);
        assert(prev * 16 + 15 < cap * 16) by (nonlinear_arith)
            requires
                0 <= prev < cap,
        ;
        assert(cap * 16 == vstd::arithmetic::power2::pow2((4 * j) as nat) * 1) by {
            assert(vstd::arithmetic::power2::pow2(4) == 16);
        }
    }
}

/// What one line of a name file means: eight uppercase hexadecimal
/// digits, two separator characters, then the remainder as the path,
/// verbatim. A line too short or with a bad digit means nothing.
pub open spec fn name_line_spec(s: Seq<char>) -> Option<(u32, Seq<char>)> {
    if s.len() >= 10 && (forall|i: int| 0 <= i < 8 ==> hex_char_val(#[trigger] s[i]) >= 0) {
        Some((hex_prefix_val(s, 8) as u32, s.subrange(10, s.len() as int)))
    } else {
        None
    }
}

/// The hash-to-name table consulted during extraction, loaded from a
/// line-oriented name file. Paths are stored verbatim; on duplicate
/// hashes the last line wins.
#[derive(Debug)]
pub struct NameMap {
    pub entries: Vec<(u32, String)>,
}

/// The name stored for a hash: the last matching entry, like repeated
/// insertions into a map.
pub open spec fn lookup_spec(entries: Seq<(u32, String)>, h: u32) -> Option<Seq<char>>
    decreases entries.len(),
{
    if entries.len() == 0 {
        None
    } else if entries.last().0 == h {
        Some(entries.last().1@)
    } else {
        lookup_spec(entries.drop_last(), h)
    }
}

/// Parse one line of a name file: `HHHHHHHH: /some/path`.
///
/// The first eight characters are the uppercase hexadecimal hash, the
/// next two are skipped, and the remainder is the path, kept verbatim.
/// A malformed line yields nothing.
pub fn parse_name_line(line: &str) -> (r: Option<(u32, String)>)
    ensures
        match r {
            Some((h, path)) => name_line_spec(line@) matches Some(sp) && sp.0 == h && sp.1
                == path@,
            None => name_line_spec(line@) is None,
        },
{
    let m = line.unicode_len();
    if m < 10 {
        return None;
    }
    let mut h: u32 = 0;
    let mut j: usize = 0;
    while j < 8
        invariant
            m == line@.len(),
            m >= 10,
            0 <= j <= 8,
            forall|i: int| 0 <= i < j ==> hex_char_val(#[trigger] line@[i]) >= 0,
            h == hex_prefix_val(line@, j as int),
        decreases 8 - j,
    {
        proof {
            lemma_hex_prefix_bound(line@, j as int);
        }
        let c = line.get_char(j);
        let cv = c as u32;
        let d: u32 = if cv >= 48 && cv <= 57 {
            cv - 48
        } else if cv >= 65 && cv <= 70 {
            cv - 55
        } else {
            proof {
                assert(hex_char_val(line@[j as int]) < 0);
            }
            return None;
        };
        h = h * 16 + d;
        j = j + 1;
    }

    let path = line.substring_char(10, m).to_owned();
    Some((h, path))
}

impl NameMap {
    /// An empty table.
    pub fn new() -> (r: NameMap)
        ensures
            r.entries@.len() == 0,
    {
        NameMap { entries: Vec::new() }
    }

    /// Add one name-file line to the table; a malformed line is
    /// skipped and reported as false.
    pub fn add_line(&mut self, line: &str) -> (added: bool)
        ensures
            match name_line_spec(line@) {
                Some(sp) => added && final(self).entries@.len() == old(self).entries@.len() + 1
                    && final(self).entries@.subrange(0, old(self).entries@.len() as int)
                    == old(self).entries@ && final(self).entries@.last().0 == sp.0
                    && final(self).entries@.last().1@ == sp.1,
                None => !added && final(self).entries@ == old(self).entries@,
            },
    {
        match parse_name_line(line) {
            Some((h, path)) => {
                self.entries.push((h, path));
                proof {
                    assert(self.entries@.subrange(0, old(self).entries@.len() as int)
                        =~= old(self).entries@);
                }
                true
            },
            None => false,
        }
    }

    /// Look a hash up, returning the stored path of the last matching
    /// line.
    pub fn get(&self, h: u32) -> (r: Option<&String>)
        ensures
            match r {
                Some(path) => lookup_spec(self.entries@, h) == Some(path@),
                None => lookup_spec(self.entries@, h) is None,
            },
    {
        let n = self.entries.len();
        proof {
            assert(self.entries@.take(n as int) =~= self.entries@);
        }
        let mut k: usize = n;
        while k > 0
            invariant
                n == self.entries@.len(),
                0 <= k <= n,
                lookup_spec(self.entries@, h) == lookup_spec(self.entries@.take(k as int), h),
            decreases k,
        {
            proof {
                assert(self.entries@.take(k as int).drop_last() =~= self.entries@.take(k - 1));
            }
            if self.entries[k - 1].0 == h {
                return Some(&self.entries[k - 1].1);
            }
            k = k - 1;
        }
        None
    }
}

} // verus!
