//! Tabular record format (PARAM): a header, a row table whose offset
//! widths are flag-gated, and per-row data blocks whose internal layout
//! is defined only by an associated PARAMDEF schema. Decoding a row
//! walks the schema's field list with a bit cursor that spans multiple
//! sub-byte fields packed into shared backing words.
use vstd::prelude::*;

verus! {

use vstd::bits::low_bits_mask;
use crate::common::VarSizeInt;
use crate::common::cstr_at;
use crate::common::read_i8;
use crate::common::read_u64;
use crate::common::read_u8;
use crate::common::sjis_of;
use crate::common::sjis_to_string;
use crate::common::take_cstring;
use crate::common::take_cstring_from;
use crate::common::u64_at;
use crate::common::utf8_lossy_of;
use crate::common::utf8_to_string_lossy;
use crate::common::read_u16;
use crate::common::read_u32;
use crate::common::signed8;
use crate::common::signed16;
use crate::common::signed32;
use crate::common::str_eq;
use crate::common::subrange_vec;
use crate::common::to_i16;
use crate::common::to_i32;
use crate::common::u16_at;
use crate::common::u32_at;
use crate::errors::UnpackError;
use crate::paramdef::Paramdef;
use crate::paramdef::ParamdefField;
use crate::paramdef::spec_bit_size;

/// One decoded cell of a row: a typed primitive, a 32-bit float kept as
/// its raw bit pattern, or an opaque blob for an unrecognized type tag.
#[derive(Clone, Debug, PartialEq)]
pub enum ParamRowValue {
    S8(i8),
    U8(u8),
    S16(i16),
    U16(u16),
    S32(i32),
    U32(u32),
    F32(u32),
    UNK(Vec<u8>),
}

// --- The bit-cursor machine over a schema's field list ---

/// The byte width of a recognized plain type tag, or -1 for an
/// unrecognized tag (whose cell is an opaque blob).
pub open spec fn plain_width(t: Seq<char>) -> int {
    if t == "s8"@ || t == "u8"@ {
        1
    } else if t == "s16"@ || t == "u16"@ {
        2
    } else if t == "s32"@ || t == "u32"@ || t == "f32"@ {
        4
    } else {
        -1
    }
}

/// The backing-word width in bits for a bit-packed field's type tag, or
/// -1 when the tag cannot back a bit-packed field.
pub open spec fn word_width(t: Seq<char>) -> int {
    if t == "u8"@ || t == "dummy8"@ {
        8
    } else if t == "u16"@ {
        16
    } else {
        -1
    }
}

/// One step of the consumption machine: how one field advances the byte
/// position and the count of unconsumed bits in the current backing
/// word. `None` marks a field the decoder must reject: a recognized
/// plain tag narrower than its declared byte count, a bit-packed field
/// whose tag cannot back it, or a bit width that exceeds what is
/// available.
pub open spec fn step_consumed(f: ParamdefField, st: (int, int)) -> Option<(int, int)> {
    let bs = spec_bit_size(f);
    let bc = f.byte_count as int;
    if bs == 0 {
        let w = plain_width(f.display_type@);
        if w >= 1 && bc < w {
            None
        } else {
            Some((st.0 + bc, 0int))
        }
    } else {
        let w = word_width(f.display_type@);
        if w < 0 {
            None
        } else if st.1 == 0 {
            if bc * 8 >= w && bs <= w {
                Some((st.0 + bc, w - bs))
            } else {
                None
            }
        } else {
            if bs <= st.1 {
                Some((st.0, st.1 - bs))
            } else {
                None
            }
        }
    }
}

/// The consumption machine after the first `i` fields: byte position
/// and unconsumed bits, or `None` once any field is rejected. Byte
/// consumption happens only when a new backing word is needed:
/// consecutive bit-packed fields sharing a word consume no bytes.
pub open spec fn spec_consumed(fields: Seq<ParamdefField>, i: int) -> Option<(int, int)>
    decreases i,
{
    if i <= 0 {
        Some((0int, 0int))
    } else {
        match spec_consumed(fields, i - 1) {
            None => None,
            Some(st) => step_consumed(fields[i - 1], st),
        }
    }
}

/// The word loaded when a bit-packed run begins at byte `pos`.
pub open spec fn spec_fresh_word(b: Seq<u8>, be: bool, pos: int, w: int) -> u16 {
    if w == 8 {
        b[pos] as u16
    } else {
        u16_at(b, pos, be)
    }
}

/// One step of the full decode machine, which also tracks the current
/// backing word, already shifted past the consumed bits.
pub open spec fn step_state(f: ParamdefField, b: Seq<u8>, be: bool, st: (int, int, u16)) -> Option<
    (int, int, u16),
> {
    let bs = spec_bit_size(f);
    let bc = f.byte_count as int;
    if bs == 0 {
        let w = plain_width(f.display_type@);
        if w >= 1 && bc < w {
            None
        } else {
            Some((st.0 + bc, 0int, 0u16))
        }
    } else {
        let w = word_width(f.display_type@);
        if w < 0 {
            None
        } else if st.1 == 0 {
            if bc * 8 >= w && bs <= w {
                Some((st.0 + bc, w - bs, spec_fresh_word(b, be, st.0, w) >> (bs as u16)))
            } else {
                None
            }
        } else {
            if bs <= st.1 {
                Some((st.0, st.1 - bs, st.2 >> (bs as u16)))
            } else {
                None
            }
        }
    }
}

/// The decode machine after the first `i` fields.
pub open spec fn spec_state(fields: Seq<ParamdefField>, b: Seq<u8>, be: bool, i: int) -> Option<
    (int, int, u16),
>
    decreases i,
{
    if i <= 0 {
        Some((0int, 0int, 0u16))
    } else {
        match spec_state(fields, b, be, i - 1) {
            None => None,
            Some(st) => step_state(fields[i - 1], b, be, st),
        }
    }
}

/// The two machines agree: same rejections, same position, same bits.
pub proof fn lemma_state_consumed(fields: Seq<ParamdefField>, b: Seq<u8>, be: bool, i: int)
    ensures
        match spec_state(fields, b, be, i) {
            Some(st) => spec_consumed(fields, i) matches Some(c) && c.0 == st.0 && c.1 == st.1,
            None => spec_consumed(fields, i) is None,
        },
    decreases i,
{
    if i > 0 {
        lemma_state_consumed(fields, b, be, i - 1);
    }
}

/// A rejected step rejects the whole walk.
pub proof fn lemma_consumed_none_from(
    fields: Seq<ParamdefField>,
    i: int,
    j: int,
    st: (int, int),
)
    requires
        0 <= i < j <= fields.len(),
        spec_consumed(fields, i) == Some(st),
        step_consumed(fields[i], st) is None,
    ensures
        spec_consumed(fields, j) is None,
{
    assert(spec_consumed(fields, i + 1) is None);
    lemma_consumed_none(fields, i + 1, j);
}

/// A step that overruns keeps the final position beyond it.
pub proof fn lemma_consumed_over_from(
    fields: Seq<ParamdefField>,
    i: int,
    j: int,
    st: (int, int),
    bound: int,
)
    requires
        0 <= i < j <= fields.len(),
        spec_consumed(fields, i) == Some(st),
        step_consumed(fields[i], st) matches Some(st2) && st2.0 > bound,
    ensures
        spec_consumed(fields, j) is None || (spec_consumed(fields, j) matches Some(stj) && stj.0
            > bound),
{
    assert(spec_consumed(fields, i + 1) == step_consumed(fields[i], st));
    lemma_consumed_mono(fields, i + 1, j);
}

/// A rejected step rejects the whole decode.
pub proof fn lemma_state_none_from(
    fields: Seq<ParamdefField>,
    b: Seq<u8>,
    be: bool,
    i: int,
    j: int,
    st: (int, int, u16),
)
    requires
        0 <= i < j <= fields.len(),
        spec_state(fields, b, be, i) == Some(st),
        step_state(fields[i], b, be, st) is None,
    ensures
        spec_state(fields, b, be, j) is None,
{
    assert(spec_state(fields, b, be, i + 1) is None);
    lemma_state_none(fields, b, be, i + 1, j);
}

/// A step that overruns keeps the final position beyond it.
pub proof fn lemma_state_over_from(
    fields: Seq<ParamdefField>,
    b: Seq<u8>,
    be: bool,
    i: int,
    j: int,
    st: (int, int, u16),
    bound: int,
)
    requires
        0 <= i < j <= fields.len(),
        spec_state(fields, b, be, i) == Some(st),
        step_state(fields[i], b, be, st) matches Some(st2) && st2.0 > bound,
    ensures
        spec_state(fields, b, be, j) is None || (spec_state(fields, b, be, j) matches Some(stj)
            && stj.0 > bound),
{
    assert(spec_state(fields, b, be, i + 1) == step_state(fields[i], b, be, st));
    lemma_state_mono(fields, b, be, i + 1, j);
}

/// Once a field is rejected, the consumption machine stays rejected.
pub proof fn lemma_consumed_none(fields: Seq<ParamdefField>, i: int, j: int)
    requires
        0 <= i <= j,
        spec_consumed(fields, i) is None,
    ensures
        spec_consumed(fields, j) is None,
    decreases j - i,
{
    if i < j {
        lemma_consumed_none(fields, i + 1, j);
    }
}

/// Once a field is rejected, the decode machine stays rejected.
pub proof fn lemma_state_none(fields: Seq<ParamdefField>, b: Seq<u8>, be: bool, i: int, j: int)
    requires
        0 <= i <= j,
        spec_state(fields, b, be, i) is None,
    ensures
        spec_state(fields, b, be, j) is None,
    decreases j - i,
{
    if i < j {
        lemma_state_none(fields, b, be, i + 1, j);
    }
}

/// The byte position of the consumption machine never moves backwards.
pub proof fn lemma_consumed_mono(fields: Seq<ParamdefField>, i: int, j: int)
    requires
        0 <= i <= j,
    ensures
        spec_consumed(fields, i) matches Some(sti) ==> (spec_consumed(fields, j) is None || (
        spec_consumed(fields, j) matches Some(stj) && stj.0 >= sti.0)),
    decreases j - i,
{
    if i < j {
        lemma_consumed_mono(fields, i, j - 1);
    }
}

/// The byte position of the decode machine never moves backwards.
pub proof fn lemma_state_mono(fields: Seq<ParamdefField>, b: Seq<u8>, be: bool, i: int, j: int)
    requires
        0 <= i <= j,
    ensures
        spec_state(fields, b, be, i) matches Some(sti) ==> (spec_state(fields, b, be, j) is None
            || (spec_state(fields, b, be, j) matches Some(stj) && stj.0 >= sti.0)),
    decreases j - i,
{
    if i < j {
        lemma_state_mono(fields, b, be, i, j - 1);
    }
}

/// What the cell decoded for field `k` must hold, given the machine
/// state before the field: a typed read at the current position for a
/// plain field, or the low bits of the current (or freshly loaded)
/// backing word for a bit-packed field.
pub open spec fn value_matches(
    v: ParamRowValue,
    fields: Seq<ParamdefField>,
    b: Seq<u8>,
    be: bool,
    k: int,
) -> bool {
    match spec_state(fields, b, be, k) {
        None => false,
        Some(st) => {
            let f = fields[k];
            let t = f.display_type@;
            let bs = spec_bit_size(f);
            let pos = st.0;
            if bs == 0 {
                if t == "s8"@ {
                    v matches ParamRowValue::S8(x) && x == signed8(b[pos])
                } else if t == "u8"@ {
                    v matches ParamRowValue::U8(x) && x == b[pos]
                } else if t == "s16"@ {
                    v matches ParamRowValue::S16(x) && x == signed16(u16_at(b, pos, be))
                } else if t == "u16"@ {
                    v matches ParamRowValue::U16(x) && x == u16_at(b, pos, be)
                } else if t == "s32"@ {
                    v matches ParamRowValue::S32(x) && x == signed32(u32_at(b, pos, be))
                } else if t == "u32"@ {
                    v matches ParamRowValue::U32(x) && x == u32_at(b, pos, be)
                } else if t == "f32"@ {
                    v matches ParamRowValue::F32(x) && x == u32_at(b, pos, be)
                } else {
                    v matches ParamRowValue::UNK(w) && w@ == b.subrange(
                        pos,
                        pos + f.byte_count as int,
                    )
                }
            } else {
                let src: u16 = if st.1 == 0 {
                    spec_fresh_word(b, be, pos, word_width(t))
                } else {
                    st.2
                };
                let x: u16 = src & (low_bits_mask(bs as nat) as u16);
                if t == "u8"@ || t == "dummy8"@ {
                    v matches ParamRowValue::U8(xx) && xx == x as u8
                } else {
                    v matches ParamRowValue::U16(xx) && xx == x
                }
            }
        },
    }
}

impl Paramdef {
    /// The byte width of one row under this schema: the total the bit
    /// cursor consumes over the whole field list. `None` when the
    /// schema holds a field the row decoder rejects, or the width
    /// overflows.
    pub fn row_size(&self) -> (r: Option<u64>)
        ensures
            match r {
                Some(v) => spec_consumed(self.fields@, self.fields@.len() as int) matches Some(st)
                    && st.0 == v,
                None => spec_consumed(self.fields@, self.fields@.len() as int) is None || (
                spec_consumed(self.fields@, self.fields@.len() as int) matches Some(st) && st.0
                    > u64::MAX),
            },
    {
        let num = self.fields.len();
        let mut pos: u64 = 0;
        let mut bits: u64 = 0;
        let mut k: usize = 0;
        while k < num
            invariant
                num == self.fields@.len(),
                0 <= k <= num,
                spec_consumed(self.fields@, k as int) == Some((pos as int, bits as int)),
                bits <= 16,
            decreases num - k,
        {
            let f = &self.fields[k];
            let bs = f.bit_size();
            let bc = f.byte_count;
            if bs == 0 {
                let w: u32 = if str_eq(&f.display_type, "s8") || str_eq(&f.display_type, "u8") {
                    1
                } else if str_eq(&f.display_type, "s16") || str_eq(&f.display_type, "u16") {
                    2
                } else if str_eq(&f.display_type, "s32") || str_eq(&f.display_type, "u32")
                    || str_eq(&f.display_type, "f32") {
                    4
                } else {
                    0
                };
                if w >= 1 && bc < w {
                    proof {
                        lemma_consumed_none_from(
                            self.fields@,
                            k as int,
                            num as int,
                            (pos as int, bits as int),
                        );
                    }
                    return None;
                }
                if pos > u64::MAX - bc as u64 {
                    proof {
                        lemma_consumed_over_from(
                            self.fields@,
                            k as int,
                            num as int,
                            (pos as int, bits as int),
                            u64::MAX as int,
                        );
                    }
                    return None;
                }
                pos = pos + bc as u64;
                bits = 0;
            } else {
                let is_u8 = str_eq(&f.display_type, "u8") || str_eq(&f.display_type, "dummy8");
                let is_u16 = str_eq(&f.display_type, "u16");
                if !is_u8 && !is_u16 {
                    proof {
                        lemma_consumed_none_from(
                            self.fields@,
                            k as int,
                            num as int,
                            (pos as int, bits as int),
                        );
                    }
                    return None;
                }
                let w: u64 = if is_u8 {
                    8
                } else {
                    16
                };
                if bits == 0 {
                    if (bc as u64) * 8 < w || bs as u64 > w {
                        proof {
                            lemma_consumed_none_from(
                                self.fields@,
                                k as int,
                                num as int,
                                (pos as int, bits as int),
                            );
                        }
                        return None;
                    }
                    if pos > u64::MAX - bc as u64 {
                        proof {
                            lemma_consumed_over_from(
                                self.fields@,
                                k as int,
                                num as int,
                                (pos as int, bits as int),
                                u64::MAX as int,
                            );
                        }
                        return None;
                    }
                    pos = pos + bc as u64;
                    bits = w - bs as u64;
                } else {
                    if bs as u64 > bits {
                        proof {
                            lemma_consumed_none_from(
                                self.fields@,
                                k as int,
                                num as int,
                                (pos as int, bits as int),
                            );
                        }
                        return None;
                    }
                    bits = bits - bs as u64;
                }
            }
            k = k + 1;
        }
        Some(pos)
    }
}

/// Decode one row's data block by walking the schema's field list with
/// the bit cursor.
///
/// Succeeds exactly when every field is decodable and the walk stays
/// inside the block; a field the schema cannot back (an unrecognized
/// bit-packed word type, or a bit width that exceeds the word) is an
/// unsupported-schema error, and running out of bytes is a parse error.
pub fn parse_row_data(data: &[u8], be: bool, def: &Paramdef) -> (r: Result<
    Vec<ParamRowValue>,
    UnpackError,
>)
    ensures
        match r {
            Ok(vals) => {
                &&& spec_state(def.fields@, data@, be, def.fields@.len() as int) matches Some(st)
                    && st.0 <= data@.len()
                &&& vals@.len() == def.fields@.len()
                &&& forall|k: int|
                    0 <= k < def.fields@.len() ==> value_matches(
                        #[trigger] vals@[k],
                        def.fields@,
                        data@,
                        be,
                        k,
                    )
            },
            Err(e) => {
                &&& !(spec_state(def.fields@, data@, be, def.fields@.len() as int) matches Some(
                    st,
                ) && st.0 <= data@.len())
                &&& (e matches UnpackError::Parsing(_) || e matches UnpackError::Unknown(_))
            },
        },
{
    let n = data.len();
    let num = def.fields.len();
    let mut vals: Vec<ParamRowValue> = Vec::new();
    let mut pos: usize = 0;
    let mut bits: usize = 0;
    let mut word: u16 = 0;
    let mut k: usize = 0;
    while k < num
        invariant
            n == data@.len() <= usize::MAX,
            num == def.fields@.len(),
            0 <= k <= num,
            vals@.len() == k,
            spec_state(def.fields@, data@, be, k as int) == Some((pos as int, bits as int, word)),
            pos <= n,
            bits <= 16,
            forall|j: int|
                0 <= j < k ==> value_matches(#[trigger] vals@[j], def.fields@, data@, be, j),
        decreases num - k,
    {
        let ghost pre = (pos as int, bits as int, word);
        let f = &def.fields[k];
        let bs = f.bit_size();
        let bc = f.byte_count;
        let value: ParamRowValue;
        if bs == 0 {
            if str_eq(&f.display_type, "s8") {
                if bc < 1 {
                    proof {
                        lemma_state_none_from(
                            def.fields@,
                            data@,
                            be,
                            k as int,
                            num as int,
                            (pos as int, bits as int, word),
                        );
                    }
                    return Err(UnpackError::parsing_err("PARAM", "field narrower than its type"));
                }
                if bc as u64 > n as u64 - pos as u64 {
                    proof {
                        lemma_state_over_from(
                            def.fields@,
                            data@,
                            be,
                            k as int,
                            num as int,
                            (pos as int, bits as int, word),
                            n as int,
                        );
                    }
                    return Err(UnpackError::parsing_err("PARAM", "row data out of bounds"));
                }
                value = ParamRowValue::S8(read_i8(data, pos));
            } else if str_eq(&f.display_type, "u8") {
                if bc < 1 {
                    proof {
                        lemma_state_none_from(
                            def.fields@,
                            data@,
                            be,
                            k as int,
                            num as int,
                            (pos as int, bits as int, word),
                        );
                    }
                    return Err(UnpackError::parsing_err("PARAM", "field narrower than its type"));
                }
                if bc as u64 > n as u64 - pos as u64 {
                    proof {
                        lemma_state_over_from(
                            def.fields@,
                            data@,
                            be,
                            k as int,
                            num as int,
                            (pos as int, bits as int, word),
                            n as int,
                        );
                    }
                    return Err(UnpackError::parsing_err("PARAM", "row data out of bounds"));
                }
                value = ParamRowValue::U8(data[pos]);
            } else if str_eq(&f.display_type, "s16") {
                if bc < 2 {
                    proof {
                        lemma_state_none_from(
                            def.fields@,
                            data@,
                            be,
                            k as int,
                            num as int,
                            (pos as int, bits as int, word),
                        );
                    }
                    return Err(UnpackError::parsing_err("PARAM", "field narrower than its type"));
                }
                if bc as u64 > n as u64 - pos as u64 {
                    proof {
                        lemma_state_over_from(
                            def.fields@,
                            data@,
                            be,
                            k as int,
                            num as int,
                            (pos as int, bits as int, word),
                            n as int,
                        );
                    }
                    return Err(UnpackError::parsing_err("PARAM", "row data out of bounds"));
                }
                value = ParamRowValue::S16(to_i16(read_u16(data, pos, be)));
            } else if str_eq(&f.display_type, "u16") {
                if bc < 2 {
                    proof {
                        lemma_state_none_from(
                            def.fields@,
                            data@,
                            be,
                            k as int,
                            num as int,
                            (pos as int, bits as int, word),
                        );
                    }
                    return Err(UnpackError::parsing_err("PARAM", "field narrower than its type"));
                }
                if bc as u64 > n as u64 - pos as u64 {
                    proof {
                        lemma_state_over_from(
                            def.fields@,
                            data@,
                            be,
                            k as int,
                            num as int,
                            (pos as int, bits as int, word),
                            n as int,
                        );
                    }
                    return Err(UnpackError::parsing_err("PARAM", "row data out of bounds"));
                }
                value = ParamRowValue::U16(read_u16(data, pos, be));
            } else if str_eq(&f.display_type, "s32") {
                if bc < 4 {
                    proof {
                        lemma_state_none_from(
                            def.fields@,
                            data@,
                            be,
                            k as int,
                            num as int,
                            (pos as int, bits as int, word),
                        );
                    }
                    return Err(UnpackError::parsing_err("PARAM", "field narrower than its type"));
                }
                if bc as u64 > n as u64 - pos as u64 {
                    proof {
                        lemma_state_over_from(
                            def.fields@,
                            data@,
                            be,
                            k as int,
                            num as int,
                            (pos as int, bits as int, word),
                            n as int,
                        );
                    }
                    return Err(UnpackError::parsing_err("PARAM", "row data out of bounds"));
                }
                value = ParamRowValue::S32(to_i32(read_u32(data, pos, be)));
            } else if str_eq(&f.display_type, "u32") {
                if bc < 4 {
                    proof {
                        lemma_state_none_from(
                            def.fields@,
                            data@,
                            be,
                            k as int,
                            num as int,
                            (pos as int, bits as int, word),
                        );
                    }
                    return Err(UnpackError::parsing_err("PARAM", "field narrower than its type"));
                }
                if bc as u64 > n as u64 - pos as u64 {
                    proof {
                        lemma_state_over_from(
                            def.fields@,
                            data@,
                            be,
                            k as int,
                            num as int,
                            (pos as int, bits as int, word),
                            n as int,
                        );
                    }
                    return Err(UnpackError::parsing_err("PARAM", "row data out of bounds"));
                }
                value = ParamRowValue::U32(read_u32(data, pos, be));
            } else if str_eq(&f.display_type, "f32") {
                if bc < 4 {
                    proof {
                        lemma_state_none_from(
                            def.fields@,
                            data@,
                            be,
                            k as int,
                            num as int,
                            (pos as int, bits as int, word),
                        );
                    }
                    return Err(UnpackError::parsing_err("PARAM", "field narrower than its type"));
                }
                if bc as u64 > n as u64 - pos as u64 {
                    proof {
                        lemma_state_over_from(
                            def.fields@,
                            data@,
                            be,
                            k as int,
                            num as int,
                            (pos as int, bits as int, word),
                            n as int,
                        );
                    }
                    return Err(UnpackError::parsing_err("PARAM", "row data out of bounds"));
                }
                value = ParamRowValue::F32(read_u32(data, pos, be));
            } else {
                if bc as u64 > n as u64 - pos as u64 {
                    proof {
                        lemma_state_over_from(
                            def.fields@,
                            data@,
                            be,
                            k as int,
                            num as int,
                            (pos as int, bits as int, word),
                            n as int,
                        );
                    }
                    return Err(UnpackError::parsing_err("PARAM", "row data out of bounds"));
                }
                value = ParamRowValue::UNK(subrange_vec(data, pos, pos + bc as usize));
            }
            pos = pos + bc as usize;
            bits = 0;
            word = 0;
        } else {
            let is_u8 = str_eq(&f.display_type, "u8") || str_eq(&f.display_type, "dummy8");
            let is_u16 = str_eq(&f.display_type, "u16");
            if !is_u8 && !is_u16 {
                proof {
                    lemma_state_none_from(
                        def.fields@,
                        data@,
                        be,
                        k as int,
                        num as int,
                        (pos as int, bits as int, word),
                    );
                }
                return Err(
                    UnpackError::Unknown(
                        "unsupported backing word for a bit-packed field".to_owned(),
                    ),
                );
            }
            let w: usize = if is_u8 {
                8
            } else {
                16
            };
            if bits == 0 {
                if (bc as u64) * 8 < w as u64 || bs > w {
                    proof {
                        lemma_state_none_from(
                            def.fields@,
                            data@,
                            be,
                            k as int,
                            num as int,
                            (pos as int, bits as int, word),
                        );
                    }
                    return Err(
                        UnpackError::Unknown(
                            "bit-packed field does not fit its backing word".to_owned(),
                        ),
                    );
                }
                if bc as u64 > n as u64 - pos as u64 {
                    proof {
                        lemma_state_over_from(
                            def.fields@,
                            data@,
                            be,
                            k as int,
                            num as int,
                            (pos as int, bits as int, word),
                            n as int,
                        );
                    }
                    return Err(UnpackError::parsing_err("PARAM", "row data out of bounds"));
                }
                word = if w == 8 {
                    data[pos] as u16
                } else {
                    read_u16(data, pos, be)
                };
                bits = w;
                pos = pos + bc as usize;
            } else {
                if bs > bits {
                    proof {
                        lemma_state_none_from(
                            def.fields@,
                            data@,
                            be,
                            k as int,
                            num as int,
                            (pos as int, bits as int, word),
                        );
                    }
                    return Err(
                        UnpackError::Unknown(
                            "bit-packed field exceeds the remaining word bits".to_owned(),
                        ),
                    );
                }
            }
            let x: u16 = if bs >= 16 {
                word
            } else {
                proof {
                    vstd::bits::lemma_u16_pow2_no_overflow(bs as nat);
                    vstd::bits::lemma_u16_shl_is_mul(1u16, bs as u16);
                }
                word & ((1u16 << (bs as u16)) - 1)
            };
            proof {
                if bs >= 16 {
                    assert(bs == 16);
                    assert(low_bits_mask(16) == 0xFFFF) by {
                        vstd::bits::lemma_low_bits_mask_values();
                    }
                    assert(word & 0xFFFFu16 == word) by (bit_vector);
                }
            }
            value = if is_u8 {
                ParamRowValue::U8(x as u8)
            } else {
                ParamRowValue::U16(x)
            };
            word = if bs >= 16 {
                0u16
            } else {
                word >> (bs as u16)
            };
            proof {
                if bs >= 16 {
                    let wv = pre.2;
                    assert(wv >> 16u16 == 0) by (bit_vector);
                    let ghost fresh = spec_fresh_word(data@, be, pre.0, 16);
                    assert(fresh >> 16u16 == 0) by (bit_vector);
                }
            }
            bits = bits - bs;
        }
        vals.push(value);
        k = k + 1;
    }
    Ok(vals)
}


// --- Header and row table ---

/// PARAM header. The two flag bytes control whether the name is stored
/// as an offset into the strings block and whether per-row data offsets
/// are 32 or 64-bit.
#[derive(Debug)]
pub struct ParamHeader {
    pub ofs_strings: u32,
    pub ofs_data: u16,
    pub unk06: u16,
    pub paramdef_data_version: u16,
    pub num_rows: u16,
    pub param_type: String,
    pub ofs_name: Option<u64>,
    pub endianness: u8,
    pub flags2d: u8,
    pub flags2e: u8,
    pub paramdef_format_version: u8,
    pub ofs_data_long: Option<VarSizeInt>,
}

/// Whether the endianness byte selects big-endian fields.
pub open spec fn spec_hdr_be(endianness: u8) -> bool {
    endianness == 0xFF
}

/// Whether the param-type name lives in the strings block.
pub open spec fn spec_has_ofs_string_name(flags: u8) -> bool {
    flags & 0x80 == 0x80
}

/// Whether rows carry 32-bit data offsets (in the long header form).
pub open spec fn spec_has_u32_ofs_data(flags: u8) -> bool {
    flags & 0x03 == 0x03
}

/// Whether rows carry 64-bit data and name offsets.
pub open spec fn spec_has_u64_ofs_data(flags: u8) -> bool {
    flags & 0x04 == 0x04
}

impl ParamHeader {
    /// Whether multi-byte fields are big-endian.
    pub fn use_be(&self) -> (r: bool)
        ensures
            r == spec_hdr_be(self.endianness),
    {
        self.endianness == 0xFF
    }

    /// Whether the param-type name lives in the strings block.
    pub fn has_ofs_string_name(&self) -> (r: bool)
        ensures
            r == spec_has_ofs_string_name(self.flags2d),
    {
        self.flags2d & 0x80 == 0x80
    }

    /// Whether rows carry 32-bit data offsets (long header form).
    pub fn has_u32_ofs_data(&self) -> (r: bool)
        ensures
            r == spec_has_u32_ofs_data(self.flags2d),
    {
        self.flags2d & 0x03 == 0x03
    }

    /// Whether rows carry 64-bit data and name offsets.
    pub fn has_u64_ofs_data(&self) -> (r: bool)
        ensures
            r == spec_has_u64_ofs_data(self.flags2d),
    {
        self.flags2d & 0x04 == 0x04
    }
}

/// One row: id, flag-width data and name offsets, the name resolved
/// from its offset, and the raw data block (copied only when a schema
/// was supplied).
#[derive(Debug)]
pub struct ParamRow {
    pub id: u32,
    pub ofs_data: VarSizeInt,
    pub ofs_name: VarSizeInt,
    pub name: Option<String>,
    pub data: Vec<ParamRowValue>,
}

/// A parsed PARAM table.
#[derive(Debug)]
pub struct Param {
    pub header: ParamHeader,
    pub rows: Vec<ParamRow>,
}

// --- Spec layout ---

/// Whether the buffer's rows are big-endian.
pub open spec fn spec_buf_be(b: Seq<u8>) -> bool {
    spec_hdr_be(b[0x2C])
}

/// The buffer's row count.
pub open spec fn spec_buf_num_rows(b: Seq<u8>) -> int {
    u16_at(b, 0xA, spec_buf_be(b)) as int
}

/// Whether the buffer's header has the long form with a data offset.
pub open spec fn spec_buf_long_header(b: Seq<u8>) -> bool {
    spec_has_u32_ofs_data(b[0x2D]) || spec_has_u64_ofs_data(b[0x2D])
}

/// Where the row table starts.
pub open spec fn spec_rows_pos(b: Seq<u8>) -> int {
    if spec_buf_long_header(b) {
        0x50
    } else {
        0x30
    }
}

/// The byte size of one row record.
pub open spec fn spec_row_rec_size(b: Seq<u8>) -> int {
    if spec_has_u64_ofs_data(b[0x2D]) {
        0x18
    } else {
        0xC
    }
}

/// The name offset stored in the row record at `p`, widened to 64 bits.
pub open spec fn spec_row_ofs_name(b: Seq<u8>, p: int) -> int {
    if spec_has_u64_ofs_data(b[0x2D]) {
        u64_at(b, p + 0x10, spec_buf_be(b)) as int
    } else {
        u32_at(b, p + 8, spec_buf_be(b)) as int
    }
}

/// The data offset stored in the row record at `p`, widened to 64 bits.
pub open spec fn spec_row_ofs_data(b: Seq<u8>, p: int) -> int {
    if spec_has_u64_ofs_data(b[0x2D]) {
        u64_at(b, p + 8, spec_buf_be(b)) as int
    } else {
        u32_at(b, p + 4, spec_buf_be(b)) as int
    }
}

/// A buffer is a well-formed PARAM table when the header form fits, the
/// whole row table fits, the deferred name offset (when used) is in
/// bounds, and every row's name offset is zero or in bounds.
pub open spec fn spec_wf(b: Seq<u8>) -> bool {
    let be = spec_buf_be(b);
    &&& b.len() >= 0x30
    &&& (spec_buf_long_header(b) ==> b.len() >= 0x50)
    &&& spec_rows_pos(b) + spec_buf_num_rows(b) * spec_row_rec_size(b) <= b.len()
    &&& (spec_has_ofs_string_name(b[0x2D]) ==> u64_at(b, 0x10, be) <= b.len())
    &&& forall|k: int|
        0 <= k < spec_buf_num_rows(b) ==> spec_row_ofs_name(
            b,
            spec_rows_pos(b) + #[trigger] (k * spec_row_rec_size(b)),
        ) <= b.len()
}

/// One row record parsed from offset `p`, its name resolved when the
/// stored offset is nonzero (a legacy-decode failure leaves it absent).
pub open spec fn row_parsed_from(row: ParamRow, b: Seq<u8>, p: int) -> bool {
    let be = spec_buf_be(b);
    let has64 = spec_has_u64_ofs_data(b[0x2D]);
    &&& row.id == u32_at(b, p, be)
    &&& (if has64 {
        row.ofs_data matches VarSizeInt::U64(v) && v == u64_at(b, p + 8, be)
    } else {
        row.ofs_data matches VarSizeInt::U32(v) && v == u32_at(b, p + 4, be)
    })
    &&& (if has64 {
        row.ofs_name matches VarSizeInt::U64(v) && v == u64_at(b, p + 0x10, be)
    } else {
        row.ofs_name matches VarSizeInt::U32(v) && v == u32_at(b, p + 8, be)
    })
    &&& (if spec_row_ofs_name(b, p) == 0 {
        row.name is None
    } else {
        match sjis_of(cstr_at(b, spec_row_ofs_name(b, p))) {
            Some(s) => row.name matches Some(nm) && nm@ == s,
            None => row.name is None,
        }
    })
}

impl Param {
    /// The parse below fills the header and every row record; the
    /// param-type name comes from the strings block or from its inline
    /// slot, per the header flags.
    pub open spec fn parsed_from(self, b: Seq<u8>) -> bool {
        let be = spec_buf_be(b);
        let h = self.header;
        &&& h.ofs_strings == u32_at(b, 0, be)
        &&& h.ofs_data == u16_at(b, 4, be)
        &&& h.unk06 == u16_at(b, 6, be)
        &&& h.paramdef_data_version == u16_at(b, 8, be)
        &&& h.num_rows == u16_at(b, 0xA, be)
        &&& (if spec_has_ofs_string_name(b[0x2D]) {
            h.ofs_name matches Some(v) && v == u64_at(b, 0x10, be) && h.param_type@
                == utf8_lossy_of(cstr_at(b, u64_at(b, 0x10, be) as int))
        } else {
            h.ofs_name is None && h.param_type@ == utf8_lossy_of(cstr_at(b, 0xC))
        })
        &&& h.endianness == b[0x2C]
        &&& h.flags2d == b[0x2D]
        &&& h.flags2e == b[0x2E]
        &&& h.paramdef_format_version == b[0x2F]
        &&& (if spec_has_u32_ofs_data(b[0x2D]) {
            h.ofs_data_long matches Some(v) && v matches VarSizeInt::U32(x) && x == u32_at(
                b,
                0x30,
                be,
            )
        } else if spec_has_u64_ofs_data(b[0x2D]) {
            h.ofs_data_long matches Some(v) && v matches VarSizeInt::U64(x) && x == u64_at(
                b,
                0x30,
                be,
            )
        } else {
            h.ofs_data_long is None
        })
        &&& self.rows@.len() == spec_buf_num_rows(b)
        &&& forall|k: int|
            0 <= k < spec_buf_num_rows(b) ==> row_parsed_from(
                #[trigger] self.rows@[k],
                b,
                spec_rows_pos(b) + k * spec_row_rec_size(b),
            )
    }
}

/// The data block window of the row record at `p`: the `rsz` bytes the
/// schema defines, at the row's stored data offset.
pub open spec fn spec_row_window(b: Seq<u8>, p: int, rsz: int) -> Seq<u8> {
    b.subrange(spec_row_ofs_data(b, p), spec_row_ofs_data(b, p) + rsz)
}

/// Whether every row's data block can be decoded under the schema: the
/// schema itself is decodable, each nonzero data offset keeps its block
/// in bounds, and the decode consumes no more than the block.
pub open spec fn spec_data_ok(b: Seq<u8>, def: Paramdef) -> bool {
    &&& spec_consumed(def.fields@, def.fields@.len() as int) matches Some(c) && c.0
        <= u64::MAX
    &&& forall|k: int|
        0 <= k < spec_buf_num_rows(b) ==> {
            let p = spec_rows_pos(b) + #[trigger] (k * spec_row_rec_size(b));
            let rsz = spec_consumed_pos(def.fields@);
            spec_row_ofs_data(b, p) != 0 ==> {
                &&& spec_row_ofs_data(b, p) + rsz <= b.len()
                &&& (spec_state(
                    def.fields@,
                    spec_row_window(b, p, rsz),
                    spec_buf_be(b),
                    def.fields@.len() as int,
                ) matches Some(st) && st.0 <= rsz)
            }
        }
}

/// The total row width of a decodable schema.
pub open spec fn spec_consumed_pos(fields: Seq<ParamdefField>) -> int {
    match spec_consumed(fields, fields.len() as int) {
        Some(c) => c.0,
        None => 0,
    }
}

/// The decoded cells of the row at `p` under the schema.
pub open spec fn row_data_ok(vals: Seq<ParamRowValue>, b: Seq<u8>, p: int, def: Paramdef) -> bool {
    let rsz = spec_consumed_pos(def.fields@);
    let w = spec_row_window(b, p, rsz);
    &&& vals.len() == def.fields@.len()
    &&& forall|j: int|
        0 <= j < def.fields@.len() ==> value_matches(
            #[trigger] vals[j],
            def.fields@,
            w,
            spec_buf_be(b),
            j,
        )
}

/// Every row's data under the schema: decoded for nonzero data offsets,
/// empty otherwise.
pub open spec fn rows_data_resolved(rows: Seq<ParamRow>, b: Seq<u8>, def: Paramdef) -> bool {
    forall|k: int|
        0 <= k < rows.len() ==> {
            let p = spec_rows_pos(b) + #[trigger] (k * spec_row_rec_size(b));
            if spec_row_ofs_data(b, p) == 0 {
                rows[k].data@.len() == 0
            } else {
                row_data_ok(rows[k].data@, b, p, def)
            }
        }
}


/// Parse a PARAM table.
///
/// Returns the fully resolved structure exactly when the buffer is
/// well-formed and, when a schema is supplied, every row's data block
/// is in bounds and decodable under it. Without a schema, rows carry
/// empty data and only id and name are populated.
#[verifier::rlimit(100)]
pub fn parse(i: &[u8], paramdef: Option<&Paramdef>) -> (r: Result<Param, UnpackError>)
    ensures
        match r {
            Ok(param) => {
                &&& spec_wf(i@)
                &&& param.parsed_from(i@)
                &&& (match paramdef {
                    Some(def) => spec_data_ok(i@, *def) && rows_data_resolved(
                        param.rows@,
                        i@,
                        *def,
                    ),
                    None => forall|k: int|
                        0 <= k < param.rows@.len() ==> (#[trigger] param.rows@[k]).data@.len()
                            == 0,
                })
            },
            Err(e) => {
                &&& !(spec_wf(i@) && (paramdef matches Some(def) ==> spec_data_ok(i@, *def)))
                &&& (e matches UnpackError::Parsing(_) || e matches UnpackError::Unknown(_))
            },
        },
{
    let n = i.len();
    if n < 0x30 {
        return Err(UnpackError::parsing_err("PARAM", "truncated header"));
    }
    let endianness = read_u8(i, 0x2C);
    let be = endianness == 0xFF;
    let flags2d = read_u8(i, 0x2D);
    let has_sname = flags2d & 0x80 == 0x80;
    let has_u32 = flags2d & 0x03 == 0x03;
    let has_u64 = flags2d & 0x04 == 0x04;
    let long = has_u32 || has_u64;
    if long && n < 0x50 {
        return Err(UnpackError::parsing_err("PARAM", "truncated long header"));
    }

    let num_rows = read_u16(i, 0xA, be);
    let (param_type, ofs_name) = if has_sname {
        let v = read_u64(i, 0x10, be);
        if v > n as u64 {
            return Err(UnpackError::parsing_err("PARAM", "name offset out of bounds"));
        }
        let nb = take_cstring(i, v as usize);
        (utf8_to_string_lossy(nb.as_slice()), Some(v))
    } else {
        let (nb, _) = take_cstring_from(i, 0xC, 0x20);
        (utf8_to_string_lossy(nb.as_slice()), None)
    };
    let ofs_data_long: Option<VarSizeInt> = if has_u32 {
        Some(VarSizeInt::U32(read_u32(i, 0x30, be)))
    } else if has_u64 {
        Some(VarSizeInt::U64(read_u64(i, 0x30, be)))
    } else {
        None
    };
    let header = ParamHeader {
        ofs_strings: read_u32(i, 0, be),
        ofs_data: read_u16(i, 4, be),
        unk06: read_u16(i, 6, be),
        paramdef_data_version: read_u16(i, 8, be),
        num_rows,
        param_type,
        ofs_name,
        endianness,
        flags2d,
        flags2e: read_u8(i, 0x2E),
        paramdef_format_version: read_u8(i, 0x2F),
        ofs_data_long,
    };

    let rows_pos: usize = if long {
        0x50
    } else {
        0x30
    };
    let rsz: usize = if has_u64 {
        0x18
    } else {
        0xC
    };
    let num = num_rows as usize;
    proof {
        vstd::arithmetic::mul::lemma_mul_upper_bound(num as int, 0xFFFF, rsz as int, 0x18);
    }
    if (num as u64) * (rsz as u64) > n as u64 - rows_pos as u64 {
        return Err(UnpackError::parsing_err("PARAM", "row table out of bounds"));
    }

    let def_rsz: u64 = match paramdef {
        Some(def) => {
            match def.row_size() {
                Some(v) => v,
                None => {
                    return Err(
                        UnpackError::Unknown("schema has a field the row decoder rejects".to_owned()),
                    );
                },
            }
        },
        None => 0,
    };

    let mut rows: Vec<ParamRow> = Vec::new();
    let mut k: usize = 0;
    while k < num
        invariant
            n == i@.len() <= usize::MAX,
            n >= 0x30,
            be == spec_buf_be(i@),
            flags2d == i@[0x2D],
            has_u64 == spec_has_u64_ofs_data(flags2d),
            long == spec_buf_long_header(i@),
            long ==> n >= 0x50,
            num == spec_buf_num_rows(i@),
            rows_pos == spec_rows_pos(i@),
            rsz == spec_row_rec_size(i@),
            rows_pos + num * rsz <= n,
            (paramdef matches Some(def) ==> (spec_consumed(
                def.fields@,
                def.fields@.len() as int,
            ) matches Some(c) && c.0 == def_rsz)),
            0 <= k <= num,
            rows@.len() == k,
            forall|j: int|
                0 <= j < k ==> row_parsed_from(
                    #[trigger] rows@[j],
                    i@,
                    rows_pos + j * rsz,
                ),
            forall|j: int|
                0 <= j < k ==> spec_row_ofs_name(i@, rows_pos + #[trigger] (j * rsz)) <= n,
            forall|j: int|
                0 <= j < k ==> {
                    let p = spec_rows_pos(i@) + #[trigger] (j * spec_row_rec_size(i@));
                    match paramdef {
                        Some(def) => (spec_row_ofs_data(i@, p) != 0 ==> {
                            &&& spec_row_ofs_data(i@, p) + spec_consumed_pos(def.fields@)
                                <= n
                            &&& (spec_state(
                                def.fields@,
                                spec_row_window(i@, p, spec_consumed_pos(def.fields@)),
                                be,
                                def.fields@.len() as int,
                            ) matches Some(st) && st.0 <= spec_consumed_pos(def.fields@))
                        }) && (if spec_row_ofs_data(i@, p) == 0 {
                            rows@[j].data@.len() == 0
                        } else {
                            row_data_ok(rows@[j].data@, i@, p, *def)
                        }),
                        None => rows@[j].data@.len() == 0,
                    }
                },
        decreases num - k,
    {
        proof {
            vstd::arithmetic::mul::lemma_mul_inequality(k as int, num as int, rsz as int);
        }
        let p = rows_pos + k * rsz;
        proof {
            assert(p + rsz <= n) by (nonlinear_arith)
                requires
                    rows_pos + num * rsz <= n,
                    p == rows_pos + k * rsz,
                    0 <= k < num,
            ;
        }
        let id = read_u32(i, p, be);
        let (ofs_data, ofs_name) = if has_u64 {
            (
                VarSizeInt::U64(read_u64(i, p + 8, be)),
                VarSizeInt::U64(read_u64(i, p + 0x10, be)),
            )
        } else {
            (
                VarSizeInt::U32(read_u32(i, p + 4, be)),
                VarSizeInt::U32(read_u32(i, p + 8, be)),
            )
        };

        let onv = ofs_name.u64_if(has_u64);
        let name: Option<String> = if onv == 0 {
            None
        } else {
            if onv > n as u64 {
                return Err(UnpackError::parsing_err("PARAM", "row name offset out of bounds"));
            }
            let nb = take_cstring(i, onv as usize);
            sjis_to_string(nb.as_slice())
        };

        let odv = ofs_data.u64_if(has_u64);
        let data: Vec<ParamRowValue> = match paramdef {
            Some(def) => {
                if odv == 0 {
                    Vec::new()
                } else {
                    if odv > n as u64 || def_rsz > n as u64 - odv {
                        return Err(
                            UnpackError::parsing_err("PARAM", "row data offset out of bounds"),
                        );
                    }
                    let start = odv as usize;
                    let end = start + def_rsz as usize;
                    let window = vstd::slice::slice_subrange(i, start, end);
                    proof {
                        lemma_state_consumed(
                            def.fields@,
                            window@,
                            be,
                            def.fields@.len() as int,
                        );
                    }
                    match parse_row_data(window, be, def) {
                        Ok(vals) => vals,
                        Err(e) => {
                            return Err(e);
                        },
                    }
                }
            },
            None => Vec::new(),
        };

        rows.push(ParamRow { id, ofs_data, ofs_name, name, data });
        k = k + 1;
    }

    Ok(Param { header, rows })
}

/// Load a PARAM from a byte slice.
///
/// If a schema is provided, each row's data block is decoded under it;
/// else the PARAM is loaded with empty row data.
pub fn load_param(param_data: &[u8], paramdef: Option<&Paramdef>) -> (r: Result<
    Param,
    UnpackError,
>)
    ensures
        match r {
            Ok(param) => {
                &&& spec_wf(param_data@)
                &&& param.parsed_from(param_data@)
                &&& (match paramdef {
                    Some(def) => spec_data_ok(param_data@, *def) && rows_data_resolved(
                        param.rows@,
                        param_data@,
                        *def,
                    ),
                    None => forall|k: int|
                        0 <= k < param.rows@.len() ==> (#[trigger] param.rows@[k]).data@.len()
                            == 0,
                })
            },
            Err(e) => {
                &&& !(spec_wf(param_data@) && (paramdef matches Some(def) ==> spec_data_ok(
                    param_data@,
                    *def,
                )))
                &&& (e matches UnpackError::Parsing(_) || e matches UnpackError::Unknown(_))
            },
        },
{
    parse(param_data, paramdef)
}

} // verus!
