//! Flat archive (DAT): a fixed 0x40-byte header and fixed 0x40-byte
//! entries with inline fixed-slot names, all little-endian, plus the
//! writer that lays out a brand-new archive and fixes up every data
//! offset once the table size is known.
use vstd::prelude::*;

verus! {

use crate::bits::pad;
use crate::common::Pack;
use crate::common::cstr_len;
use crate::common::lemma_u32_le_roundtrip;
use crate::common::push_u32_le;
use crate::common::u32_le_bytes;
use crate::common::read_u32;
use crate::common::subrange_vec;
use crate::common::take_cstring_from;
use crate::common::u32_le;
use crate::common::utf8_lossy_of;
use crate::common::utf8_to_string_lossy;
use crate::errors::UnpackError;

/// The fixed byte size of the header block.
pub const HEADER_SIZE: usize = 0x40;

/// The constant stored in the header's first word.
pub const MAGIC: u32 = 0x1E048000;

/// Zero padding after the 8 meaningful header bytes.
pub const HEADER_PAD: usize = 0x38;

/// The fixed byte size of one file entry.
pub const FILE_ENTRY_SIZE: usize = 0x40;

/// The fixed name-slot width inside an entry.
pub const FILE_ENTRY_NAME_MAXLEN: usize = 0x34;

/// The alignment of every payload block and of the payload region.
pub const DATA_ALIGN: usize = 0x8000;

/// DAT header: one constant word and the file count.
#[derive(Clone, Copy, Debug, PartialEq, Eq, Structural)]
pub struct DatHeader {
    pub unk00: u32,
    pub num_files: u32,
}

/// One file entry: inline name, byte size, size padded to the data
/// alignment, and the data offset from the start of the file.
#[derive(Clone, Debug)]
pub struct DatFileEntry {
    pub name: String,
    pub size: u32,
    pub padded_size: u32,
    pub ofs_data: u32,
}

/// A parsed DAT archive.
#[derive(Debug)]
pub struct Dat {
    pub header: DatHeader,
    pub files: Vec<DatFileEntry>,
}

/// The header stored at the start of the buffer.
pub open spec fn spec_header(b: Seq<u8>) -> DatHeader {
    DatHeader { unk00: u32_le(b, 0), num_files: u32_le(b, 4) }
}

/// The byte offset of entry `k`.
pub open spec fn spec_entry_pos(k: int) -> int {
    0x40 + 0x40 * k
}

/// One entry parsed from offset `p`: the name is the lossy UTF-8
/// decoding of the null-terminated span starting at the slot, and the
/// three numeric fields follow the slot.
pub open spec fn entry_parsed_from(e: DatFileEntry, b: Seq<u8>, p: int) -> bool {
    &&& e.name@ == utf8_lossy_of(b.subrange(p, p + cstr_len(b, p)))
    &&& e.size == u32_le(b, p + 0x34)
    &&& e.padded_size == u32_le(b, p + 0x38)
    &&& e.ofs_data == u32_le(b, p + 0x3C)
}

/// A buffer is a well-formed DAT archive when the header block and the
/// whole entry table fit.
pub open spec fn spec_wf(b: Seq<u8>) -> bool {
    &&& b.len() >= 0x40
    &&& 0x40 + 0x40 * (u32_le(b, 4) as int) <= b.len()
}

impl Dat {
    /// The parse below fills the header and every entry of the table.
    pub open spec fn parsed_from(self, b: Seq<u8>) -> bool {
        &&& self.header == spec_header(b)
        &&& self.files@.len() == u32_le(b, 4) as int
        &&& forall|k: int|
            0 <= k < u32_le(b, 4) as int ==> entry_parsed_from(
                #[trigger] self.files@[k],
                b,
                spec_entry_pos(k),
            )
    }
}

/// Parse a DAT archive.
///
/// Returns the fully resolved structure exactly when the header block
/// and the declared entry table fit in the buffer.
pub fn parse(i: &[u8]) -> (r: Result<Dat, UnpackError>)
    ensures
        match r {
            Ok(dat) => spec_wf(i@) && dat.parsed_from(i@),
            Err(e) => !spec_wf(i@) && e matches UnpackError::Parsing(_),
        },
{
    let n = i.len();
    if n < 0x40 {
        return Err(UnpackError::parsing_err("DAT", "truncated header"));
    }
    let header = DatHeader { unk00: read_u32(i, 0, false), num_files: read_u32(i, 4, false) };
    if 0x40u64 + 0x40 * (header.num_files as u64) > n as u64 {
        return Err(UnpackError::parsing_err("DAT", "entry table out of bounds"));
    }
    let num = header.num_files as usize;

    let mut files: Vec<DatFileEntry> = Vec::new();
    let mut k: usize = 0;
    while k < num
        invariant
            num == u32_le(i@, 4) as int,
            0x40 + 0x40 * num <= n == i@.len(),
            n <= usize::MAX,
            0 <= k <= num,
            files@.len() == k,
            forall|j: int|
                0 <= j < k ==> entry_parsed_from(#[trigger] files@[j], i@, spec_entry_pos(j)),
        decreases num - k,
    {
        let p = 0x40 + 0x40 * k;
        let (name_bytes, cur) = take_cstring_from(i, p, 0x34);
        let name = utf8_to_string_lossy(name_bytes.as_slice());
        let size = read_u32(i, cur, false);
        let padded_size = read_u32(i, cur + 4, false);
        let ofs_data = read_u32(i, cur + 8, false);
        files.push(DatFileEntry { name, size, padded_size, ofs_data });
        k = k + 1;
    }

    Ok(Dat { header, files })
}

/// Copy one entry's payload out of the archive bytes.
///
/// The exact `[ofs_data, ofs_data + size)` slice; an out-of-bounds range
/// is a fatal parse error.
pub fn entry_data(file_entry: &DatFileEntry, data: &[u8]) -> (r: Result<Vec<u8>, UnpackError>)
    ensures
        match r {
            Ok(v) => file_entry.ofs_data + file_entry.size <= data@.len() && v@ == data@.subrange(
                file_entry.ofs_data as int,
                file_entry.ofs_data + file_entry.size,
            ),
            Err(e) => file_entry.ofs_data + file_entry.size > data@.len() && e
                matches UnpackError::Parsing(_),
        },
{
    let n = data.len();
    if file_entry.ofs_data as u64 + file_entry.size as u64 > n as u64 {
        return Err(UnpackError::parsing_err("DAT", "entry data out of bounds"));
    }
    let start = file_entry.ofs_data as usize;
    let end = start + file_entry.size as usize;
    Ok(subrange_vec(data, start, end))
}


/// Load a DAT archive from a byte slice.
pub fn load_dat(dat_data: &[u8]) -> (r: Result<Dat, UnpackError>)
    ensures
        match r {
            Ok(dat) => spec_wf(dat_data@) && dat.parsed_from(dat_data@),
            Err(e) => !spec_wf(dat_data@) && e matches UnpackError::Parsing(_),
        },
{
    parse(dat_data)
}


// --- Serialization ---

/// A run of zero bytes.
pub open spec fn zero_bytes(n: int) -> Seq<u8> {
    Seq::new(n as nat, |i: int| 0u8)
}

/// The padding that rounds `n` up to a multiple of `a`: the spec twin of
/// `bits::pad`.
pub open spec fn spec_pad(n: int, a: int) -> int {
    (a - n % a) % a
}

/// Append `count` zero bytes.
fn push_zeros(out: &mut Vec<u8>, count: usize)
    requires
        old(out)@.len() + count <= usize::MAX,
    ensures
        final(out)@ == old(out)@ + zero_bytes(count as int),
{
    let mut z: usize = 0;
    while z < count
        invariant
            0 <= z <= count,
            out@ =~= old(out)@ + zero_bytes(z as int),
        decreases count - z,
    {
        out.push(0);
        proof {
            assert(out@ =~= old(out)@ + zero_bytes(z + 1));
        }
        z = z + 1;
    }
}

impl Pack for DatHeader {
    open spec fn bytes(&self) -> Seq<u8> {
        u32_le_bytes(self.unk00) + u32_le_bytes(self.num_files)
    }

    fn write(&self, out: &mut Vec<u8>) -> (n: usize) {
        push_u32_le(out, self.unk00);
        push_u32_le(out, self.num_files);
        proof {
            assert(out@ =~= old(out)@ + self.bytes());
        }
        8
    }
}

impl Pack for DatFileEntry {
    open spec fn bytes(&self) -> Seq<u8> {
        let nb = vstd::utf8::encode_utf8(self.name@);
        nb + zero_bytes(spec_pad(nb.len() as int, 0x34)) + u32_le_bytes(self.size) + u32_le_bytes(
            self.padded_size,
        ) + u32_le_bytes(self.ofs_data)
    }

    fn write(&self, out: &mut Vec<u8>) -> (n: usize) {
        let name_bytes = self.name.as_str().as_bytes();
        out.extend_from_slice(name_bytes);
        let padding = pad(name_bytes.len(), 0x34);
        push_zeros(out, padding);
        push_u32_le(out, self.size);
        push_u32_le(out, self.padded_size);
        push_u32_le(out, self.ofs_data);
        proof {
            assert(out@ =~= old(out)@ + self.bytes());
        }
        name_bytes.len() + padding + 12
    }
}

/// Round-trip law for the header: re-serializing a parsed header
/// reproduces its eight meaningful on-disk bytes.
pub proof fn lemma_dat_header_roundtrip(h: DatHeader, b: Seq<u8>)
    requires
        b.len() >= 8,
        h == spec_header(b),
    ensures
        h.bytes() =~= b.subrange(0, 8),
{
    lemma_u32_le_roundtrip(b, 0);
    lemma_u32_le_roundtrip(b, 4);
}

/// Round-trip law for one entry: re-serializing a parsed entry
/// reproduces its 0x40 on-disk bytes, whenever the stored name
/// terminates inside its slot, the rest of the slot is zero, and the
/// name's text re-encodes to the stored bytes (lossy decoding changed
/// nothing).
pub proof fn lemma_dat_entry_roundtrip(e: DatFileEntry, b: Seq<u8>, p: int)
    requires
        0 <= p,
        p + 0x40 <= b.len(),
        entry_parsed_from(e, b, p),
        entry_canonical(e, b, p),
    ensures
        e.bytes() =~= b.subrange(p, p + 0x40),
{
    let l = cstr_len(b, p);
    crate::common::lemma_cstr_len(b, p);
    let nb = vstd::utf8::encode_utf8(e.name@);
    assert(nb.len() == l);
    assert(spec_pad(l, 0x34) == 0x34 - l) by (nonlinear_arith)
        requires
            0 < l < 0x34,
    ;
    assert(zero_bytes(spec_pad(nb.len() as int, 0x34)) =~= b.subrange(p + l, p + 0x34));
    lemma_u32_le_roundtrip(b, p + 0x34);
    lemma_u32_le_roundtrip(b, p + 0x38);
    lemma_u32_le_roundtrip(b, p + 0x3C);
}

/// The first `k` parsed entries re-serialized in order.
pub open spec fn files_bytes(files: Seq<DatFileEntry>, k: int) -> Seq<u8>
    decreases k,
{
    if k <= 0 {
        Seq::empty()
    } else {
        files_bytes(files, k - 1) + files[k - 1].bytes()
    }
}

/// The conditions under which a parsed entry's bytes are canonical: its
/// name terminates inside the slot, the rest of the slot is zero, and
/// the decoded name re-encodes to the stored bytes.
pub open spec fn entry_canonical(e: DatFileEntry, b: Seq<u8>, p: int) -> bool {
    &&& 0 < cstr_len(b, p) < 0x34
    &&& (forall|i: int| p + cstr_len(b, p) <= i < p + 0x34 ==> b[i] == 0)
    &&& vstd::utf8::encode_utf8(e.name@) == b.subrange(p, p + cstr_len(b, p))
}

/// The entry table re-serializes to its exact on-disk bytes.
proof fn lemma_files_bytes_prefix(dat: Dat, b: Seq<u8>, k: int)
    requires
        spec_wf(b),
        dat.parsed_from(b),
        0 <= k <= u32_le(b, 4) as int,
        forall|j: int|
            0 <= j < u32_le(b, 4) as int ==> entry_canonical(
                #[trigger] dat.files@[j],
                b,
                spec_entry_pos(j),
            ),
    ensures
        files_bytes(dat.files@, k) =~= b.subrange(0x40, 0x40 + 0x40 * k),
    decreases k,
{
    if k > 0 {
        lemma_files_bytes_prefix(dat, b, k - 1);
        lemma_dat_entry_roundtrip(dat.files@[k - 1], b, spec_entry_pos(k - 1));
        assert(files_bytes(dat.files@, k) =~= b.subrange(0x40, 0x40 + 0x40 * (k - 1))
            + b.subrange(spec_entry_pos(k - 1), spec_entry_pos(k - 1) + 0x40));
    }
}

/// Round-trip law for the whole archive prefix: re-serializing a parsed
/// header and entry table reproduces the original bytes up to the data
/// region, whenever the header padding is zero and every entry is
/// canonical (nothing the lossy name decoding changed).
pub proof fn lemma_dat_roundtrip(dat: Dat, b: Seq<u8>)
    requires
        spec_wf(b),
        dat.parsed_from(b),
        forall|i: int| 8 <= i < 0x40 ==> b[i] == 0,
        forall|j: int|
            0 <= j < u32_le(b, 4) as int ==> entry_canonical(
                #[trigger] dat.files@[j],
                b,
                spec_entry_pos(j),
            ),
    ensures
        dat.header.bytes() + zero_bytes(0x38) + files_bytes(
            dat.files@,
            dat.files@.len() as int,
        ) =~= b.subrange(0, 0x40 + 0x40 * (u32_le(b, 4) as int)),
{
    lemma_dat_header_roundtrip(dat.header, b);
    assert(zero_bytes(0x38) =~= b.subrange(8, 0x40));
    lemma_files_bytes_prefix(dat, b, u32_le(b, 4) as int);
}

// --- Writer ---

/// The payload region the writer accumulates for a list of files: each
/// file's bytes followed by its alignment padding, in walk order.
pub open spec fn payload_of(files: Seq<(String, Vec<u8>)>) -> Seq<u8>
    decreases files.len(),
{
    if files.len() == 0 {
        Seq::empty()
    } else {
        payload_of(files.drop_last()) + files.last().1@ + zero_bytes(
            spec_pad(files.last().1@.len() as int, 0x8000),
        )
    }
}

/// Appending one record extends the serialized table by one step.
proof fn lemma_entries_step(
    head: Seq<u8>,
    files: Seq<(String, Vec<u8>)>,
    k: int,
    base: int,
    pre: Seq<u8>,
    rec: Seq<u8>,
)
    requires
        0 <= k,
        pre == head + entries_bytes(files, k, base),
        rec == spec_entry_record(files, k, base),
    ensures
        pre + rec =~= head + entries_bytes(files, k + 1, base),
{
}

/// A shifted entry serializes to exactly the spec record for file `k`.
proof fn lemma_shifted_entry_bytes(
    e: DatFileEntry,
    files: Seq<(String, Vec<u8>)>,
    k: int,
    base: int,
)
    requires
        0 <= k < files.len(),
        e.name@ == files[k].0@,
        e.size == files[k].1@.len() as u32,
        e.padded_size == files[k].1@.len() + spec_pad(files[k].1@.len() as int, 0x8000),
        e.ofs_data == base + payload_of(files.take(k)).len(),
    ensures
        e.bytes() =~= spec_entry_record(files, k, base),
{
}

/// The record the writer serializes for file `k`, its data offset
/// already shifted by the final data-region base.
pub open spec fn spec_entry_record(files: Seq<(String, Vec<u8>)>, k: int, base: int) -> Seq<u8> {
    let nb = vstd::utf8::encode_utf8(files[k].0@);
    nb + zero_bytes(spec_pad(nb.len() as int, 0x34)) + u32_le_bytes(files[k].1@.len() as u32)
        + u32_le_bytes((files[k].1@.len() + spec_pad(files[k].1@.len() as int, 0x8000)) as u32)
        + u32_le_bytes((base + payload_of(files.take(k)).len()) as u32)
}

/// The first `k` entry records serialized in order.
pub open spec fn entries_bytes(files: Seq<(String, Vec<u8>)>, k: int, base: int) -> Seq<u8>
    decreases k,
{
    if k <= 0 {
        Seq::empty()
    } else {
        entries_bytes(files, k - 1, base) + spec_entry_record(files, k - 1, base)
    }
}

/// Each serialized record is exactly 0x40 bytes when its name is
/// nonempty and fits the slot.
proof fn lemma_entries_bytes_len(files: Seq<(String, Vec<u8>)>, k: int, base: int)
    requires
        0 <= k <= files.len(),
        forall|j: int|
            0 <= j < files.len() ==> 0 < vstd::utf8::encode_utf8((#[trigger] files[j]).0@).len()
                < 0x34,
    ensures
        entries_bytes(files, k, base).len() == 0x40 * k,
    decreases k,
{
    if k > 0 {
        lemma_entries_bytes_len(files, k - 1, base);
        let nb = vstd::utf8::encode_utf8(files[k - 1].0@);
        assert(spec_pad(nb.len() as int, 0x34) == 0x34 - nb.len()) by (nonlinear_arith)
            requires
                0 < nb.len() < 0x34,
        ;
    }
}

/// Where the data region starts: header, entry table, then padding up
/// to the data alignment.
pub open spec fn spec_data_base(num: int) -> int {
    0x40 + num * 0x40 + spec_pad(0x40 + num * 0x40, 0x8000)
}

/// The complete archive the writer emits for a list of files.
pub open spec fn spec_dat_bytes(files: Seq<(String, Vec<u8>)>) -> Seq<u8> {
    let num = files.len() as int;
    let base = spec_data_base(num);
    u32_le_bytes(MAGIC) + u32_le_bytes(num as u32) + zero_bytes(0x38) + entries_bytes(
        files,
        num,
        base,
    ) + zero_bytes(spec_pad(0x40 + num * 0x40, 0x8000)) + payload_of(files)
}

/// The format can hold these files: every name fits its slot with a
/// terminator, every padded size fits 32 bits, and the whole archive
/// stays within 32-bit offsets.
pub open spec fn spec_sizes_ok(files: Seq<(String, Vec<u8>)>) -> bool {
    &&& files.len() < 0x1_0000_0000
    &&& forall|k: int|
        0 <= k < files.len() ==> 0 < vstd::utf8::encode_utf8((#[trigger] files[k]).0@).len()
            < 0x34
    &&& spec_data_base(files.len() as int) + payload_of(files).len() < 0x1_0000_0000
}

/// The growth of the payload region, one file at a time.
proof fn lemma_payload_step(files: Seq<(String, Vec<u8>)>, k: int)
    requires
        0 <= k < files.len(),
    ensures
        payload_of(files.take(k + 1)) =~= payload_of(files.take(k)) + files[k].1@ + zero_bytes(
            spec_pad(files[k].1@.len() as int, 0x8000),
        ),
{
    assert(files.take(k + 1).drop_last() =~= files.take(k));
    assert(files.take(k + 1).last() == files[k]);
}

/// Payload prefixes only grow.
proof fn lemma_payload_mono(files: Seq<(String, Vec<u8>)>, k: int)
    requires
        0 <= k <= files.len(),
    ensures
        payload_of(files.take(k)).len() <= payload_of(files).len(),
    decreases files.len() - k,
{
    if k == files.len() {
        assert(files.take(k) =~= files);
    } else {
        lemma_payload_step(files, k);
        lemma_payload_mono(files, k + 1);
        assert(payload_of(files.take(k)).len() <= payload_of(files.take(k + 1)).len());
    }
}


/// Pack one file: append its entry (data offset still relative to the
/// payload accumulator) and its padded bytes to the accumulator.
pub fn pack_dat_entry(
    internal_name: String,
    data: &Vec<u8>,
    entries: &mut Vec<DatFileEntry>,
    files_data: &mut Vec<u8>,
)
    requires
        data@.len() + spec_pad(data@.len() as int, 0x8000) <= u32::MAX,
        old(files_data)@.len() <= u32::MAX,
        old(files_data)@.len() + data@.len() + spec_pad(data@.len() as int, 0x8000) <= usize::MAX,
    ensures
        final(entries)@.len() == old(entries)@.len() + 1,
        final(entries)@.subrange(0, old(entries)@.len() as int) == old(entries)@,
        ({
            let e = final(entries)@.last();
            &&& e.name == internal_name
            &&& e.size == data@.len() as u32
            &&& e.padded_size == data@.len() + spec_pad(data@.len() as int, 0x8000)
            &&& e.ofs_data == old(files_data)@.len() as u32
        }),
        final(files_data)@ == old(files_data)@ + data@ + zero_bytes(
            spec_pad(data@.len() as int, 0x8000),
        ),
{
    let file_size = data.len() as u32;
    let padding = pad(data.len(), 0x8000);
    entries.push(
        DatFileEntry {
            name: internal_name,
            size: file_size,
            padded_size: file_size + padding as u32,
            ofs_data: files_data.len() as u32,
        },
    );
    files_data.extend_from_slice(data.as_slice());
    push_zeros(files_data, padding);
    proof {
        assert(entries@.subrange(0, old(entries)@.len() as int) =~= old(entries)@);
    }
}

/// Pack a list of files as a DAT archive, in the given order.
///
/// Two passes: accumulate entries with offsets relative to the payload
/// region, then shift every offset by the final header + table +
/// padding base and serialize header, table, table padding and payload.
#[verifier::rlimit(100)]
pub fn pack_dat(files: &Vec<(String, Vec<u8>)>) -> (out: Vec<u8>)
    requires
        spec_sizes_ok(files@),
    ensures
        out@ == spec_dat_bytes(files@),
{
    let n = files.len();
    let mut entries: Vec<DatFileEntry> = Vec::new();
    let mut files_data: Vec<u8> = Vec::new();
    let mut k: usize = 0;
    while k < n
        invariant
            spec_sizes_ok(files@),
            n == files@.len(),
            0 <= k <= n,
            entries@.len() == k,
            forall|j: int|
                0 <= j < k ==> {
                    let e = #[trigger] entries@[j];
                    &&& e.name@ == files@[j].0@
                    &&& e.size == files@[j].1@.len() as u32
                    &&& e.padded_size == files@[j].1@.len() + spec_pad(
                        files@[j].1@.len() as int,
                        0x8000,
                    )
                    &&& e.ofs_data == payload_of(files@.take(j)).len()
                },
            files_data@ == payload_of(files@.take(k as int)),
        decreases n - k,
    {
        proof {
            lemma_payload_step(files@, k as int);
            lemma_payload_mono(files@, k + 1);
            assert(files@.take(k + 1) =~= files@.take(k as int).push(files@[k as int]));
        }
        let (name, data) = &files[k];
        pack_dat_entry(name.clone(), data, &mut entries, &mut files_data);
        proof {
            assert(forall|j: int|
                0 <= j < k ==> #[trigger] entries@[j] == entries@.subrange(0, k as int)[j]);
        }
        k = k + 1;
    }
    proof {
        assert(files@.take(n as int) =~= files@);
    }

    let entries_size = n * 0x40;
    proof {
        assert(spec_pad(0x40 + entries_size, 0x8000) >= 0 && spec_pad(0x40 + entries_size, 0x8000)
            < 0x8000) by (nonlinear_arith);
    }
    let table_pad = pad(0x40 + entries_size, 0x8000);
    let base = 0x40 + entries_size + table_pad;
    proof {
        assert(base == spec_data_base(n as int));
    }

    let mut out: Vec<u8> = Vec::new();
    let header = DatHeader { unk00: MAGIC, num_files: n as u32 };
    header.write(&mut out);
    push_zeros(&mut out, 0x38);

    let mut k: usize = 0;
    while k < n
        invariant
            spec_sizes_ok(files@),
            n == files@.len(),
            base == spec_data_base(n as int),
            base + payload_of(files@).len() < 0x1_0000_0000,
            0 <= k <= n,
            entries@.len() == n,
            forall|j: int|
                0 <= j < n ==> {
                    let e = #[trigger] entries@[j];
                    &&& e.name@ == files@[j].0@
                    &&& e.size == files@[j].1@.len() as u32
                    &&& e.padded_size == files@[j].1@.len() + spec_pad(
                        files@[j].1@.len() as int,
                        0x8000,
                    )
                    &&& e.ofs_data == payload_of(files@.take(j)).len()
                },
            out@ == u32_le_bytes(MAGIC) + u32_le_bytes(n as u32) + zero_bytes(0x38)
                + entries_bytes(files@, k as int, base as int),
        decreases n - k,
    {
        proof {
            lemma_payload_mono(files@, k as int);
            lemma_entries_bytes_len(files@, k as int, base as int);
        }
        let e = &entries[k];
        let shifted = DatFileEntry {
            name: e.name.clone(),
            size: e.size,
            padded_size: e.padded_size,
            ofs_data: e.ofs_data + base as u32,
        };
        proof {
            assert(out@.len() == 8 + 0x38 + 0x40 * k);
            assert(shifted.bytes().len() < 0x40 + 0x34) by {
                assert(0 <= spec_pad(
                    vstd::utf8::encode_utf8(shifted.name@).len() as int,
                    0x34,
                ) < 0x34) by (nonlinear_arith);
            };
        }
        let ghost pre = out@;
        shifted.write(&mut out);
        proof {
            lemma_shifted_entry_bytes(shifted, files@, k as int, base as int);
            lemma_entries_step(
                u32_le_bytes(MAGIC) + u32_le_bytes(n as u32) + zero_bytes(0x38),
                files@,
                k as int,
                base as int,
                pre,
                shifted.bytes(),
            );
        }
        k = k + 1;
    }

    proof {
        lemma_entries_bytes_len(files@, n as int, base as int);
    }
    push_zeros(&mut out, table_pad);
    out.extend_from_slice(files_data.as_slice());
    proof {
        assert(out@ =~= spec_dat_bytes(files@));
    }
    out
}

} // verus!
