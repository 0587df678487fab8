//! Bucketed-hash archive index (BHD): a header followed by a table of
//! (count, offset) bucket locations, each addressing an independent array
//! of (hash, size, offset) entry records elsewhere in the buffer.
use vstd::prelude::*;

verus! {

use crate::common::u32_le;
use crate::common::u64_le;
use crate::common::read_i8;
use crate::common::read_u32;
use crate::common::read_u64;
use crate::common::signed8;
use crate::errors::UnpackError;
use crate::common::subrange_vec;
use crate::name_hashes::NameMap;
use crate::name_hashes::hash_as_string;
use crate::name_hashes::hex8_of;
use crate::name_hashes::lookup_spec;

/// The four magic bytes that begin a BHD file, read as one little-endian
/// word.
pub const MAGIC: u32 = 0x35444842;

/// The fixed byte size of the header.
pub const HEADER_SIZE: usize = 0x18;

/// BHD header: magic, per-platform flag bytes, total file length, bucket
/// count and bucket-table offset.
#[derive(Clone, Copy, Debug, PartialEq, Eq, Structural)]
pub struct BhdHeader {
    pub magic: u32,
    pub unk04: i8,
    pub unk05: i8,
    pub unk06: i8,
    pub unk07: i8,
    pub unk08: u32,
    pub file_len: u32,
    pub num_buckets: u32,
    pub ofs_buckets: u32,
}

/// One bucket location: `count` entry records live at `offset` from the
/// start of the whole buffer.
#[derive(Clone, Copy, Debug, PartialEq, Eq, Structural)]
pub struct BhdBucketInfo {
    pub count: u32,
    pub offset: u32,
}

/// One entry record: content hash, payload size and offset into the
/// companion data file.
#[derive(Clone, Copy, Debug, PartialEq, Eq, Structural)]
pub struct BhdFile {
    pub hash: u32,
    pub size: u32,
    pub offset: u64,
}

/// The header stored at the start of the buffer.
pub open spec fn spec_header(b: Seq<u8>) -> BhdHeader {
    BhdHeader {
        magic: u32_le(b, 0),
        unk04: signed8(b[4]),
        unk05: signed8(b[5]),
        unk06: signed8(b[6]),
        unk07: signed8(b[7]),
        unk08: u32_le(b, 8),
        file_len: u32_le(b, 0xC),
        num_buckets: u32_le(b, 0x10),
        ofs_buckets: u32_le(b, 0x14),
    }
}

/// The bucket-location record at table index `k`.
pub open spec fn spec_bucket_info(b: Seq<u8>, k: int) -> BhdBucketInfo {
    BhdBucketInfo { count: u32_le(b, 0x18 + 8 * k), offset: u32_le(b, 0x1C + 8 * k) }
}

/// The entry record stored at byte offset `p`.
pub open spec fn spec_file(b: Seq<u8>, p: int) -> BhdFile {
    BhdFile { hash: u32_le(b, p), size: u32_le(b, p + 4), offset: u64_le(b, p + 8) }
}

/// A buffer is a well-formed BHD file when the magic matches, the
/// bucket-location table fits, and every bucket's entry array lies inside
/// the buffer.
pub open spec fn spec_wf(b: Seq<u8>) -> bool {
    &&& b.len() >= 0x18
    &&& u32_le(b, 0) == MAGIC
    &&& 0x18 + 8 * (u32_le(b, 0x10) as int) <= b.len()
    &&& forall|k: int|
        0 <= k < u32_le(b, 0x10) as int ==> (#[trigger] spec_bucket_info(b, k)).offset
            + 16 * spec_bucket_info(b, k).count <= b.len()
}

/// A parsed BHD index: the header, the bucket-location table, and each
/// bucket's entry array.
#[derive(Debug)]
pub struct Bhd {
    pub header: BhdHeader,
    pub bucket_infos: Vec<BhdBucketInfo>,
    pub buckets: Vec<Vec<BhdFile>>,
}

impl Bhd {
    /// The parse below fills every field from the buffer it was given.
    pub open spec fn parsed_from(self, b: Seq<u8>) -> bool {
        let num = u32_le(b, 0x10) as int;
        &&& self.header == spec_header(b)
        &&& self.bucket_infos@.len() == num
        &&& forall|k: int| 0 <= k < num ==> self.bucket_infos@[k] == spec_bucket_info(b, k)
        &&& self.buckets@.len() == num
        &&& forall|k: int|
            0 <= k < num ==> (#[trigger] self.buckets@[k])@.len() == spec_bucket_info(
                b,
                k,
            ).count as int
        &&& forall|k: int, j: int|
            0 <= k < num && 0 <= j < spec_bucket_info(b, k).count as int ==> (
            #[trigger] self.buckets@[k]@[j]) == spec_file(
                b,
                spec_bucket_info(b, k).offset + 16 * j,
            )
    }
}

/// Parse one entry record from the start of the slice.
pub fn parse_file(i: &[u8]) -> (r: Result<BhdFile, UnpackError>)
    ensures
        match r {
            Ok(f) => i@.len() >= 16 && f == spec_file(i@, 0),
            Err(e) => i@.len() < 16 && e matches UnpackError::Parsing(_),
        },
{
    if i.len() < 16 {
        return Err(UnpackError::parsing_err("BHD", "truncated entry record"));
    }
    Ok(
        BhdFile {
            hash: read_u32(i, 0, false),
            size: read_u32(i, 4, false),
            offset: read_u64(i, 8, false),
        },
    )
}

/// Parse a BHD index.
///
/// Returns the fully resolved structure exactly when the buffer is a
/// well-formed BHD file; any truncation, bad magic or out-of-bounds
/// bucket is a fatal parse error.
pub fn parse(i: &[u8]) -> (r: Result<Bhd, UnpackError>)
    ensures
        match r {
            Ok(bhd) => spec_wf(i@) && bhd.parsed_from(i@),
            Err(e) => !spec_wf(i@) && e matches UnpackError::Parsing(_),
        },
{
    let n = i.len();
    if n < 0x18 {
        return Err(UnpackError::parsing_err("BHD", "truncated header"));
    }
    let magic = read_u32(i, 0, false);
    if magic != MAGIC {
        return Err(UnpackError::parsing_err("BHD", "bad magic"));
    }
    let header = BhdHeader {
        magic,
        unk04: read_i8(i, 4),
        unk05: read_i8(i, 5),
        unk06: read_i8(i, 6),
        unk07: read_i8(i, 7),
        unk08: read_u32(i, 8, false),
        file_len: read_u32(i, 0xC, false),
        num_buckets: read_u32(i, 0x10, false),
        ofs_buckets: read_u32(i, 0x14, false),
    };
    let num = header.num_buckets as u64;
    if 0x18u64 + 8 * num > n as u64 {
        return Err(UnpackError::parsing_err("BHD", "bucket table out of bounds"));
    }
    let num = header.num_buckets as usize;

    let mut bucket_infos: Vec<BhdBucketInfo> = Vec::new();
    let mut k: usize = 0;
    while k < num
        invariant
            num == u32_le(i@, 0x10) as int,
            0x18 + 8 * num <= n == i@.len(),
            0 <= k <= num,
            bucket_infos@.len() == k,
            forall|j: int| 0 <= j < k ==> bucket_infos@[j] == spec_bucket_info(i@, j),
        decreases num - k,
    {
        let count = read_u32(i, 0x18 + 8 * k, false);
        let offset = read_u32(i, 0x1C + 8 * k, false);
        bucket_infos.push(BhdBucketInfo { count, offset });
        k = k + 1;
    }

    let mut buckets: Vec<Vec<BhdFile>> = Vec::new();
    let mut k: usize = 0;
    while k < num
        invariant
            num == u32_le(i@, 0x10) as int,
            0x18 + 8 * num <= n == i@.len(),
            n <= usize::MAX,
            0 <= k <= num,
            bucket_infos@.len() == num,
            forall|j: int| 0 <= j < num ==> bucket_infos@[j] == spec_bucket_info(i@, j),
            buckets@.len() == k,
            forall|j: int|
                0 <= j < k ==> (#[trigger] spec_bucket_info(i@, j)).offset + 16
                    * spec_bucket_info(i@, j).count <= n,
            forall|j: int|
                0 <= j < k ==> (#[trigger] buckets@[j])@.len() == spec_bucket_info(
                    i@,
                    j,
                ).count as int,
            forall|j: int, l: int|
                0 <= j < k && 0 <= l < spec_bucket_info(i@, j).count as int ==> (
                #[trigger] buckets@[j]@[l]) == spec_file(
                    i@,
                    spec_bucket_info(i@, j).offset + 16 * l,
                ),
        decreases num - k,
    {
        let info = bucket_infos[k];
        if info.offset as u64 + 16 * (info.count as u64) > n as u64 {
            return Err(UnpackError::parsing_err("BHD", "bucket out of bounds"));
        }
        let count = info.count as usize;
        let base = info.offset as usize;
        let mut bucket: Vec<BhdFile> = Vec::new();
        let mut j: usize = 0;
        while j < count
            invariant
                base + 16 * count <= n == i@.len(),
                n <= usize::MAX,
                0 <= j <= count,
                bucket@.len() == j,
                forall|l: int| 0 <= l < j ==> bucket@[l] == spec_file(i@, base + 16 * l),
            decreases count - j,
        {
            let p = base + 16 * j;
            bucket.push(
                BhdFile {
                    hash: read_u32(i, p, false),
                    size: read_u32(i, p + 4, false),
                    offset: read_u64(i, p + 8, false),
                },
            );
            j = j + 1;
        }
        buckets.push(bucket);
        k = k + 1;
    }

    Ok(Bhd { header, bucket_infos, buckets })
}


// --- Extraction ---

/// One entry made ready for extraction: the relative output path (the
/// looked-up name, or the hash rendered as eight hex digits on a
/// name-table miss), whether the name table had it, and the payload
/// bytes copied from the companion data file.
#[derive(Debug)]
pub struct BhdEntryFile {
    pub path: String,
    pub named: bool,
    pub data: Vec<u8>,
}

/// The number of entries in the first `j` buckets.
pub open spec fn count_prefix(buckets: Seq<Vec<BhdFile>>, j: int) -> int
    decreases j,
{
    if j <= 0 {
        0
    } else {
        count_prefix(buckets, j - 1) + buckets[j - 1]@.len()
    }
}

/// Earlier buckets contribute no more entries than later prefixes hold.
proof fn lemma_count_prefix_mono(buckets: Seq<Vec<BhdFile>>, a: int, j: int)
    requires
        0 <= a <= j,
    ensures
        count_prefix(buckets, a) <= count_prefix(buckets, j),
        0 <= count_prefix(buckets, a),
    decreases j - a + a,
{
    if a > 0 {
        lemma_count_prefix_mono(buckets, a - 1, a - 1);
    }
    if a < j {
        lemma_count_prefix_mono(buckets, a, j - 1);
    }
}

/// Whether every entry's payload range lies inside the companion data.
pub open spec fn entries_in_bounds(buckets: Seq<Vec<BhdFile>>, bdt_len: int) -> bool {
    forall|j: int, l: int|
        0 <= j < buckets.len() && 0 <= l < buckets[j]@.len() ==> (#[trigger] buckets[j]@[l]).offset
            + buckets[j]@[l].size <= bdt_len
}

/// A text with its leading slash characters removed: names in the
/// table are often stored as absolute-looking paths, and extraction
/// joins them under the output directory as relative paths.
pub open spec fn trim_slashes(s: Seq<char>) -> Seq<char> {
    crate::common::trim_leading(s, '/')
}

/// What extraction yields for one entry: the exact payload slice, under
/// the looked-up name with its leading slashes removed, or under the
/// hash string on a miss.
pub open spec fn entry_extracted(
    f: BhdEntryFile,
    e: BhdFile,
    bdt: Seq<u8>,
    names: Seq<(u32, String)>,
) -> bool {
    &&& f.data@ == bdt.subrange(e.offset as int, e.offset + e.size)
    &&& match lookup_spec(names, e.hash) {
        Some(p) => f.named && f.path@ == trim_slashes(p),
        None => !f.named && f.path@ == hex8_of(e.hash),
    }
}

/// Prepare every entry of every bucket for extraction.
///
/// Succeeds exactly when every entry's payload range is inside the
/// companion data; the result then holds one file per entry, in bucket
/// order, the sum of the per-bucket counts in all. A name-table miss
/// never skips an entry or aborts the batch: the entry comes out under
/// its hash string, marked unnamed.
pub fn extract_entries(bhd: &Bhd, bdt_data: &[u8], names: &NameMap) -> (r: Result<
    Vec<BhdEntryFile>,
    UnpackError,
>)
    ensures
        match r {
            Ok(v) => {
                &&& entries_in_bounds(bhd.buckets@, bdt_data@.len() as int)
                &&& v@.len() == count_prefix(bhd.buckets@, bhd.buckets@.len() as int)
                &&& forall|j: int, l: int|
                    0 <= j < bhd.buckets@.len() && 0 <= l < bhd.buckets@[j]@.len()
                        ==> entry_extracted(
                        #[trigger] v@[count_prefix(bhd.buckets@, j) + l],
                        bhd.buckets@[j]@[l],
                        bdt_data@,
                        names.entries@,
                    )
            },
            Err(e) => !entries_in_bounds(bhd.buckets@, bdt_data@.len() as int) && e
                matches UnpackError::Parsing(_),
        },
{
    let n = bdt_data.len();
    let nb = bhd.buckets.len();
    let mut out: Vec<BhdEntryFile> = Vec::new();
    let mut j: usize = 0;
    while j < nb
        invariant
            n == bdt_data@.len() <= usize::MAX,
            nb == bhd.buckets@.len(),
            0 <= j <= nb,
            out@.len() == count_prefix(bhd.buckets@, j as int),
            forall|a: int, l: int|
                0 <= a < j && 0 <= l < bhd.buckets@[a]@.len() ==> (#[trigger] bhd.buckets@[a]@[l]).offset
                    + bhd.buckets@[a]@[l].size <= n,
            forall|a: int, l: int|
                0 <= a < j && 0 <= l < bhd.buckets@[a]@.len() ==> entry_extracted(
                    #[trigger] out@[count_prefix(bhd.buckets@, a) + l],
                    bhd.buckets@[a]@[l],
                    bdt_data@,
                    names.entries@,
                ),
        decreases nb - j,
    {
        let bucket = &bhd.buckets[j];
        let cnt = bucket.len();
        let mut l: usize = 0;
        while l < cnt
            invariant
                n == bdt_data@.len() <= usize::MAX,
                nb == bhd.buckets@.len(),
                0 <= j < nb,
                cnt == bhd.buckets@[j as int]@.len(),
                bucket@ == bhd.buckets@[j as int]@,
                0 <= l <= cnt,
                out@.len() == count_prefix(bhd.buckets@, j as int) + l,
                forall|a: int, m: int|
                    0 <= a < j && 0 <= m < bhd.buckets@[a]@.len() ==> (
                    #[trigger] bhd.buckets@[a]@[m]).offset + bhd.buckets@[a]@[m].size <= n,
                forall|a: int, m: int|
                    0 <= a < j && 0 <= m < bhd.buckets@[a]@.len() ==> entry_extracted(
                        #[trigger] out@[count_prefix(bhd.buckets@, a) + m],
                        bhd.buckets@[a]@[m],
                        bdt_data@,
                        names.entries@,
                    ),
                forall|m: int|
                    0 <= m < l ==> (#[trigger] bhd.buckets@[j as int]@[m]).offset
                        + bhd.buckets@[j as int]@[m].size <= n,
                forall|m: int|
                    0 <= m < l ==> entry_extracted(
                        #[trigger] out@[count_prefix(bhd.buckets@, j as int) + m],
                        bhd.buckets@[j as int]@[m],
                        bdt_data@,
                        names.entries@,
                    ),
            decreases cnt - l,
        {
            let e = bucket[l];
            if e.offset > n as u64 || e.size as u64 > n as u64 - e.offset {
                return Err(UnpackError::parsing_err("BHD", "entry data out of bounds"));
            }
            let start = e.offset as usize;
            let end = start + e.size as usize;
            let data = subrange_vec(bdt_data, start, end);
            let (path, named) = match names.get(e.hash) {
                Some(p) => (crate::common::trim_leading_chars(p.as_str(), '/'), true),
                None => (hash_as_string(e.hash), false),
            };
            let file = BhdEntryFile { path, named, data };
            proof {
                assert(e == bhd.buckets@[j as int]@[l as int]);
                assert(entry_extracted(file, e, bdt_data@, names.entries@));
            }
            let ghost out_pre = out@;
            out.push(file);
            proof {
                lemma_count_prefix_mono(bhd.buckets@, j as int, j as int);
                assert(out@ =~= out_pre.push(file));
                assert(forall|idx: int| 0 <= idx < out_pre.len() ==> out@[idx] == out_pre[idx]);
                assert(out@[count_prefix(bhd.buckets@, j as int) + l] == file);
                assert forall|a: int, m: int|
                    0 <= a < j && 0 <= m < bhd.buckets@[a]@.len() implies 0 <= #[trigger] (
                count_prefix(bhd.buckets@, a) + m) && count_prefix(bhd.buckets@, a) + m
                    < count_prefix(bhd.buckets@, j as int) by {
                    lemma_count_prefix_mono(bhd.buckets@, a + 1, j as int);
                    lemma_count_prefix_mono(bhd.buckets@, a, j as int);
                };
            }
            l = l + 1;
        }
        proof {
            assert(count_prefix(bhd.buckets@, j + 1) == count_prefix(bhd.buckets@, j as int)
                + bhd.buckets@[j as int]@.len());
        }
        j = j + 1;
    }
    proof {
        assert(forall|a: int, l: int|
            0 <= a < nb && 0 <= l < bhd.buckets@[a]@.len() ==> (#[trigger] bhd.buckets@[a]@[l]).offset
                + bhd.buckets@[a]@[l].size <= n);
    }
    Ok(out)
}

} // verus!
