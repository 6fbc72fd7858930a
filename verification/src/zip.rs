//! The ZIP container format as this reader accepts it: the end-of-central-directory record, the
//! complete central directory it declares, one entry's local header and payload, and the CRC-32
//! an entry's bytes are checked against.
//!
//! A container is accepted only when its last end record is a single-disk record whose
//! directory lies before it and parses, record by record, to exactly its declared size. ZIP64
//! markers are refused rather than followed.

use crate::budget::{Budget, CountedBudgetDimension, spent};
use crate::error::{Error, Result, is_budget, is_invalid, is_stop, is_unsupported};
use std::io::Read;
use vstd::prelude::*;

verus! {


/// The signature of the end-of-central-directory record.
pub const EOCD_SIGNATURE: u32 = 0x0605_4b50;
/// The signature of one central-directory record.
pub const CENTRAL_SIGNATURE: u32 = 0x0201_4b50;
/// The signature of one local file header.
pub const LOCAL_SIGNATURE: u32 = 0x0403_4b50;
/// The fixed part of the end-of-central-directory record.
pub const EOCD_LENGTH: usize = 22;
/// The fixed part of one central-directory record.
pub const CENTRAL_LENGTH: usize = 46;
/// The fixed part of one local file header.
pub const LOCAL_LENGTH: usize = 30;
/// The compression method of a stored entry.
pub const METHOD_STORED: u16 = 0;
/// The compression method of a deflated entry.
pub const METHOD_DEFLATED: u16 = 8;

/// The little-endian `u16` at `i`.
pub open spec fn le16(s: Seq<u8>, i: int) -> u16 {
    (s[i] as int + 256 * s[i + 1] as int) as u16
}

/// The little-endian `u32` at `i`.
pub open spec fn le32(s: Seq<u8>, i: int) -> u32 {
    (le16(s, i) as int + 65536 * le16(s, i + 2) as int) as u32
}

fn read_le16(b: &[u8], i: usize) -> (v: u16)
    requires
        i + 2 <= b@.len(),
    ensures
        v == le16(b@, i as int),
{
    b[i] as u16 + 256 * (b[i + 1] as u16)
}

fn read_le32(b: &[u8], i: usize) -> (v: u32)
    requires
        i + 4 <= b@.len(),
    ensures
        v == le32(b@, i as int),
{
    let n = b.len();
    assert(i + 4 <= n);
    let low = read_le16(b, i);
    let high = read_le16(b, i + 2);
    low as u32 + 65536 * (high as u32)
}

/// An end record sits at `p`: its signature, and a comment that ends exactly at the end of the
/// bytes.
pub open spec fn eocd_ok(s: Seq<u8>, p: int) -> bool {
    &&& 0 <= p
    &&& p + 22 <= s.len()
    &&& le32(s, p) == EOCD_SIGNATURE
    &&& p + 22 + le16(s, p + 20) == s.len()
}

/// `p` is the last end record of the bytes.
pub open spec fn last_eocd(s: Seq<u8>, p: int) -> bool {
    eocd_ok(s, p) && forall|q: int| p < q ==> !#[trigger] eocd_ok(s, q)
}

/// The bytes hold no end record at all.
pub open spec fn no_eocd(s: Seq<u8>) -> bool {
    forall|q: int| !#[trigger] eocd_ok(s, q)
}

/// Where the last end record of the bytes starts, searched from the end as far back as the
/// longest comment allows.
pub fn find_eocd(b: &[u8]) -> (r: Option<usize>)
    ensures
        r matches Some(p) ==> last_eocd(b@, p as int),
        r is None ==> no_eocd(b@),
{
    let n = b.len();
    if n < EOCD_LENGTH {
        assert forall|q: int| !#[trigger] eocd_ok(b@, q) by {}
        return None;
    }
    let mut p: usize = n - EOCD_LENGTH;
    loop
        invariant
            n == b@.len(),
            p + 22 <= n,
            forall|q: int| p < q ==> !#[trigger] eocd_ok(b@, q),
        decreases p,
    {
        if read_le32(b, p) == EOCD_SIGNATURE && n - p - EOCD_LENGTH == read_le16(b, p + 20) as usize {
            return Some(p);
        }
        if p == 0 || n - EOCD_LENGTH - p >= 65535 {
            assert forall|q: int| !#[trigger] eocd_ok(b@, q) by {
                if q <= p as int && eocd_ok(b@, q) {
                    assert(q == p as int || q + 22 + 65535 < n);
                }
            }
            return None;
        }
        p = p - 1;
    }
}

/// The last end record of some bytes is one position.
pub proof fn lemma_last_eocd_unique(s: Seq<u8>, p: int, q: int)
    requires
        last_eocd(s, p),
        last_eocd(s, q),
    ensures
        p == q,
{
    if p < q {
        assert(!eocd_ok(s, q));
    } else if q < p {
        assert(!eocd_ok(s, p));
    }
}

/// The central directory an end record at `p` declares.
pub struct DirectoryBounds {
    /// Where the end record that declares the directory starts.
    pub eocd: usize,
    /// Records the directory declares.
    pub entries: u16,
    /// Where the directory starts.
    pub start: u32,
    /// Where the directory ends: its start plus its declared size.
    pub end: u64,
}

/// The end record at `p` declares a single-disk directory, without ZIP64 markers, that lies
/// before the record.
pub open spec fn eocd_valid(s: Seq<u8>, p: int) -> bool {
    &&& le16(s, p + 4) == 0
    &&& le16(s, p + 6) == 0
    &&& le16(s, p + 8) == le16(s, p + 10)
    &&& le16(s, p + 10) != 0xFFFF
    &&& le32(s, p + 12) != 0xFFFF_FFFF
    &&& le32(s, p + 16) != 0xFFFF_FFFF
    &&& le32(s, p + 16) + le32(s, p + 12) <= p
}

/// `zip_open`: the bytes are not a ZIP container this reader accepts.
pub open spec fn is_open_error(e: Error) -> bool {
    is_invalid(e, "zip_open"@)
}

/// `zip_central_directory`: the declared directory does not parse completely.
pub open spec fn is_directory_error(e: Error) -> bool {
    is_invalid(e, "zip_central_directory"@)
}

/// The directory the last end record of the bytes declares, or why there is none.
pub fn locate_directory(b: &[u8]) -> (r: Result<DirectoryBounds>)
    ensures
        no_eocd(b@) ==> r is Err,
        r matches Err(e) ==> is_open_error(e),
        r matches Ok(d) ==> last_eocd(b@, d.eocd as int) && eocd_valid(b@, d.eocd as int)
            && d.entries == le16(b@, d.eocd + 10) && d.start == le32(b@, d.eocd + 16)
            && d.end == le32(b@, d.eocd + 16) + le32(b@, d.eocd + 12) && d.end <= d.eocd,
        forall|p: int| #[trigger] last_eocd(b@, p) ==> {
            &&& (r is Ok <==> eocd_valid(b@, p))
            &&& r matches Ok(d) ==> d.entries == le16(b@, p + 10) && d.start == le32(b@, p + 16)
                && d.end == le32(b@, p + 16) + le32(b@, p + 12) && d.end <= p
            &&& r matches Err(e) ==> is_open_error(e)
        },
{
    let n = b.len();
    let p = match find_eocd(b) {
        Some(p) => p,
        None => return Err(Error::invalid_input("zip_open", "no end of central directory record")),
    };
    proof {
        assert forall|q: int| #[trigger] last_eocd(b@, q) implies q == p as int by {
            if q < p as int {
                assert(!eocd_ok(b@, p as int));
            } else if q > p as int {
                assert(!eocd_ok(b@, q));
            }
        }
    }
    let disk = read_le16(b, p + 4);
    let directory_disk = read_le16(b, p + 6);
    let disk_entries = read_le16(b, p + 8);
    let entries = read_le16(b, p + 10);
    let size = read_le32(b, p + 12);
    let start = read_le32(b, p + 16);
    if disk != 0 || directory_disk != 0 || disk_entries != entries {
        return Err(Error::invalid_input("zip_open", "a multi-disk archive is not supported"));
    }
    if entries == 0xFFFF || size == 0xFFFF_FFFF || start == 0xFFFF_FFFF {
        return Err(Error::invalid_input("zip_open", "a ZIP64 archive is not supported"));
    }
    let end = start as u64 + size as u64;
    if end > p as u64 {
        return Err(Error::invalid_input("zip_open", "the central directory overlaps its end record"));
    }
    Ok(DirectoryBounds { eocd: p, entries, start, end })
}

/// The length of the central-directory record at `o`: the fixed part, the name, the extra field
/// and the comment.
pub open spec fn record_len(s: Seq<u8>, o: int) -> int {
    46 + le16(s, o + 28) + le16(s, o + 30) + le16(s, o + 32)
}

/// A central-directory record sits at `o` and ends by `end`, without ZIP64 markers.
pub open spec fn record_ok(s: Seq<u8>, o: int, end: int) -> bool {
    &&& 0 <= o
    &&& o + 46 <= end
    &&& end <= s.len()
    &&& le32(s, o) == CENTRAL_SIGNATURE
    &&& o + record_len(s, o) <= end
    &&& le32(s, o + 20) != 0xFFFF_FFFF
    &&& le32(s, o + 24) != 0xFFFF_FFFF
    &&& le32(s, o + 42) != 0xFFFF_FFFF
}

/// Where the `i`-th record of a directory starting at `start` starts, each record following the
/// one before it.
pub open spec fn record_offset(s: Seq<u8>, start: int, i: nat) -> int
    decreases i,
{
    if i == 0 {
        start
    } else {
        let o = record_offset(s, start, (i - 1) as nat);
        o + record_len(s, o)
    }
}

/// The directory between `start` and `end` is `count` records back to back, filling it exactly.
pub open spec fn directory_ok(s: Seq<u8>, start: int, end: int, count: nat) -> bool {
    &&& forall|i: nat| i < count ==> record_ok(s, #[trigger] record_offset(s, start, i), end)
    &&& record_offset(s, start, count) == end
}

/// One central-directory record, as the directory holds it.
pub struct DirectoryRecord {
    pub flags: u16,
    pub method: u16,
    pub crc32: u32,
    pub compressed_size: u32,
    pub uncompressed_size: u32,
    pub local_header_offset: u32,
    pub name: Vec<u8>,
}

/// `r` is the record at `o`.
pub open spec fn record_matches(s: Seq<u8>, o: int, r: DirectoryRecord) -> bool {
    &&& r.flags == le16(s, o + 8)
    &&& r.method == le16(s, o + 10)
    &&& r.crc32 == le32(s, o + 16)
    &&& r.compressed_size == le32(s, o + 20)
    &&& r.uncompressed_size == le32(s, o + 24)
    &&& r.local_header_offset == le32(s, o + 42)
    &&& r.name@ == s.subrange(o + 46, o + 46 + le16(s, o + 28))
}

/// Reads every record of a directory, after charging one `ArchiveEntries` unit per record it
/// declares. A directory that does not parse completely is refused as a whole: no prefix of it
/// is ever returned.
pub fn read_directory(b: &[u8], bounds: &DirectoryBounds, budget: &mut Budget) -> (r: Result<Vec<DirectoryRecord>>)
    requires
        bounds.end <= b@.len(),
    ensures
        r matches Err(e) ==> crate::budget::honest_refusal(e, old(budget).limits_of()),
        final(budget).limits_of() == old(budget).limits_of(),
        spent(old(budget).usage_of(), final(budget).usage_of()),
        r is Ok ==> final(budget).usage_of().counted(CountedBudgetDimension::EntryBytes)
            == old(budget).usage_of().counted(CountedBudgetDimension::EntryBytes),
        r matches Ok(v) ==> v@.len() == bounds.entries
            && directory_ok(b@, bounds.start as int, bounds.end as int, bounds.entries as nat)
            && forall|i: int| 0 <= i < v@.len() ==> record_matches(b@, record_offset(b@, bounds.start as int, i as nat), #[trigger] v@[i]),
        r matches Err(e) ==> is_stop(e) || is_budget(e, CountedBudgetDimension::ArchiveEntries.dim()) || is_directory_error(e),
        r matches Err(e) && is_directory_error(e) ==> !directory_ok(b@, bounds.start as int, bounds.end as int, bounds.entries as nat),
        r matches Err(e) && is_budget(e, CountedBudgetDimension::ArchiveEntries.dim()) ==> old(budget).usage_of().counted(
            CountedBudgetDimension::ArchiveEntries) + bounds.entries > old(budget).limits_of().counted(CountedBudgetDimension::ArchiveEntries),
        old(budget).usage_of().counted(CountedBudgetDimension::ArchiveEntries) + bounds.entries
            <= old(budget).limits_of().counted(CountedBudgetDimension::ArchiveEntries)
            && !directory_ok(b@, bounds.start as int, bounds.end as int, bounds.entries as nat) ==> r is Err,
        old(budget).usage_of().counted(CountedBudgetDimension::ArchiveEntries) + bounds.entries
            <= old(budget).limits_of().counted(CountedBudgetDimension::ArchiveEntries)
            && directory_ok(b@, bounds.start as int, bounds.end as int, bounds.entries as nat)
            ==> r is Ok || (r matches Err(e) && is_stop(e)),
{
    let n = b.len();
    budget.charge(CountedBudgetDimension::ArchiveEntries, bounds.entries as u64)?;
    proof {
        crate::budget::lemma_with_counted(old(budget).usage_of(), CountedBudgetDimension::ArchiveEntries,
            (old(budget).usage_of().counted(CountedBudgetDimension::ArchiveEntries) + bounds.entries) as u64,
            CountedBudgetDimension::EntryBytes);
    }
    let end = bounds.end as usize;
    let mut records: Vec<DirectoryRecord> = Vec::new();
    let mut o: usize = bounds.start as usize;
    let mut i: u16 = 0;
    while i < bounds.entries
        invariant
            end == bounds.end,
            end <= b@.len(),
            budget.limits_of() == old(budget).limits_of(),
            spent(old(budget).usage_of(), budget.usage_of()),
            budget.usage_of().counted(CountedBudgetDimension::EntryBytes)
                == old(budget).usage_of().counted(CountedBudgetDimension::EntryBytes),
            i <= bounds.entries,
            records@.len() == i,
            o == record_offset(b@, bounds.start as int, i as nat),
            forall|k: nat| k < i ==> record_ok(b@, #[trigger] record_offset(b@, bounds.start as int, k), end as int),
            forall|k: int| 0 <= k < i ==> record_matches(b@, record_offset(b@, bounds.start as int, k as nat), #[trigger] records@[k]),
        decreases bounds.entries - i,
    {
        if o > end || end - o < CENTRAL_LENGTH || read_le32(b, o) != CENTRAL_SIGNATURE {
            return Err(Error::invalid_input("zip_central_directory", "a central directory record is truncated or unsigned"));
        }
        let name_len = read_le16(b, o + 28) as usize;
        let extra_len = read_le16(b, o + 30) as usize;
        let comment_len = read_le16(b, o + 32) as usize;
        let length = CENTRAL_LENGTH + name_len + extra_len + comment_len;
        if end - o < length {
            return Err(Error::invalid_input("zip_central_directory", "a central directory record runs past the directory"));
        }
        let compressed_size = read_le32(b, o + 20);
        let uncompressed_size = read_le32(b, o + 24);
        let local_header_offset = read_le32(b, o + 42);
        if compressed_size == 0xFFFF_FFFF || uncompressed_size == 0xFFFF_FFFF || local_header_offset == 0xFFFF_FFFF {
            return Err(Error::invalid_input("zip_central_directory", "a ZIP64 record is not supported"));
        }
        let name = vstd::slice::slice_to_vec(vstd::slice::slice_subrange(b, o + CENTRAL_LENGTH, o + CENTRAL_LENGTH + name_len));
        let record = DirectoryRecord {
            flags: read_le16(b, o + 8),
            method: read_le16(b, o + 10),
            crc32: read_le32(b, o + 16),
            compressed_size,
            uncompressed_size,
            local_header_offset,
            name,
        };
        records.push(record);
        proof {
            assert(record_ok(b@, record_offset(b@, bounds.start as int, i as nat), end as int));
            assert(record_offset(b@, bounds.start as int, (i + 1) as nat) == o + length);
        }
        o = o + length;
        i = i + 1;
    }
    if o != end {
        return Err(Error::invalid_input("zip_central_directory", "the central directory does not end where it declares"));
    }
    Ok(records)
}

/// Where the payload of the entry whose local header sits at `o` starts.
pub open spec fn local_data_start(s: Seq<u8>, o: int) -> int {
    o + 30 + le16(s, o + 26) + le16(s, o + 28)
}

/// A local header sits at `o`, and `compressed` payload bytes follow it inside the bytes.
pub open spec fn local_ok(s: Seq<u8>, o: int, compressed: int) -> bool {
    &&& 0 <= o
    &&& o + 30 <= s.len()
    &&& le32(s, o) == LOCAL_SIGNATURE
    &&& local_data_start(s, o) + compressed <= s.len()
}

/// The payload of the entry whose local header sits at `o`.
pub open spec fn local_payload(s: Seq<u8>, o: int, compressed: int) -> Seq<u8> {
    s.subrange(local_data_start(s, o), local_data_start(s, o) + compressed)
}

/// The stored or compressed bytes of one entry, after its local header.
pub fn entry_payload<'a>(b: &'a [u8], local_header_offset: u64, compressed_size: u64) -> (r: Result<&'a [u8]>)
    ensures
        r is Ok <==> local_ok(b@, local_header_offset as int, compressed_size as int),
        r matches Ok(p) ==> p@ == local_payload(b@, local_header_offset as int, compressed_size as int),
        r matches Err(e) ==> is_invalid(e, "zip_local_header"@),
{
    let n = b.len();
    if local_header_offset > n as u64 || (n as u64) - local_header_offset < LOCAL_LENGTH as u64 {
        return Err(Error::invalid_input("zip_local_header", "an entry's local header is truncated or unsigned"));
    }
    let o = local_header_offset as usize;
    if read_le32(b, o) != LOCAL_SIGNATURE {
        return Err(Error::invalid_input("zip_local_header", "an entry's local header is truncated or unsigned"));
    }
    let header = LOCAL_LENGTH + read_le16(b, o + 26) as usize + read_le16(b, o + 28) as usize;
    let room = n - o;
    if header > room || ((room - header) as u64) < compressed_size {
        return Err(Error::invalid_input("zip_local_header", "an entry's payload runs past its container"));
    }
    let start = o + header;
    Ok(vstd::slice::slice_subrange(b, start, start + compressed_size as usize))
}

/// One shift of the reflected CRC-32 (polynomial `0xEDB88320`).
pub open spec fn crc_round(c: u32) -> u32 {
    if c & 1 == 1 {
        (c >> 1u32) ^ 0xEDB8_8320u32
    } else {
        c >> 1u32
    }
}

/// The CRC-32 register after one more byte.
pub open spec fn crc_byte(c: u32, byte: u8) -> u32 {
    crc_round(crc_round(crc_round(crc_round(crc_round(crc_round(crc_round(crc_round(c ^ (byte as u32)))))))))
}

/// The CRC-32 register after the bytes of `s`, from `c`.
pub open spec fn crc_fold(c: u32, s: Seq<u8>) -> u32
    decreases s.len(),
{
    if s.len() == 0 {
        c
    } else {
        crc_byte(crc_fold(c, s.drop_last()), s.last())
    }
}

/// The CRC-32 of `s`, as ZIP records it.
pub open spec fn crc32_of(s: Seq<u8>) -> u32 {
    !crc_fold(0xFFFF_FFFF, s)
}

fn round(c: u32) -> (r: u32)
    ensures
        r == crc_round(c),
{
    if c & 1 == 1 {
        (c >> 1u32) ^ 0xEDB8_8320u32
    } else {
        c >> 1u32
    }
}

/// The CRC-32 of `b`.
pub fn crc32(b: &[u8]) -> (c: u32)
    ensures
        c == crc32_of(b@),
{
    let mut c: u32 = 0xFFFF_FFFF;
    let mut i: usize = 0;
    while i < b.len()
        invariant
            i <= b@.len(),
            c == crc_fold(0xFFFF_FFFF, b@.take(i as int)),
        decreases b@.len() - i,
    {
        let mut x = c ^ (b[i] as u32);
        x = round(x);
        x = round(x);
        x = round(x);
        x = round(x);
        x = round(x);
        x = round(x);
        x = round(x);
        x = round(x);
        assert(b@.take(i as int + 1).drop_last() =~= b@.take(i as int));
        c = x;
        i = i + 1;
    }
    assert(b@.take(i as int) =~= b@);
    !c
}

/// The first `limit` bytes the raw DEFLATE stream `data` inflates to, or none when the stream
/// cannot be inflated that far.
pub uninterp spec fn inflated(data: Seq<u8>, limit: u64) -> Option<Seq<u8>>;

/// Inflates a raw DEFLATE stream, keeping at most `limit` bytes of output
/// (`flate2::read::DeflateDecoder`, read to the end under `Read::take`).
///
/// Trusted: the contract claims that the output is the named inflation of these bytes under this
/// limit, a function of the two alone, and that it is no longer than `limit`, as `Read::take`
/// documents.
#[verifier::external_body]
fn inflate(data: &[u8], limit: u64) -> (r: Option<Vec<u8>>)
    ensures
        match r {
            Some(v) => inflated(data@, limit) == Some(v@) && v@.len() <= limit,
            None => inflated(data@, limit) is None,
        },
{
    let mut output = Vec::new();
    match flate2::read::DeflateDecoder::new(data).take(limit).read_to_end(&mut output) {
        Ok(_) => Some(output),
        Err(_) => None,
    }
}

/// What an entry's record says about its bytes.
pub struct EntryLayout {
    pub method: u16,
    pub crc32: u32,
    pub compressed_size: u64,
    pub uncompressed_size: u64,
    pub local_header_offset: u64,
}

/// The bytes `payload` holds under `layout`'s compression method, when the method is one this
/// reader supports and the result has the declared size.
pub open spec fn decoded(payload: Seq<u8>, layout: EntryLayout) -> Option<Seq<u8>> {
    if layout.method == METHOD_STORED {
        if payload.len() == layout.uncompressed_size { Some(payload) } else { None }
    } else if layout.method == METHOD_DEFLATED {
        match inflated(payload, layout.uncompressed_size) {
            Some(v) => if v.len() == layout.uncompressed_size { Some(v) } else { None },
            None => None,
        }
    } else {
        None
    }
}

/// The bytes of one entry of a container: charged as `EntryBytes` by their declared size, read
/// after the entry's local header, stored or inflated, and checked against the declared size and
/// CRC-32.
pub fn entry_bytes(b: &[u8], layout: &EntryLayout, budget: &mut Budget) -> (r: Result<Vec<u8>>)
    ensures
        r matches Err(e) ==> crate::budget::honest_refusal(e, old(budget).limits_of()),
        final(budget).limits_of() == old(budget).limits_of(),
        spent(old(budget).usage_of(), final(budget).usage_of()),
        r is Ok ==> final(budget).usage_of().counted(CountedBudgetDimension::EntryBytes)
            == old(budget).usage_of().counted(CountedBudgetDimension::EntryBytes) + layout.uncompressed_size
            && final(budget).usage_of().counted(CountedBudgetDimension::EntryBytes)
            <= final(budget).limits_of().counted(CountedBudgetDimension::EntryBytes),
        r matches Ok(v) ==> local_ok(b@, layout.local_header_offset as int, layout.compressed_size as int)
            && decoded(local_payload(b@, layout.local_header_offset as int, layout.compressed_size as int), *layout) == Some(v@)
            && crc32_of(v@) == layout.crc32,
        r matches Err(e) ==> is_stop(e) || is_budget(e, CountedBudgetDimension::EntryBytes.dim())
            || is_invalid(e, "zip_local_header"@) || is_unsupported(e, "zip_compression_method"@)
            || is_invalid(e, "zip_entry_size"@) || is_invalid(e, "zip_entry_inflate"@) || is_invalid(e, "zip_entry_crc"@),
{
    budget.charge(CountedBudgetDimension::EntryBytes, layout.uncompressed_size)?;
    let payload = entry_payload(b, layout.local_header_offset, layout.compressed_size)?;
    let data = if layout.method == METHOD_STORED {
        if payload.len() as u64 != layout.uncompressed_size {
            return Err(Error::invalid_input("zip_entry_size", "a stored entry's sizes disagree"));
        }
        vstd::slice::slice_to_vec(payload)
    } else if layout.method == METHOD_DEFLATED {
        match inflate(payload, layout.uncompressed_size) {
            Some(v) => {
                if v.len() as u64 != layout.uncompressed_size {
                    return Err(Error::invalid_input("zip_entry_size", "an entry inflates to another size than it declares"));
                }
                v
            },
            None => return Err(Error::invalid_input("zip_entry_inflate", "an entry's deflate stream is damaged")),
        }
    } else {
        return Err(Error::unsupported("zip_compression_method", "an entry's compression method is not supported"));
    };
    if crc32(data.as_slice()) != layout.crc32 {
        return Err(Error::invalid_input("zip_entry_crc", "an entry's bytes do not match its CRC-32"));
    }
    Ok(data)
}

} // verus!
