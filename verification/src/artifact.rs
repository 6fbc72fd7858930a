//! Artifact snapshots and their containers: one immutable input, identified by its content, and
//! the verified directory facts of the ZIP containers it holds.
//!
//! A snapshot is either one standalone class file or one ZIP archive. A container's facts are its
//! backing bytes, its complete central directory as physical entries, and the raw names that
//! repeat in it; a nested container is reached through an entry of its parent, materialized and
//! checked before its own directory is read.

use crate::budget::{Budget, BudgetDimension, CountedBudgetDimension, UsageSnapshot, spent};
use crate::cancel::arc_share;
use crate::error::{Error, Result, is_budget, is_invalid, is_stop};
use crate::model::{ArchiveNameBytes, ByteSpan, ContainerId, ContainerOrigin, ContainerOriginStep, Diagnostic, DiagnosticSeverity, ExecutionReport, Location, PhysicalEntryId, Provenance, SnapshotId, TerminationReason, blake3_hex, content_digest, same_origin};
use crate::names::same_bytes;
use crate::text::{decimal, push_decimal};
use crate::zip::{DirectoryRecord, lemma_last_eocd_unique, EntryLayout, crc32_of, decoded, directory_ok, entry_bytes, eocd_valid, is_directory_error, is_open_error, last_eocd, le16, le32, local_ok, local_payload, locate_directory, read_directory, record_matches, record_offset};
use std::sync::Arc;
use vstd::prelude::*;

verus! {


/// The bytes an artifact snapshot is opened from.
pub struct ArtifactInput {
    bytes: Vec<u8>,
}

impl ArtifactInput {
    /// The input these bytes are.
    pub fn bytes(bytes: Vec<u8>) -> (i: ArtifactInput)
        ensures
            i.bytes_of() == bytes@,
    {
        ArtifactInput { bytes }
    }

    pub closed spec fn bytes_of(&self) -> Seq<u8> {
        self.bytes@
    }
}

/// What a snapshot is.
#[derive(Clone, Copy, Debug, PartialEq, Eq, Structural)]
pub enum ArtifactKind {
    /// One class file: the snapshot is the class.
    StandaloneClass,
    /// One ZIP archive: the snapshot is its root container.
    Zip,
}

/// The bytes start with the class-file magic.
pub open spec fn class_magic(s: Seq<u8>) -> bool {
    s.len() >= 4 && s[0] == 0xCA && s[1] == 0xFE && s[2] == 0xBA && s[3] == 0xBE
}

/// The bytes are a ZIP container this reader can open: their last end record declares a
/// directory it accepts.
pub open spec fn zip_openable(s: Seq<u8>) -> bool {
    exists|p: int| #[trigger] last_eocd(s, p) && eocd_valid(s, p)
}

/// A ZIP whose last end record is valid and whose central directory reads whole.
pub open spec fn zip_readable(s: Seq<u8>) -> bool {
    &&& zip_openable(s)
    &&& forall|p: int| #[trigger] last_eocd(s, p) && eocd_valid(s, p) ==> crate::zip::directory_ok(s,
        crate::zip::le32(s, p + 16) as int, crate::zip::le32(s, p + 16) + crate::zip::le32(s, p + 12),
        crate::zip::le16(s, p + 10) as nat)
}

/// One immutable input, identified by its content.
#[derive(Debug)]
pub struct ArtifactSnapshot {
    id: SnapshotId,
    kind: ArtifactKind,
    bytes: Arc<Vec<u8>>,
}

impl Clone for ArtifactSnapshot {
    /// Another handle on the same snapshot.
    fn clone(&self) -> (s: ArtifactSnapshot)
        ensures
            s == *self,
    {
        ArtifactSnapshot { id: SnapshotId(self.id.0.clone()), kind: self.kind, bytes: arc_share(&self.bytes) }
    }
}

/// The origin of `snapshot`'s root container, named `root`.
pub fn root_origin(snapshot: &SnapshotId) -> (o: ContainerOrigin)
    ensures
        o.snapshot.0@ == snapshot.0@,
        o.root_container.0@ == "root"@,
        o.steps@.len() == 0,
{
    ContainerOrigin {
        snapshot: SnapshotId(snapshot.0.clone()),
        root_container: ContainerId(String::from_str("root")),
        steps: Vec::new(),
    }
}

impl ArtifactSnapshot {
    pub closed spec fn id_of(&self) -> SnapshotId {
        self.id
    }

    pub closed spec fn kind_of(&self) -> ArtifactKind {
        self.kind
    }

    /// The bytes the snapshot was opened from.
    pub closed spec fn bytes_of(&self) -> Seq<u8> {
        self.bytes@
    }

    /// Opens one input as a snapshot, charging its length as `InputBytes`.
    ///
    /// Bytes that start with the class-file magic are a standalone class; bytes whose last end
    /// record declares a directory this reader accepts are a ZIP archive; anything else is refused
    /// with `zip_open`. The snapshot's identity is the content digest of its bytes.
    pub fn open(input: ArtifactInput, budget: &mut Budget) -> (r: Result<ArtifactSnapshot>)
        ensures
            r matches Err(e) ==> crate::budget::honest_refusal(e, old(budget).limits_of()),
            final(budget).limits_of() == old(budget).limits_of(),
            r matches Ok(s) ==> s.bytes_of() == input.bytes_of() && s.id_of().0@ == blake3_hex(input.bytes_of())
                && s.kind_of() == (if class_magic(input.bytes_of()) { ArtifactKind::StandaloneClass } else { ArtifactKind::Zip })
                && (s.kind_of() == ArtifactKind::Zip ==> zip_openable(input.bytes_of())),
            r matches Err(e) ==> is_stop(e) || is_budget(e, BudgetDimension::InputBytes) || is_open_error(e),
            !class_magic(input.bytes_of()) && !zip_openable(input.bytes_of()) ==> r is Err,
    {
        let bytes = input.bytes;
        let n = bytes.len();
        budget.charge(CountedBudgetDimension::InputBytes, n as u64)?;
        let kind = if n >= 4 && bytes[0] == 0xCA && bytes[1] == 0xFE && bytes[2] == 0xBA && bytes[3] == 0xBE {
            ArtifactKind::StandaloneClass
        } else {
            match locate_directory(bytes.as_slice()) {
                Ok(_) => {},
                Err(e) => {
                    proof {
                        if zip_openable(bytes@) {
                            let p = choose|p: int| #[trigger] last_eocd(bytes@, p) && eocd_valid(bytes@, p);
                            assert(last_eocd(bytes@, p));
                        }
                    }
                    return Err(e);
                },
            }
            ArtifactKind::Zip
        };
        let digest = content_digest(bytes.as_slice());
        Ok(ArtifactSnapshot { id: SnapshotId(digest.0), kind, bytes: Arc::new(bytes) })
    }

    pub fn id(&self) -> (i: &SnapshotId)
        ensures
            *i == self.id_of(),
    {
        &self.id
    }

    pub fn kind(&self) -> (k: ArtifactKind)
        ensures
            k == self.kind_of(),
    {
        self.kind
    }

    /// The bytes of the class a standalone snapshot is, charged as `ReadBytes`.
    pub fn root_bytes(&self, budget: &mut Budget) -> (r: Result<Vec<u8>>)
        ensures
            r matches Err(e) ==> crate::budget::honest_refusal(e, old(budget).limits_of()),
            final(budget).limits_of() == old(budget).limits_of(),
            r matches Ok(v) ==> v@ == self.bytes_of() && self.kind_of() == ArtifactKind::StandaloneClass,
            r matches Err(e) ==> is_stop(e) || is_budget(e, BudgetDimension::ReadBytes)
                || is_invalid(e, "class_target_root_on_zip"@),
            self.kind_of() == ArtifactKind::Zip ==> r is Err,
            self.kind_of() == ArtifactKind::StandaloneClass ==> (r matches Err(e) ==> is_stop(e)
                || is_budget(e, BudgetDimension::ReadBytes)),
    {
        if self.kind != ArtifactKind::StandaloneClass {
            return Err(Error::invalid_input("class_target_root_on_zip", "root class target requires a standalone CLASS snapshot"));
        }
        let n = self.bytes.len();
        budget.charge(CountedBudgetDimension::ReadBytes, n as u64)?;
        Ok(vstd::slice::slice_to_vec(self.bytes.as_slice()))
    }

    /// How many entries the root container's own end record declares, read without any charge;
    /// `None` for a standalone class.
    pub fn declared_root_entries(&self) -> (r: Option<u64>)
        ensures
            self.kind_of() == ArtifactKind::StandaloneClass ==> r is None,
            self.kind_of() == ArtifactKind::Zip ==> forall|p: int| #[trigger] last_eocd(self.bytes_of(), p)
                && eocd_valid(self.bytes_of(), p) ==> r == Some(le16(self.bytes_of(), p + 10) as u64),
    {
        if self.kind != ArtifactKind::Zip {
            return None;
        }
        match locate_directory(self.bytes.as_slice()) {
            Ok(bounds) => Some(bounds.entries as u64),
            Err(_) => None,
        }
    }

    /// The verified facts of the root container, read by this request.
    pub fn root_container_facts(&self, budget: &mut Budget) -> (r: Result<Arc<ContainerFacts>>)
        ensures
            r matches Err(e) ==> crate::budget::honest_refusal(e, old(budget).limits_of()),
            final(budget).limits_of() == old(budget).limits_of(),
            spent(old(budget).usage_of(), final(budget).usage_of()),
            r matches Ok(f) ==> f.backing_of() == self.bytes_of() && f.origin_of().steps@.len() == 0
                && f.origin_of().snapshot.0@ == self.id_of().0@ && f.origin_of().root_container.0@ == "root"@,
            r matches Err(e) ==> is_stop(e) || is_budget(e, BudgetDimension::ArchiveEntries) || is_open_error(e)
                || is_directory_error(e),
            r matches Err(e) ==> is_stop(e) || is_budget(e, BudgetDimension::ArchiveEntries) || !zip_readable(self.bytes_of()),
    {
        let origin = root_origin(&self.id);
        let facts = container_facts(origin, arc_share(&self.bytes), budget)?;
        Ok(Arc::new(facts))
    }

    /// The root container's own entries, in ordinal order.
    pub fn enumerate(&self, budget: &mut Budget) -> (r: Result<ContainerEnumeration>)
        ensures
            r matches Err(e) ==> crate::budget::honest_refusal(e, old(budget).limits_of()),
            final(budget).limits_of() == old(budget).limits_of(),
            r matches Ok(c) ==> c.origin.steps@.len() == 0 && c.origin.snapshot.0@ == self.id_of().0@,
            r matches Err(e) ==> is_stop(e) || is_budget(e, BudgetDimension::ArchiveEntries) || is_open_error(e)
                || is_directory_error(e),
    {
        let facts = self.root_container_facts(budget)?;
        let entries = copy_entries(facts.entries());
        Ok(ContainerEnumeration { origin: facts.origin().duplicate(), entries })
    }
}

/// One container's entries, as an enumeration reports them.
pub struct ContainerEnumeration {
    pub origin: ContainerOrigin,
    pub entries: Vec<PhysicalEntry>,
}

/// Whether an entry is a nested archive a walk may descend through.
#[derive(Clone, Copy, Debug, PartialEq, Eq, Structural)]
pub enum NestedArchiveState {
    /// The entry is not an archive candidate.
    NotCandidate,
    /// The entry's name marks an archive that has not been opened.
    CandidateNotScanned,
}

/// `s` ends with `suffix`.
pub open spec fn ends_with(s: Seq<u8>, suffix: Seq<u8>) -> bool {
    s.len() >= suffix.len() && s.subrange(s.len() - suffix.len(), s.len() as int) == suffix
}

/// A raw name is a class candidate: it ends with `.class`, case-sensitively.
pub open spec fn class_candidate_name(raw: Seq<u8>) -> bool {
    ends_with(raw, seq![0x2Eu8, 0x63, 0x6C, 0x61, 0x73, 0x73])
}

/// A raw name marks a nested archive: it ends with `.jar`, `.war`, `.ear` or `.zip`.
pub open spec fn archive_candidate_name(raw: Seq<u8>) -> bool {
    ||| ends_with(raw, seq![0x2Eu8, 0x6A, 0x61, 0x72])
    ||| ends_with(raw, seq![0x2Eu8, 0x77, 0x61, 0x72])
    ||| ends_with(raw, seq![0x2Eu8, 0x65, 0x61, 0x72])
    ||| ends_with(raw, seq![0x2Eu8, 0x7A, 0x69, 0x70])
}

fn ends_with_bytes(s: &[u8], suffix: &[u8]) -> (b: bool)
    ensures
        b == ends_with(s@, suffix@),
{
    let n = s.len();
    let m = suffix.len();
    if n < m {
        return false;
    }
    same_bytes(vstd::slice::slice_subrange(s, n - m, n), suffix)
}

/// Whether a raw name is a class candidate.
pub fn is_class_candidate_name(raw: &[u8]) -> (b: bool)
    ensures
        b == class_candidate_name(raw@),
{
    let suffix: [u8; 6] = [0x2E, 0x63, 0x6C, 0x61, 0x73, 0x73];
    assert(suffix@ =~= seq![0x2Eu8, 0x63, 0x6C, 0x61, 0x73, 0x73]);
    ends_with_bytes(raw, suffix.as_slice())
}

/// Whether a raw name marks a nested archive.
pub fn is_archive_candidate_name(raw: &[u8]) -> (b: bool)
    ensures
        b == archive_candidate_name(raw@),
{
    let jar: [u8; 4] = [0x2E, 0x6A, 0x61, 0x72];
    let war: [u8; 4] = [0x2E, 0x77, 0x61, 0x72];
    let ear: [u8; 4] = [0x2E, 0x65, 0x61, 0x72];
    let zip: [u8; 4] = [0x2E, 0x7A, 0x69, 0x70];
    assert(jar@ =~= seq![0x2Eu8, 0x6A, 0x61, 0x72]);
    assert(war@ =~= seq![0x2Eu8, 0x77, 0x61, 0x72]);
    assert(ear@ =~= seq![0x2Eu8, 0x65, 0x61, 0x72]);
    assert(zip@ =~= seq![0x2Eu8, 0x7A, 0x69, 0x70]);
    ends_with_bytes(raw, jar.as_slice()) || ends_with_bytes(raw, war.as_slice()) || ends_with_bytes(raw, ear.as_slice())
        || ends_with_bytes(raw, zip.as_slice())
}

/// One entry of a container, as its complete central directory records it.
#[derive(Clone, Debug, PartialEq, Eq)]
pub struct PhysicalEntry {
    pub id: PhysicalEntryId,
    pub compression_method: u16,
    pub crc32: u32,
    pub compressed_size: u64,
    pub uncompressed_size: u64,
    pub local_header_offset: u64,
    pub nested_archive: NestedArchiveState,
}

/// Two entry records state the same entry.
pub open spec fn same_physical_entry(a: PhysicalEntry, b: PhysicalEntry) -> bool {
    &&& crate::model::same_entry(a.id, b.id)
    &&& a.compression_method == b.compression_method
    &&& a.crc32 == b.crc32
    &&& a.compressed_size == b.compressed_size
    &&& a.uncompressed_size == b.uncompressed_size
    &&& a.local_header_offset == b.local_header_offset
    &&& a.nested_archive == b.nested_archive
}

impl PhysicalEntry {
    /// An owned copy of the same record.
    pub fn duplicate(&self) -> (r: PhysicalEntry)
        ensures
            same_physical_entry(r, *self),
    {
        PhysicalEntry {
            id: self.id.duplicate(),
            compression_method: self.compression_method,
            crc32: self.crc32,
            compressed_size: self.compressed_size,
            uncompressed_size: self.uncompressed_size,
            local_header_offset: self.local_header_offset,
            nested_archive: self.nested_archive,
        }
    }
}

fn copy_entries(entries: &[PhysicalEntry]) -> (r: Vec<PhysicalEntry>)
    ensures
        r@.len() == entries@.len(),
        forall|i: int| 0 <= i < r@.len() ==> same_physical_entry(#[trigger] r@[i], entries@[i]),
{
    let mut out: Vec<PhysicalEntry> = Vec::new();
    let mut i: usize = 0;
    while i < entries.len()
        invariant
            i <= entries@.len(),
            out@.len() == i,
            forall|k: int| 0 <= k < i ==> same_physical_entry(#[trigger] out@[k], entries@[k]),
        decreases entries@.len() - i,
    {
        out.push(entries[i].duplicate());
        i = i + 1;
    }
    out
}

/// The entry is the record at `o` of a directory of the container at `origin`, at `ordinal`.
pub open spec fn entry_from(s: Seq<u8>, o: int, origin: ContainerOrigin, ordinal: int, e: PhysicalEntry) -> bool {
    &&& same_origin(e.id.origin, origin)
    &&& e.id.ordinal == ordinal
    &&& e.id.raw_name.0@ == s.subrange(o + 46, o + 46 + le16(s, o + 28))
    &&& e.compression_method == le16(s, o + 10)
    &&& e.crc32 == le32(s, o + 16)
    &&& e.compressed_size == le32(s, o + 20)
    &&& e.uncompressed_size == le32(s, o + 24)
    &&& e.local_header_offset == le32(s, o + 42)
    &&& e.nested_archive == (if archive_candidate_name(e.id.raw_name.0@) {
        NestedArchiveState::CandidateNotScanned
    } else {
        NestedArchiveState::NotCandidate
    })
}

/// The entries are the complete directory the last end record of `s` declares, in order, for the
/// container at `origin`.
pub open spec fn directory_entries(s: Seq<u8>, origin: ContainerOrigin, entries: Seq<PhysicalEntry>) -> bool {
    &&& zip_openable(s)
    &&& forall|p: int| #[trigger] last_eocd(s, p) ==> {
        let start = le32(s, p + 16) as int;
        let end = le32(s, p + 16) + le32(s, p + 12);
        &&& eocd_valid(s, p)
        &&& directory_ok(s, start, end, le16(s, p + 10) as nat)
        &&& entries.len() == le16(s, p + 10)
        &&& forall|i: int| 0 <= i < entries.len() ==> entry_from(s, record_offset(s, start, i as nat), origin, i, #[trigger] entries[i])
    }
}

/// The first ordinal whose raw name is `name`, among the first `k` names.
pub open spec fn first_with(names: Seq<Seq<u8>>, name: Seq<u8>, k: int) -> Option<int>
    decreases k,
{
    if k <= 0 {
        None
    } else {
        match first_with(names, name, k - 1) {
            Some(j) => Some(j),
            None => if names[k - 1] == name { Some(k - 1) } else { None },
        }
    }
}

/// The repeated raw names among the first `k` names: each ordinal whose name an earlier ordinal
/// already carried, with that first ordinal, in ordinal order.
pub open spec fn repeats(names: Seq<Seq<u8>>, k: int) -> Seq<(u64, u64)>
    decreases k,
{
    if k <= 0 {
        Seq::empty()
    } else {
        match first_with(names, names[k - 1], k - 1) {
            Some(j) => repeats(names, k - 1).push(((k - 1) as u64, j as u64)),
            None => repeats(names, k - 1),
        }
    }
}

/// The raw names of some entries.
pub open spec fn raw_names(entries: Seq<PhysicalEntry>) -> Seq<Seq<u8>> {
    entries.map_values(|e: PhysicalEntry| e.id.raw_name.0@)
}

/// `start` plus the raw-name lengths of the first `k` entries, saturated at `u64::MAX`.
pub open spec fn names_weight(start: u64, entries: Seq<PhysicalEntry>, k: int) -> u64
    decreases k,
{
    if k <= 0 {
        start
    } else {
        let before = names_weight(start, entries, k - 1);
        let length = entries[k - 1].id.raw_name.0@.len();
        if before + length > u64::MAX { u64::MAX } else { (before + length) as u64 }
    }
}

/// One container's verified facts: the bytes its directory and entries live in, its complete
/// central directory as entries, and the raw names that repeat in it.
pub struct ContainerFacts {
    origin: ContainerOrigin,
    backing: Arc<Vec<u8>>,
    entries: Vec<PhysicalEntry>,
    repeated: Vec<(u64, u64)>,
}

impl ContainerFacts {
    pub closed spec fn origin_of(&self) -> ContainerOrigin {
        self.origin
    }

    pub closed spec fn backing_of(&self) -> Seq<u8> {
        self.backing@
    }

    pub closed spec fn entries_of(&self) -> Seq<PhysicalEntry> {
        self.entries@
    }

    pub closed spec fn repeated_of(&self) -> Seq<(u64, u64)> {
        self.repeated@
    }

    /// The facts hold the complete directory of their backing bytes, and its repeats.
    #[verifier::type_invariant]
    pub open spec fn verified(self) -> bool {
        &&& directory_entries(self.backing_of(), self.origin_of(), self.entries_of())
        &&& self.repeated_of() == repeats(raw_names(self.entries_of()), self.entries_of().len() as int)
    }

    /// The bytes these facts retain: the backing their entries live in and the raw names of their
    /// records, saturated at `u64::MAX`. A residency proxy, not an allocation measurement.
    pub closed spec fn weight_of(&self) -> u64 {
        names_weight(self.backing@.len() as u64, self.entries@, self.entries@.len() as int)
    }

    pub fn weight(&self) -> (w: u64)
        ensures
            w == self.weight_of(),
    {
        let n = self.backing.len();
        let mut w: u64 = n as u64;
        let mut i: usize = 0;
        while i < self.entries.len()
            invariant
                i <= self.entries@.len(),
                w == names_weight(n as u64, self.entries@, i as int),
            decreases self.entries@.len() - i,
        {
            let length = self.entries[i].id.raw_name.0.len() as u64;
            w = if w > u64::MAX - length { u64::MAX } else { w + length };
            i = i + 1;
        }
        w
    }

    pub fn origin(&self) -> (o: &ContainerOrigin)
        ensures
            *o == self.origin_of(),
    {
        &self.origin
    }

    pub fn entries(&self) -> (e: &[PhysicalEntry])
        ensures
            e@ == self.entries_of(),
    {
        self.entries.as_slice()
    }

    pub fn backing(&self) -> (b: &[u8])
        ensures
            b@ == self.backing_of(),
    {
        self.backing.as_slice()
    }

    /// Every ordinal whose raw name an earlier ordinal already carried, with that first ordinal,
    /// in ordinal order.
    pub fn repeated_names(&self) -> (r: &[(u64, u64)])
        ensures
            r@ == self.repeated_of(),
    {
        self.repeated.as_slice()
    }
}

/// The entry a directory record states, for the container at `origin` and at `ordinal`.
fn entry_of_record(record: &DirectoryRecord, origin: &ContainerOrigin, ordinal: u64) -> (e: PhysicalEntry)
    ensures
        same_origin(e.id.origin, *origin),
        e.id.ordinal == ordinal,
        e.id.raw_name.0@ == record.name@,
        e.compression_method == record.method,
        e.crc32 == record.crc32,
        e.compressed_size == record.compressed_size,
        e.uncompressed_size == record.uncompressed_size,
        e.local_header_offset == record.local_header_offset,
        e.nested_archive == (if archive_candidate_name(record.name@) {
            NestedArchiveState::CandidateNotScanned
        } else {
            NestedArchiveState::NotCandidate
        }),
{
    let nested = if is_archive_candidate_name(record.name.as_slice()) {
        NestedArchiveState::CandidateNotScanned
    } else {
        NestedArchiveState::NotCandidate
    };
    PhysicalEntry {
        id: PhysicalEntryId {
            origin: origin.duplicate(),
            ordinal,
            raw_name: ArchiveNameBytes(vstd::slice::slice_to_vec(record.name.as_slice())),
        },
        compression_method: record.method,
        crc32: record.crc32,
        compressed_size: record.compressed_size as u64,
        uncompressed_size: record.uncompressed_size as u64,
        local_header_offset: record.local_header_offset as u64,
        nested_archive: nested,
    }
}

proof fn lemma_first_with_stays(names: Seq<Seq<u8>>, name: Seq<u8>, j: int, m: int)
    requires
        0 <= j < m,
        j < names.len(),
        first_with(names, name, j) is None,
        names[j] == name,
    ensures
        first_with(names, name, m) == Some(j),
    decreases m,
{
    if m > j + 1 {
        lemma_first_with_stays(names, name, j, m - 1);
    }
}

/// The repeated raw names of some entries, in ordinal order.
fn find_repeats(entries: &Vec<PhysicalEntry>) -> (r: Vec<(u64, u64)>)
    requires
        entries@.len() <= u64::MAX,
    ensures
        r@ == repeats(raw_names(entries@), entries@.len() as int),
{
    let ghost names = raw_names(entries@);
    let mut out: Vec<(u64, u64)> = Vec::new();
    let mut k: usize = 0;
    while k < entries.len()
        invariant
            k <= entries@.len(),
            entries@.len() <= u64::MAX,
            names == raw_names(entries@),
            out@ == repeats(names, k as int),
        decreases entries@.len() - k,
    {
        let name = entries[k].id.raw_name.0.as_slice();
        assert(names[k as int] == name@);
        let mut j: usize = 0;
        let mut first: Option<usize> = None;
        while j < k
            invariant
                j <= k,
                k < entries@.len(),
                names == raw_names(entries@),
                name@ == names[k as int],
                first is None ==> first_with(names, names[k as int], j as int) is None,
                first matches Some(f) ==> f < k && first_with(names, names[k as int], k as int) == Some(f as int),
            decreases k - j,
        {
            if first.is_none() && same_bytes(entries[j].id.raw_name.0.as_slice(), name) {
                assert(names[j as int] == entries@[j as int].id.raw_name.0@);
                proof {
                    lemma_first_with_stays(names, names[k as int], j as int, k as int);
                }
                first = Some(j);
            }
            if first.is_none() {
                assert(names[j as int] == entries@[j as int].id.raw_name.0@);
            }
            j = j + 1;
        }
        match first {
            Some(f) => {
                out.push((k as u64, f as u64));
            },
            None => {},
        }
        k = k + 1;
    }
    out
}

/// Entries read, in order, from the directory the last end record of `s` declares are that
/// container's complete directory.
proof fn lemma_directory_entries(s: Seq<u8>, p: int, origin: ContainerOrigin, entries: Seq<PhysicalEntry>)
    requires
        last_eocd(s, p),
        eocd_valid(s, p),
        directory_ok(s, le32(s, p + 16) as int, le32(s, p + 16) + le32(s, p + 12), le16(s, p + 10) as nat),
        entries.len() == le16(s, p + 10),
        forall|i: int| 0 <= i < entries.len() ==> entry_from(s, record_offset(s, le32(s, p + 16) as int, i as nat), origin, i, #[trigger] entries[i]),
    ensures
        directory_entries(s, origin, entries),
        s.len() >= 22,
{
    assert forall|q: int| #[trigger] last_eocd(s, q) implies {
        let start = le32(s, q + 16) as int;
        let end = le32(s, q + 16) + le32(s, q + 12);
        &&& eocd_valid(s, q)
        &&& directory_ok(s, start, end, le16(s, q + 10) as nat)
        &&& entries.len() == le16(s, q + 10)
        &&& forall|i: int| 0 <= i < entries.len() ==> entry_from(s, record_offset(s, start, i as nat), origin, i, #[trigger] entries[i])
    } by {
        lemma_last_eocd_unique(s, p, q);
    }
}

/// Builds one container's verified facts from the bytes it lives in: its last end record, its
/// complete central directory (charged as `ArchiveEntries`), its entries in ordinal order and the
/// raw names that repeat among them.
pub fn container_facts(origin: ContainerOrigin, backing: Arc<Vec<u8>>, budget: &mut Budget) -> (r: Result<ContainerFacts>)
    ensures
        r matches Err(e) ==> crate::budget::honest_refusal(e, old(budget).limits_of()),
        final(budget).limits_of() == old(budget).limits_of(),
        spent(old(budget).usage_of(), final(budget).usage_of()),
        r matches Ok(f) ==> f.origin_of() == origin && f.backing_of() == backing@ && backing@.len() >= 22
            && final(budget).usage_of().counted(CountedBudgetDimension::EntryBytes)
            == old(budget).usage_of().counted(CountedBudgetDimension::EntryBytes),
        r matches Err(e) ==> is_stop(e) || is_budget(e, BudgetDimension::ArchiveEntries) || is_open_error(e)
            || is_directory_error(e),
        !zip_openable(backing@) ==> r is Err,
        r matches Err(e) ==> is_stop(e) || is_budget(e, BudgetDimension::ArchiveEntries) || !zip_readable(backing@),
{
    let bytes: &[u8] = backing.as_slice();
    let n = bytes.len();
    let bounds = match locate_directory(bytes) {
        Ok(b) => b,
        Err(e) => {
            proof {
                if zip_openable(bytes@) {
                    let p = choose|p: int| #[trigger] last_eocd(bytes@, p) && eocd_valid(bytes@, p);
                    assert(last_eocd(bytes@, p));
                }
            }
            return Err(e);
        },
    };
    let records = match read_directory(bytes, &bounds, budget) {
        Ok(v) => v,
        Err(e) => {
            proof {
                if zip_readable(bytes@) && is_directory_error(e) {
                    assert(last_eocd(bytes@, bounds.eocd as int) && eocd_valid(bytes@, bounds.eocd as int));
                }
            }
            return Err(e);
        },
    };
    let mut entries: Vec<PhysicalEntry> = Vec::new();
    let mut i: usize = 0;
    while i < records.len()
        invariant
            i <= records@.len(),
            records@.len() == bounds.entries,
            entries@.len() == i,
            forall|k: int| 0 <= k < records@.len() ==> record_matches(bytes@, record_offset(bytes@, bounds.start as int, k as nat), #[trigger] records@[k]),
            forall|k: int| 0 <= k < i ==> entry_from(bytes@, record_offset(bytes@, bounds.start as int, k as nat), origin, k, #[trigger] entries@[k]),
        decreases records@.len() - i,
    {
        let e = entry_of_record(&records[i], &origin, i as u64);
        proof {
            assert(record_matches(bytes@, record_offset(bytes@, bounds.start as int, i as nat), records@[i as int]));
        }
        entries.push(e);
        i = i + 1;
    }
    let repeated = find_repeats(&entries);
    proof {
        lemma_directory_entries(bytes@, bounds.eocd as int, origin, entries@);
    }
    Ok(ContainerFacts { origin, backing, entries, repeated })
}

/// The name of the container reached through entry `ordinal` of the container named `parent`:
/// the parent's name, a slash and the ordinal.
pub open spec fn child_name(parent: Seq<char>, ordinal: u64) -> Seq<char> {
    parent + "/"@ + decimal(ordinal as nat)
}

/// `child` is the origin reached from `parent` through the entry `entry`.
pub open spec fn child_origin(parent: ContainerOrigin, entry: PhysicalEntryId, child: ContainerOrigin) -> bool {
    &&& child.snapshot.0@ == parent.snapshot.0@
    &&& child.root_container.0@ == parent.root_container.0@
    &&& child.steps@.len() == parent.steps@.len() + 1
    &&& forall|i: int| 0 <= i < parent.steps@.len() ==> crate::model::same_step(#[trigger] child.steps@[i], parent.steps@[i])
    &&& child.steps@.last().via_ordinal == entry.ordinal
    &&& child.steps@.last().via_raw_name.0@ == entry.raw_name.0@
    &&& child.steps@.last().child_container.0@ == child_name(parent.current().0@, entry.ordinal)
}

/// The origin of the container an entry of the container at `parent` holds.
pub fn derive_child_origin(parent: &ContainerOrigin, entry: &PhysicalEntryId) -> (o: ContainerOrigin)
    ensures
        child_origin(*parent, *entry, o),
{
    let mut child = parent.duplicate();
    let mut name = parent.current_container().0.clone();
    name.append("/");
    push_decimal(&mut name, entry.ordinal);
    let step = ContainerOriginStep {
        via_ordinal: entry.ordinal,
        via_raw_name: ArchiveNameBytes(vstd::slice::slice_to_vec(entry.raw_name.0.as_slice())),
        child_container: ContainerId(name),
    };
    let ghost before = child.steps@;
    child.steps.push(step);
    proof {
        assert(child.steps@.last().child_container.0@ =~= child_name(parent.current().0@, entry.ordinal));
        assert forall|i: int| 0 <= i < parent.steps@.len() implies crate::model::same_step(#[trigger] child.steps@[i], parent.steps@[i]) by {
            assert(child.steps@[i] == before[i]);
        }
    }
    child
}

/// The layout of an entry, as its record states it.
pub open spec fn layout_of(e: PhysicalEntry) -> EntryLayout {
    EntryLayout {
        method: e.compression_method,
        crc32: e.crc32,
        compressed_size: e.compressed_size,
        uncompressed_size: e.uncompressed_size,
        local_header_offset: e.local_header_offset,
    }
}

/// Opens the container entry `candidate` of `parent` holds: its depth is accepted by the budget,
/// its bytes are read and checked, and its own directory is read completely.
pub fn child_container_facts(parent: &ContainerFacts, candidate: usize, budget: &mut Budget) -> (r: Result<ContainerFacts>)
    requires
        candidate < parent.entries_of().len(),
    ensures
        r matches Err(e) ==> crate::budget::honest_refusal(e, old(budget).limits_of()),
        final(budget).limits_of() == old(budget).limits_of(),
        spent(old(budget).usage_of(), final(budget).usage_of()),
        r is Ok ==> old(budget).usage_of().counted(CountedBudgetDimension::EntryBytes)
            < final(budget).usage_of().counted(CountedBudgetDimension::EntryBytes)
            <= final(budget).limits_of().counted(CountedBudgetDimension::EntryBytes),
        r matches Ok(f) ==> {
            let e = parent.entries_of()[candidate as int];
            &&& child_origin(parent.origin_of(), e.id, f.origin_of())
            &&& local_ok(parent.backing_of(), e.local_header_offset as int, e.compressed_size as int)
            &&& decoded(local_payload(parent.backing_of(), e.local_header_offset as int, e.compressed_size as int), layout_of(e))
                == Some(f.backing_of())
            &&& crc32_of(f.backing_of()) == e.crc32
        },
        r matches Err(e) ==> is_stop(e) || e is BudgetExceeded || is_open_error(e) || is_directory_error(e)
            || is_entry_read_error(e),
{
    let entry = &parent.entries()[candidate];
    let origin = derive_child_origin(parent.origin(), &entry.id);
    let depth = origin.steps.len() as u64;
    budget.check_nested_depth(depth)?;
    let layout = EntryLayout {
        method: entry.compression_method,
        crc32: entry.crc32,
        compressed_size: entry.compressed_size,
        uncompressed_size: entry.uncompressed_size,
        local_header_offset: entry.local_header_offset,
    };
    let bytes = entry_bytes(parent.backing(), &layout, budget)?;
    container_facts(origin, Arc::new(bytes), budget)
}

/// A failure to read one entry's bytes out of its container.
pub open spec fn is_entry_read_error(e: Error) -> bool {
    ||| is_invalid(e, "zip_local_header"@)
    ||| crate::error::is_unsupported(e, "zip_compression_method"@)
    ||| is_invalid(e, "zip_entry_size"@)
    ||| is_invalid(e, "zip_entry_inflate"@)
    ||| is_invalid(e, "zip_entry_crc"@)
}

/// Whether a failure ends a walk rather than leaving one subtree unknown: a cancellation, or a
/// budget refusal other than a refused nesting depth.
pub open spec fn stops_walk(e: Error) -> bool {
    match e {
        Error::Cancelled { .. } => true,
        Error::BudgetExceeded { dimension, .. } => dimension != BudgetDimension::NestedDepth,
        _ => false,
    }
}

pub fn walk_stops(e: &Error) -> (b: bool)
    ensures
        b == stops_walk(*e),
{
    match e {
        Error::Cancelled { .. } => true,
        Error::BudgetExceeded { dimension, .. } => *dimension != BudgetDimension::NestedDepth,
        _ => false,
    }
}

/// The code a tree diagnostic carries for an error.
pub open spec fn error_code(e: Error) -> Seq<char> {
    match e {
        Error::InvalidInput { code, .. } => code@,
        Error::Unsupported { code, .. } => code@,
        Error::Cancelled { .. } => "cancelled"@,
        Error::BudgetExceeded { .. } => "budget_exceeded"@,
    }
}

/// The diagnostic a failure to read one subtree publishes, naming the entry it hangs from.
pub fn tree_diagnostic(error: &Error, entry: Option<&PhysicalEntry>) -> (d: Diagnostic)
    ensures
        d.code@ == error_code(*error),
        d.severity == DiagnosticSeverity::Error,
        entry is None ==> d.provenance is None,
        entry matches Some(e) ==> (d.provenance matches Some(p) && p.location matches Location::Entry { id, span }
            && crate::model::same_entry(id, e.id) && span.start == e.local_header_offset && span.length == e.compressed_size),
{
    let (code, message) = match error {
        Error::InvalidInput { code, message } => (code.clone(), message.clone()),
        Error::Unsupported { code, message } => (code.clone(), message.clone()),
        Error::Cancelled { reason } => (String::from_str("cancelled"), reason.clone()),
        Error::BudgetExceeded { .. } => (String::from_str("budget_exceeded"), String::from_str("the request's budget refused the subtree")),
    };
    let provenance = match entry {
        Some(e) => Some(Provenance {
            location: Location::Entry {
                id: e.id.duplicate(),
                span: ByteSpan::new(e.local_header_offset, e.compressed_size),
            },
        }),
        None => None,
    };
    Diagnostic { code, severity: DiagnosticSeverity::Error, message, provenance }
}

/// `t` is why a subtree's failure `e` bounds a report.
pub open spec fn reason_for(e: Error, t: TerminationReason) -> bool {
    match e {
        Error::InvalidInput { code, .. } => t matches TerminationReason::Error { code: c } && c@ == code@,
        Error::Unsupported { code, .. } => t matches TerminationReason::Unsupported { code: c } && c@ == code@,
        Error::Cancelled { .. } => t matches TerminationReason::Error { code: c } && c@ == "cancelled"@,
        Error::BudgetExceeded { dimension, .. } => t == TerminationReason::BudgetExceeded { dimension },
    }
}

fn termination(e: &Error) -> (t: TerminationReason)
    ensures
        reason_for(*e, t),
{
    match e {
        Error::InvalidInput { code, .. } => TerminationReason::Error { code: code.clone() },
        Error::Unsupported { code, .. } => TerminationReason::Unsupported { code: code.clone() },
        Error::Cancelled { .. } => TerminationReason::Error { code: String::from_str("cancelled") },
        Error::BudgetExceeded { dimension, .. } => TerminationReason::BudgetExceeded { dimension: *dimension },
    }
}

/// Records the first subtree failure of a walk as the partial report it bounds; a later failure
/// leaves the first one in place.
pub fn merge_tree_error(issue: &mut Option<ExecutionReport>, error: &Error, budget: &Budget)
    ensures
        *old(issue) is Some ==> *final(issue) == *old(issue),
        *old(issue) is None ==> (*final(issue) matches Some(ExecutionReport::Partial { reason, usage })
            && reason_for(*error, reason)
            && usage == (UsageSnapshot { elapsed_millis: usage.elapsed_millis, ..budget.usage_of() })),
{
    if issue.is_none() {
        *issue = Some(ExecutionReport::Partial { reason: termination(error), usage: budget.usage() });
    }
}

/// What a walk covers: the whole snapshot (its root container's own entries), or the artifact
/// tree under the root container, nested containers included.
#[derive(Clone, Debug, PartialEq, Eq)]
pub enum PhysicalScope {
    SnapshotAll,
    ArtifactTree { root_container: ContainerId },
}

/// Whether two records state the same entry.
pub fn same_record(a: &PhysicalEntry, b: &PhysicalEntry) -> (r: bool)
    ensures
        r == same_physical_entry(*a, *b),
{
    a.id.ordinal == b.id.ordinal && same_bytes(a.id.raw_name.0.as_slice(), b.id.raw_name.0.as_slice())
        && crate::model::eq_origin(&a.id.origin, &b.id.origin) && a.compression_method == b.compression_method
        && a.crc32 == b.crc32 && a.compressed_size == b.compressed_size && a.uncompressed_size == b.uncompressed_size
        && a.local_header_offset == b.local_header_offset && a.nested_archive == b.nested_archive
}

/// The bytes of one entry, as a read through its container materialized them.
pub struct MaterializedEntry {
    /// The entry the bytes are.
    pub entry: PhysicalEntryId,
    pub bytes: Vec<u8>,
    /// The content digest of `bytes`.
    pub content_digest: crate::model::Digest,
}

/// `bytes` are what entry `e` holds in a container whose backing is `b`: its payload after its
/// local header, stored or inflated to its declared size, with its CRC-32.
pub open spec fn holds_entry(b: Seq<u8>, e: PhysicalEntry, bytes: Seq<u8>) -> bool {
    &&& local_ok(b, e.local_header_offset as int, e.compressed_size as int)
    &&& decoded(local_payload(b, e.local_header_offset as int, e.compressed_size as int), layout_of(e)) == Some(bytes)
    &&& crc32_of(bytes) == e.crc32
}

/// A failure of a directed read of one container or entry of a snapshot.
pub open spec fn is_directed_read_error(e: Error) -> bool {
    ||| is_stop(e)
    ||| e is BudgetExceeded
    ||| is_open_error(e)
    ||| is_directory_error(e)
    ||| is_entry_read_error(e)
    ||| is_invalid(e, "entry_not_found"@)
    ||| is_invalid(e, "entry_snapshot_mismatch"@)
}

impl ArtifactSnapshot {
    /// The verified facts of the container `origin` names in this snapshot, opened from the root
    /// down through each step of the origin; every step is checked against the entry it passes
    /// through and the container name it reaches.
    pub fn container_at(&self, origin: &ContainerOrigin, budget: &mut Budget) -> (r: Result<ContainerFacts>)
        ensures
            r matches Err(e) ==> crate::budget::honest_refusal(e, old(budget).limits_of()),
            final(budget).limits_of() == old(budget).limits_of(),
            spent(old(budget).usage_of(), final(budget).usage_of()),
            r matches Ok(f) ==> same_origin(f.origin_of(), *origin)
                && (origin.steps@.len() == 0 ==> f.backing_of() == self.bytes_of()),
            r matches Err(e) ==> is_directed_read_error(e),
            origin.snapshot.0@ != self.id_of().0@ || origin.root_container.0@ != "root"@ ==> r is Err,
    {
        if origin.snapshot.0 != self.id.0 {
            return Err(Error::invalid_input("entry_snapshot_mismatch", "the container belongs to another snapshot"));
        }
        let root = root_origin(&self.id);
        if origin.root_container.0 != root.root_container.0 {
            return Err(Error::invalid_input("entry_not_found", "the origin names another root container"));
        }
        let mut current = container_facts(root, arc_share(&self.bytes), budget)?;
        let mut k: usize = 0;
        while k < origin.steps.len()
            invariant
                k <= origin.steps@.len(),
                budget.limits_of() == old(budget).limits_of(),
                spent(old(budget).usage_of(), budget.usage_of()),
                current.origin_of().snapshot.0@ == origin.snapshot.0@,
                current.origin_of().root_container.0@ == origin.root_container.0@,
                current.origin_of().steps@.len() == k,
                forall|i: int| 0 <= i < k ==> crate::model::same_step(#[trigger] current.origin_of().steps@[i], origin.steps@[i]),
                k == 0 ==> current.backing_of() == self.bytes_of(),
            decreases origin.steps@.len() - k,
        {
            let step = &origin.steps[k];
            let count = current.entries().len();
            if step.via_ordinal >= count as u64 {
                return Err(Error::invalid_input("entry_not_found", "the origin passes through an entry its container does not hold"));
            }
            let ordinal = step.via_ordinal as usize;
            if !same_bytes(current.entries()[ordinal].id.raw_name.0.as_slice(), step.via_raw_name.0.as_slice()) {
                return Err(Error::invalid_input("entry_not_found", "the origin passes through an entry of another name"));
            }
            proof {
                use_type_invariant(&current);
                let s = current.backing_of();
                let p = choose|p: int| #[trigger] crate::zip::last_eocd(s, p) && crate::zip::eocd_valid(s, p);
                assert(crate::zip::last_eocd(s, p));
                assert(entry_from(s, record_offset(s, le32(s, p + 16) as int, ordinal as nat), current.origin_of(),
                    ordinal as int, current.entries_of()[ordinal as int]));
            }
            let child = child_container_facts(&current, ordinal, budget)?;
            if child.origin().current_container().0 != step.child_container.0 {
                return Err(Error::invalid_input("entry_not_found", "the origin names another container than its entry holds"));
            }
            proof {
                let before = current.origin_of();
                assert forall|i: int| 0 <= i < k + 1 implies crate::model::same_step(#[trigger] child.origin_of().steps@[i], origin.steps@[i]) by {
                    if i < k {
                        assert(crate::model::same_step(child.origin_of().steps@[i], before.steps@[i]));
                    }
                }
            }
            current = child;
            k = k + 1;
        }
        Ok(current)
    }

    /// The record this snapshot's directory holds for an entry identity, or `None` when the
    /// container it names holds no entry of that name at that ordinal.
    pub fn container_record(&self, entry: &PhysicalEntryId, budget: &mut Budget) -> (r: Result<Option<PhysicalEntry>>)
        ensures
            r matches Err(e) ==> crate::budget::honest_refusal(e, old(budget).limits_of()),
            final(budget).limits_of() == old(budget).limits_of(),
            spent(old(budget).usage_of(), final(budget).usage_of()),
            r matches Ok(Some(e)) ==> crate::model::same_entry(e.id, *entry),
            r matches Err(e) ==> is_directed_read_error(e),
    {
        let facts = self.container_at(&entry.origin, budget)?;
        let count = facts.entries().len();
        if entry.ordinal >= count as u64 {
            return Ok(None);
        }
        let record = &facts.entries()[entry.ordinal as usize];
        if !same_bytes(record.id.raw_name.0.as_slice(), entry.raw_name.0.as_slice()) {
            return Ok(None);
        }
        proof {
            use_type_invariant(&facts);
            let s = facts.backing_of();
            let p = choose|p: int| #[trigger] crate::zip::last_eocd(s, p) && crate::zip::eocd_valid(s, p);
            assert(crate::zip::last_eocd(s, p));
            assert(entry_from(s, record_offset(s, le32(s, p + 16) as int, entry.ordinal as nat), facts.origin_of(),
                entry.ordinal as int, facts.entries_of()[entry.ordinal as int]));
        }
        Ok(Some(record.duplicate()))
    }

    /// The bytes of one entry of this snapshot, read through the container its identity names:
    /// the entry must be the record that container's directory holds, and its bytes are checked
    /// against its declared size and CRC-32 before they are returned.
    #[verifier::spinoff_prover]
    pub fn read_entry(&self, entry: &PhysicalEntry, budget: &mut Budget) -> (r: Result<MaterializedEntry>)
        ensures
            r matches Err(e) ==> crate::budget::honest_refusal(e, old(budget).limits_of()),
            final(budget).limits_of() == old(budget).limits_of(),
            spent(old(budget).usage_of(), final(budget).usage_of()),
            r matches Ok(m) ==> crate::model::same_entry(m.entry, entry.id)
                && m.content_digest.0@ == blake3_hex(m.bytes@)
                && (exists|b: Seq<u8>| #[trigger] holds_entry(b, *entry, m.bytes@))
                && (entry.id.origin.steps@.len() == 0 ==> holds_entry(self.bytes_of(), *entry, m.bytes@)),
            r matches Err(e) ==> is_directed_read_error(e),
    {
        let facts = self.container_at(&entry.id.origin, budget)?;
        let count = facts.entries().len();
        if entry.id.ordinal >= count as u64 || !same_record(&facts.entries()[entry.id.ordinal as usize], entry) {
            return Err(Error::invalid_input("entry_not_found", "the entry is not the record its container's directory holds"));
        }
        let layout = EntryLayout {
            method: entry.compression_method,
            crc32: entry.crc32,
            compressed_size: entry.compressed_size,
            uncompressed_size: entry.uncompressed_size,
            local_header_offset: entry.local_header_offset,
        };
        let bytes = entry_bytes(facts.backing(), &layout, budget)?;
        let content_digest = content_digest(bytes.as_slice());
        proof {
            assert(holds_entry(facts.backing_of(), *entry, bytes@));
        }
        let id = entry.id.duplicate();
        assert(crate::model::same_entry(id, entry.id));
        assert(content_digest.0@ == blake3_hex(bytes@));
        assert(exists|b: Seq<u8>| #[trigger] holds_entry(b, *entry, bytes@));
        assert(entry.id.origin.steps@.len() == 0 ==> holds_entry(self.bytes_of(), *entry, bytes@));
        Ok(MaterializedEntry { entry: id, bytes, content_digest })
    }
}

} // verus!
