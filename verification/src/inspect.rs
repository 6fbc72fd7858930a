//! Bounded materialization and inspection of one class inside a snapshot.
//!
//! One inspection request is one class: the target names either the root of a standalone class
//! snapshot or one physical entry of a ZIP snapshot. It is materialized through the snapshot's
//! own bounded read, the identity of the bytes is derived from what was returned, and the
//! inspection that follows reads only those bytes.

use crate::artifact::{ArtifactKind, ArtifactSnapshot, PhysicalEntry, holds_entry, is_directed_read_error};
use crate::budget::{Budget, BudgetDimension};
use crate::bytecode::{BytecodeInspection, coverage_is, method_code_coverage, prefix_end};
use crate::classfile::{bytecode_of, bytecode_read, bytecode_refusal, header_read, readable};
use crate::decoder::class_decode;
use crate::version::{capability_of, strict_refusal};
use crate::error::{Error, Result, is_budget, is_invalid, is_stop};
use crate::header::{HeaderInspection, InspectionMode, MethodSelector};
use crate::model::{ClassBytesId, Coverage, CoverageDimension, CoverageRange, CoverageState, ExecutionReport, PhysicalClassLocation, PhysicalDefinitionId, PhysicalEntryId, PhysicalVariant, SnapshotId, blake3_hex, content_digest, physical_variant_for_path, same_entry};
use vstd::prelude::*;

verus! {


/// Which class of a snapshot an inspection request names.
#[derive(Clone, Copy, Debug)]
pub enum ClassTarget<'a> {
    /// The class a standalone class snapshot is.
    Root,
    /// One physical entry of a ZIP snapshot, as the snapshot itself enumerated it.
    Entry(&'a PhysicalEntry),
}

/// Where one materialized class came from and which bytes it is.
#[derive(Clone, Debug, PartialEq, Eq, Hash)]
pub struct ClassSource {
    pub location: PhysicalClassLocation,
    pub class_bytes: ClassBytesId,
}

impl ClassSource {
    pub fn snapshot(&self) -> (s: &SnapshotId)
        ensures
            *s == self.location.snapshot_of(),
    {
        self.location.snapshot()
    }

    pub fn entry(&self) -> (e: Option<&PhysicalEntryId>)
        ensures
            match self.location {
                PhysicalClassLocation::StandaloneRoot { .. } => e is None,
                PhysicalClassLocation::ArchiveEntry { entry } => e == Some(&entry),
            },
    {
        self.location.entry()
    }
}

#[derive(Clone, Debug, PartialEq, Eq)]
pub struct EngineHeaderReport {
    pub source: ClassSource,
    pub inspection: HeaderInspection,
    pub coverage: Coverage,
    pub execution: ExecutionReport,
}

#[derive(Clone, Debug, PartialEq, Eq)]
pub struct EngineBytecodeReport {
    pub source: ClassSource,
    pub inspection: BytecodeInspection,
    pub coverage: Coverage,
}

/// `source` names `bytes` by their content digest and length.
pub open spec fn names_bytes(source: ClassSource, bytes: Seq<u8>) -> bool {
    source.class_bytes.digest.0@ == blake3_hex(bytes) && source.class_bytes.length == bytes.len()
}

/// `bytes` and `source` are what materializing `target` of `snapshot` gives: the standalone
/// snapshot's own bytes at its root, or the checked bytes of the entry at that entry's location.
pub open spec fn materialized(snapshot: ArtifactSnapshot, target: ClassTarget, bytes: Seq<u8>, source: ClassSource) -> bool {
    &&& names_bytes(source, bytes)
    &&& match target {
        ClassTarget::Root => {
            &&& snapshot.kind_of() == ArtifactKind::StandaloneClass
            &&& bytes == snapshot.bytes_of()
            &&& source.location matches PhysicalClassLocation::StandaloneRoot { snapshot: s } && s.0@ == snapshot.id_of().0@
        },
        ClassTarget::Entry(e) => {
            &&& snapshot.kind_of() == ArtifactKind::Zip
            &&& exists|b: Seq<u8>| #[trigger] holds_entry(b, *e, bytes)
            &&& (e.id.origin.steps@.len() == 0 ==> holds_entry(snapshot.bytes_of(), *e, bytes))
            &&& source.location matches PhysicalClassLocation::ArchiveEntry { entry } && same_entry(entry, e.id)
        },
    }
}

/// A failure to materialize a target.
pub open spec fn is_materialize_error(e: Error) -> bool {
    ||| is_directed_read_error(e)
    ||| is_budget(e, BudgetDimension::ReadBytes)
    ||| is_invalid(e, "class_target_root_on_zip"@)
    ||| is_invalid(e, "class_target_entry_on_class"@)
}

/// The coverage of a header inspection: the class's header schema scanned end to end, nothing
/// else requested.
pub open spec fn is_header_coverage(c: Coverage, class_length: u64) -> bool {
    &&& c.artifact_structural.state == CoverageState::CompleteWithinSchema
    &&& c.artifact_structural.scanned@.len() == 1
    &&& c.artifact_structural.scanned@[0].label@ == "class_header_schema"@
    &&& c.artifact_structural.scanned@[0].start == 0
    &&& c.artifact_structural.scanned@[0].end == class_length
    &&& c.artifact_structural.skipped@.len() == 0
    &&& c.artifact_structural.uninterpreted_extensions@.len() == 0
    &&& c.runtime_resolution.is_not_requested()
    &&& c.dynamic_analysis.is_not_requested()
}

/// Materializes the target class and inspects its header under `mode`.
pub fn inspect_header(snapshot: &ArtifactSnapshot, target: ClassTarget<'_>, budget: &mut Budget, mode: InspectionMode) -> (r: Result<EngineHeaderReport>)
    ensures
        r matches Err(e) ==> crate::budget::honest_refusal(e, old(budget).limits_of()),
        final(budget).limits_of() == old(budget).limits_of(),
        r matches Ok(report) ==> (exists|bytes: Seq<u8>| #[trigger] materialized(*snapshot, target, bytes, report.source)
            && header_read(bytes, mode, report.inspection))
            && is_header_coverage(report.coverage, report.source.class_bytes.length)
            && report.execution is Complete,
        target is Root && snapshot.kind_of() == ArtifactKind::Zip ==> (r matches Err(e) && is_invalid(e, "class_target_root_on_zip"@)),
        target is Entry && snapshot.kind_of() == ArtifactKind::StandaloneClass
            ==> (r matches Err(e) && is_invalid(e, "class_target_entry_on_class"@)),
        target is Root && snapshot.kind_of() == ArtifactKind::StandaloneClass ==> (r matches Err(e) ==> (
            readable(snapshot.bytes_of()) && !(mode == InspectionMode::Strict && (class_decode(snapshot.bytes_of()) matches Ok((major, minor, _))
                && strict_refusal(capability_of(major, minor)) is Some)) ==> is_stop(e) || e is BudgetExceeded)),
{
    let (bytes, source) = materialize(snapshot, target, budget)?;
    let inspection = crate::classfile::inspect_header(bytes.as_slice(), budget, mode)?;
    let coverage = header_coverage(source.class_bytes.length);
    let execution = ExecutionReport::Complete { usage: budget.usage() };
    Ok(EngineHeaderReport { source, inspection, coverage, execution })
}

/// Materializes the target class and inspects the body of the selected method.
#[verifier::rlimit(100)]
#[verifier::spinoff_prover]
pub fn inspect_method_bytecode(snapshot: &ArtifactSnapshot, target: ClassTarget<'_>, selector: MethodSelector, budget: &mut Budget) -> (r: Result<EngineBytecodeReport>)
    ensures
        r matches Err(e) ==> crate::budget::honest_refusal(e, old(budget).limits_of()),
        final(budget).limits_of() == old(budget).limits_of(),
        r matches Ok(report) ==> exists|bytes: Seq<u8>| #[trigger] materialized(*snapshot, target, bytes, report.source)
            && bytecode_read(bytes, selector, report.inspection) && bytecode_of(bytes, selector, report.inspection)
            && !crate::classfile::version_refuses(bytes),
        r matches Ok(report) ==> coverage_is(report.coverage, report.inspection.code_span.length as int,
            prefix_end(report.inspection.instructions@), report.inspection.exception_handlers@.len() as int,
            report.inspection.exception_handler_count as int, report.inspection.execution is Complete,
            report.inspection.execution is Complete
                || !(report.inspection.stopped_at matches Some(s) && s is ExceptionHandlers)),
        target is Root && snapshot.kind_of() == ArtifactKind::Zip ==> (r matches Err(e) && is_invalid(e, "class_target_root_on_zip"@)),
        target is Entry && snapshot.kind_of() == ArtifactKind::StandaloneClass
            ==> (r matches Err(e) && is_invalid(e, "class_target_entry_on_class"@)),
        target is Root && snapshot.kind_of() == ArtifactKind::StandaloneClass ==> (r matches Err(e) ==> (
            readable(snapshot.bytes_of()) && (class_decode(snapshot.bytes_of()) matches Ok((major, minor, _))
                && strict_refusal(capability_of(major, minor)) is None)
            ==> is_stop(e) || e is BudgetExceeded || bytecode_refusal(snapshot.bytes_of(), selector, e))),
{
    let (bytes, source) = materialize(snapshot, target, budget)?;
    let inspection = bytecode_of_bytes(bytes.as_slice(), selector, budget)?;
    let coverage = match bytecode_coverage(&inspection) {
        Ok(c) => c,
        Err(e) => {
            proof {
                assert(prefix_end(inspection.instructions@) <= inspection.code_span.length);
                assert(inspection.exception_handlers@.len() <= inspection.exception_handler_count);
            }
            return Err(e);
        },
    };
    Ok(EngineBytecodeReport { source, inspection, coverage })
}

/// The bytecode read of materialized class bytes, as the engine report needs it.
fn bytecode_of_bytes(bytes: &[u8], selector: MethodSelector, budget: &mut Budget) -> (r: Result<BytecodeInspection>)
    ensures
        r matches Err(e) ==> crate::budget::honest_refusal(e, old(budget).limits_of()),
        final(budget).limits_of() == old(budget).limits_of(),
        r matches Ok(b) ==> bytecode_read(bytes@, selector, b) && bytecode_of(bytes@, selector, b)
            && !crate::classfile::version_refuses(bytes@),
        r matches Err(e) ==> (readable(bytes@) && (class_decode(bytes@) matches Ok((major, minor, _))
            && strict_refusal(capability_of(major, minor)) is None)
            ==> is_stop(e) || e is BudgetExceeded || bytecode_refusal(bytes@, selector, e)),
{
    crate::classfile::inspect_method_bytecode(bytes, selector, budget)
}

/// The class bytes and their identity, read under the snapshot's own bounded accounting. The
/// target's kind must match the snapshot's kind.
fn materialize(snapshot: &ArtifactSnapshot, target: ClassTarget<'_>, budget: &mut Budget) -> (r: Result<(Vec<u8>, ClassSource)>)
    ensures
        r matches Err(e) ==> crate::budget::honest_refusal(e, old(budget).limits_of()),
        final(budget).limits_of() == old(budget).limits_of(),
        r matches Ok((bytes, source)) ==> materialized(*snapshot, target, bytes@, source),
        r matches Err(e) ==> is_materialize_error(e),
        target is Root && snapshot.kind_of() == ArtifactKind::Zip ==> (r matches Err(e) && is_invalid(e, "class_target_root_on_zip"@)),
        target is Entry && snapshot.kind_of() == ArtifactKind::StandaloneClass
            ==> (r matches Err(e) && is_invalid(e, "class_target_entry_on_class"@)),
        target is Root && snapshot.kind_of() == ArtifactKind::StandaloneClass ==> (r matches Err(e)
            ==> crate::error::is_stop(e) || is_budget(e, BudgetDimension::ReadBytes)),
{
    match target {
        ClassTarget::Root => materialize_root(snapshot, budget),
        ClassTarget::Entry(entry) => {
            if snapshot.kind() != ArtifactKind::Zip {
                return Err(Error::invalid_input("class_target_entry_on_class", "entry class target requires a ZIP snapshot"));
            }
            let materialized = snapshot.read_entry(entry, budget)?;
            let length = materialized.bytes.len() as u64;
            let source = ClassSource {
                location: PhysicalClassLocation::ArchiveEntry { entry: materialized.entry },
                class_bytes: ClassBytesId { digest: materialized.content_digest, length },
            };
            Ok((materialized.bytes, source))
        },
    }
}

/// Reads the bytes of the standalone class a class snapshot is, charged as the caller's own
/// read, and states the source they are. The bytes are not parsed.
pub fn materialize_root(snapshot: &ArtifactSnapshot, budget: &mut Budget) -> (r: Result<(Vec<u8>, ClassSource)>)
    ensures
        r matches Err(e) ==> crate::budget::honest_refusal(e, old(budget).limits_of()),
        final(budget).limits_of() == old(budget).limits_of(),
        r matches Ok((bytes, source)) ==> materialized(*snapshot, ClassTarget::Root, bytes@, source),
        r matches Err(e) ==> crate::error::is_stop(e) || is_budget(e, BudgetDimension::ReadBytes)
            || is_invalid(e, "class_target_root_on_zip"@),
        snapshot.kind_of() == ArtifactKind::Zip ==> (r matches Err(e) && is_invalid(e, "class_target_root_on_zip"@)),
        snapshot.kind_of() == ArtifactKind::StandaloneClass ==> (r matches Err(e) ==> crate::error::is_stop(e)
            || is_budget(e, BudgetDimension::ReadBytes)),
{
    if snapshot.kind() != ArtifactKind::StandaloneClass {
        return Err(Error::invalid_input("class_target_root_on_zip", "root class target requires a standalone CLASS snapshot"));
    }
    let bytes = snapshot.root_bytes(budget)?;
    let digest = content_digest(bytes.as_slice());
    let length = bytes.len() as u64;
    let source = ClassSource {
        location: PhysicalClassLocation::StandaloneRoot { snapshot: SnapshotId(snapshot.id().0.clone()) },
        class_bytes: ClassBytesId { digest, length },
    };
    Ok((bytes, source))
}

/// Two variants are the same syntactic variant.
pub open spec fn same_variant(a: PhysicalVariant, b: PhysicalVariant) -> bool {
    match (a, b) {
        (PhysicalVariant::Base, PhysicalVariant::Base) => true,
        (PhysicalVariant::MultiRelease { version: x }, PhysicalVariant::MultiRelease { version: y }) => x == y,
        (PhysicalVariant::Other { label: x }, PhysicalVariant::Other { label: y }) => x@ == y@,
        _ => false,
    }
}

fn eq_variant(a: &PhysicalVariant, b: &PhysicalVariant) -> (r: bool)
    ensures
        r == same_variant(*a, *b),
{
    match (a, b) {
        (PhysicalVariant::Base, PhysicalVariant::Base) => true,
        (PhysicalVariant::MultiRelease { version: x }, PhysicalVariant::MultiRelease { version: y }) => *x == *y,
        (PhysicalVariant::Other { label: x }, PhysicalVariant::Other { label: y }) => *x == *y,
        _ => false,
    }
}

/// A failure of an identity-addressed read.
pub open spec fn is_definition_error(e: Error) -> bool {
    ||| is_materialize_error(e)
    ||| is_invalid(e, "definition_snapshot_mismatch"@)
    ||| is_invalid(e, "definition_location_mismatch"@)
    ||| is_invalid(e, "definition_entry_not_found"@)
    ||| is_invalid(e, "definition_variant_mismatch"@)
    ||| is_invalid(e, "definition_class_bytes_mismatch"@)
}

/// `bytes` and `source` are the class `definition` names in `snapshot`: the bytes it names by
/// digest and length, read at its location, and that location.
pub open spec fn definition_read(snapshot: ArtifactSnapshot, definition: PhysicalDefinitionId, bytes: Seq<u8>, source: ClassSource) -> bool {
    &&& names_bytes(source, bytes)
    &&& source.class_bytes.digest.0@ == definition.class_bytes.digest.0@
    &&& source.class_bytes.length == definition.class_bytes.length
    &&& match definition.location {
        PhysicalClassLocation::StandaloneRoot { snapshot: named } => {
            &&& named.0@ == snapshot.id_of().0@
            &&& snapshot.kind_of() == ArtifactKind::StandaloneClass
            &&& bytes == snapshot.bytes_of()
            &&& (source.location matches PhysicalClassLocation::StandaloneRoot { snapshot: s } && s.0@ == named.0@)
        },
        PhysicalClassLocation::ArchiveEntry { entry } => {
            &&& entry.origin.snapshot.0@ == snapshot.id_of().0@
            &&& snapshot.kind_of() == ArtifactKind::Zip
            &&& exists|record: PhysicalEntry, b: Seq<u8>| #![trigger holds_entry(b, record, bytes)]
                same_entry(record.id, entry) && holds_entry(b, record, bytes)
            &&& (source.location matches PhysicalClassLocation::ArchiveEntry { entry: e } && same_entry(e, entry))
        },
    }
}

/// Reads the class one physical definition names, and states the source those bytes came from.
///
/// The location decides which bounded read is used, and the result is verified against the
/// definition before it is returned: the location's snapshot is this snapshot and its shape
/// matches the snapshot's kind, an entry location names an entry this snapshot holds at those
/// coordinates, the entry's raw name derives the definition's variant, and the bytes' own
/// digest and length are the definition's. The third element says whether a retained earlier
/// read answered: this library retains none, so it is always `false`.
pub fn materialize_definition(snapshot: &ArtifactSnapshot, definition: &PhysicalDefinitionId, budget: &mut Budget) -> (r: Result<(Vec<u8>, ClassSource, bool)>)
    ensures
        r matches Err(e) ==> crate::budget::honest_refusal(e, old(budget).limits_of()),
        final(budget).limits_of() == old(budget).limits_of(),
        r matches Ok((bytes, source, retained)) ==> !retained && definition_read(*snapshot, *definition, bytes@, source),
        r matches Err(e) ==> is_definition_error(e),
        definition.location.snapshot_of().0@ != snapshot.id_of().0@
            ==> (r matches Err(e) && is_invalid(e, "definition_snapshot_mismatch"@)),
        definition.location.snapshot_of().0@ == snapshot.id_of().0@ && definition.location is StandaloneRoot
            && snapshot.kind_of() == ArtifactKind::Zip ==> (r matches Err(e) && is_invalid(e, "class_target_root_on_zip"@)),
        definition.location.snapshot_of().0@ == snapshot.id_of().0@ && definition.location is ArchiveEntry
            && snapshot.kind_of() != ArtifactKind::Zip ==> (r matches Err(e) && is_invalid(e, "definition_location_mismatch"@)),
{
    match &definition.location {
        PhysicalClassLocation::StandaloneRoot { snapshot: named } => {
            require_snapshot(snapshot, named)?;
            let (bytes, source) = materialize_root(snapshot, budget)?;
            require_class_bytes(definition, &source.class_bytes)?;
            Ok((bytes, source, false))
        },
        PhysicalClassLocation::ArchiveEntry { entry } => {
            require_snapshot(snapshot, entry.snapshot())?;
            if snapshot.kind() != ArtifactKind::Zip {
                return Err(Error::invalid_input(
                    "definition_location_mismatch",
                    "an archive-entry definition requires a ZIP snapshot",
                ));
            }
            let record = match snapshot.container_record(entry, budget)? {
                Some(record) => record,
                None => {
                    return Err(Error::invalid_input(
                        "definition_entry_not_found",
                        "the definition names an entry this snapshot does not hold at those coordinates",
                    ));
                },
            };
            let variant = physical_variant_for_path(record.id.raw_name.0.as_slice());
            if !eq_variant(&variant, &definition.variant) {
                return Err(Error::invalid_input(
                    "definition_variant_mismatch",
                    "the definition's physical variant is not the one its entry's raw name derives",
                ));
            }
            let materialized = snapshot.read_entry(&record, budget)?;
            let length = materialized.bytes.len() as u64;
            let class_bytes = ClassBytesId { digest: materialized.content_digest, length };
            require_class_bytes(definition, &class_bytes)?;
            let source = ClassSource {
                location: PhysicalClassLocation::ArchiveEntry { entry: entry.duplicate() },
                class_bytes,
            };
            Ok((materialized.bytes, source, false))
        },
    }
}

fn require_snapshot(snapshot: &ArtifactSnapshot, named: &SnapshotId) -> (r: Result<()>)
    ensures
        r is Ok <==> named.0@ == snapshot.id_of().0@,
        r matches Err(e) ==> is_invalid(e, "definition_snapshot_mismatch"@),
{
    if named.0 != snapshot.id().0 {
        return Err(Error::invalid_input("definition_snapshot_mismatch", "the definition belongs to another snapshot"));
    }
    Ok(())
}

fn require_class_bytes(definition: &PhysicalDefinitionId, read: &ClassBytesId) -> (r: Result<()>)
    ensures
        r is Ok <==> definition.class_bytes.digest.0@ == read.digest.0@ && definition.class_bytes.length == read.length,
        r matches Err(e) ==> is_invalid(e, "definition_class_bytes_mismatch"@),
{
    if definition.class_bytes.digest.0 != read.digest.0 || definition.class_bytes.length != read.length {
        return Err(Error::invalid_input(
            "definition_class_bytes_mismatch",
            "the bytes at the definition's location are not the class bytes the definition names",
        ));
    }
    Ok(())
}

/// The coverage of a header inspection of a class of `class_length` bytes.
fn header_coverage(class_length: u64) -> (c: Coverage)
    ensures
        is_header_coverage(c, class_length),
{
    let range = CoverageRange { label: String::from_str("class_header_schema"), start: 0, end: class_length };
    Coverage {
        artifact_structural: CoverageDimension {
            state: CoverageState::CompleteWithinSchema,
            scanned: vec![range],
            skipped: Vec::new(),
            uninterpreted_extensions: Vec::new(),
        },
        runtime_resolution: CoverageDimension::not_requested(),
        dynamic_analysis: CoverageDimension::not_requested(),
    }
}

/// The coverage of the bytecode inspection of one method body, by the reader's own mapping.
fn bytecode_coverage(inspection: &BytecodeInspection) -> (r: Result<Coverage>)
    ensures
        r matches Err(e) ==> is_invalid(e, "classfile_coverage_out_of_bounds"@),
        r is Err <==> prefix_end(inspection.instructions@) > inspection.code_span.length
            || inspection.exception_handlers@.len() > inspection.exception_handler_count,
        r matches Ok(c) ==> coverage_is(c, inspection.code_span.length as int, prefix_end(inspection.instructions@),
            inspection.exception_handlers@.len() as int, inspection.exception_handler_count as int,
            inspection.execution is Complete,
            inspection.execution is Complete || !(inspection.stopped_at matches Some(s) && s is ExceptionHandlers)),
{
    method_code_coverage(
        inspection.code_span.length,
        inspection.instructions.as_slice(),
        inspection.exception_handlers.len(),
        inspection.exception_handler_count,
        &inspection.execution,
        match &inspection.stopped_at {
            Some(s) => Some(s),
            None => None,
        },
    )
}

} // verus!
