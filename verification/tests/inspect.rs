use jarde_reader::artifact::{ArtifactInput, ArtifactSnapshot, PhysicalEntry};
use jarde_reader::budget::{Budget, Limits};
use jarde_reader::error::Error;
use jarde_reader::header::{InspectionMode, MethodSelector};
use jarde_reader::inspect::{ClassTarget, inspect_header, inspect_method_bytecode, materialize_definition, materialize_root};
use jarde_reader::model::{
    ClassBytesId, CoverageState, Digest, JvmBytes, PhysicalClassLocation, PhysicalDefinitionId, PhysicalVariant, SnapshotId,
};
use rawzip::{CompressionMethod, ZipArchiveWriter, path::EntryPath};
use std::io::{Cursor, Write};

fn limits() -> Limits {
    Limits {
        input_bytes: 1 << 20,
        archive_entries: 1_000,
        entry_bytes: 1 << 20,
        read_bytes: 1 << 20,
        class_bytes: 1 << 20,
        attribute_bytes: 1 << 20,
        code_bytes: 1 << 20,
        result_items: 1 << 20,
        output_bytes: 1 << 20,
        class_headers: 1_000,
        method_bodies: 1_000,
        ir_items: 1 << 20,
        ir_edges: 1 << 20,
        analysis_steps: 1 << 20,
        normalization_clones: 1 << 20,
        nested_depth: 8,
        dependency_depth: 8,
        elapsed_millis: u64::MAX,
    }
}

fn zip_deflated(entries: &[(&[u8], Vec<u8>)]) -> Vec<u8> {
    let mut output = Cursor::new(Vec::new());
    {
        let mut archive = ZipArchiveWriter::new(&mut output);
        for (name, data) in entries {
            let (mut entry, config) = archive
                .new_file(EntryPath::verbatim(name.to_vec()))
                .compression_method(CompressionMethod::new(8))
                .start()
                .expect("the fixture entry starts");
            let encoder = flate2::write::DeflateEncoder::new(&mut entry, flate2::Compression::default());
            let mut writer = config.wrap(encoder);
            writer.write_all(data).expect("the fixture payload writes");
            let (encoder, descriptor) = writer.finish().expect("the payload finishes");
            encoder.finish().expect("the deflate stream finishes");
            entry.finish(descriptor).expect("the entry finishes");
        }
        archive.finish().expect("the fixture archive finishes");
    }
    output.into_inner()
}

/// A class with one method `run()V` whose body is `return`.
fn class_with_method() -> Vec<u8> {
    let mut b = 0xcafe_babe_u32.to_be_bytes().to_vec();
    b.extend_from_slice(&0_u16.to_be_bytes());
    b.extend_from_slice(&52_u16.to_be_bytes());
    b.extend_from_slice(&8_u16.to_be_bytes());
    let utf8 = |b: &mut Vec<u8>, s: &[u8]| {
        b.push(1);
        b.extend_from_slice(&(s.len() as u16).to_be_bytes());
        b.extend_from_slice(s);
    };
    utf8(&mut b, b"p/Seed"); // #1
    b.push(7);
    b.extend_from_slice(&1_u16.to_be_bytes()); // #2
    utf8(&mut b, b"java/lang/Object"); // #3
    b.push(7);
    b.extend_from_slice(&3_u16.to_be_bytes()); // #4
    utf8(&mut b, b"run"); // #5
    utf8(&mut b, b"()V"); // #6
    utf8(&mut b, b"Code"); // #7
    b.extend_from_slice(&0x0021_u16.to_be_bytes());
    b.extend_from_slice(&2_u16.to_be_bytes());
    b.extend_from_slice(&4_u16.to_be_bytes());
    b.extend_from_slice(&0_u16.to_be_bytes()); // interfaces
    b.extend_from_slice(&0_u16.to_be_bytes()); // fields
    b.extend_from_slice(&1_u16.to_be_bytes()); // methods
    b.extend_from_slice(&0x0001_u16.to_be_bytes());
    b.extend_from_slice(&5_u16.to_be_bytes());
    b.extend_from_slice(&6_u16.to_be_bytes());
    b.extend_from_slice(&1_u16.to_be_bytes()); // one attribute
    b.extend_from_slice(&7_u16.to_be_bytes());
    b.extend_from_slice(&13_u32.to_be_bytes());
    b.extend_from_slice(&1_u16.to_be_bytes()); // max_stack
    b.extend_from_slice(&1_u16.to_be_bytes()); // max_locals
    b.extend_from_slice(&1_u32.to_be_bytes()); // code_length
    b.push(0xb1); // return
    b.extend_from_slice(&0_u16.to_be_bytes()); // handlers
    b.extend_from_slice(&0_u16.to_be_bytes()); // code attributes
    b.extend_from_slice(&0_u16.to_be_bytes()); // class attributes
    b
}

fn open(bytes: Vec<u8>) -> ArtifactSnapshot {
    ArtifactSnapshot::open(ArtifactInput::bytes(bytes), &mut Budget::new(limits())).expect("the fixture opens")
}

fn first_entry(snapshot: &ArtifactSnapshot) -> PhysicalEntry {
    snapshot.enumerate(&mut Budget::new(limits())).expect("the root enumerates").entries.remove(0)
}

#[test]
fn a_standalone_root_is_inspected_with_its_own_identity() {
    let bytes = class_with_method();
    let snapshot = open(bytes.clone());
    let report = inspect_header(&snapshot, ClassTarget::Root, &mut Budget::new(limits()), InspectionMode::Strict)
        .expect("the root inspects");
    assert_eq!(report.source.class_bytes.length, bytes.len() as u64);
    assert_eq!(report.source.class_bytes.digest.0, blake3::hash(&bytes).to_hex().to_string());
    assert_eq!(report.source.snapshot(), snapshot.id());
    assert!(report.source.entry().is_none());
    assert_eq!(report.inspection.header.major_version, 52);
    assert_eq!(report.coverage.artifact_structural.state, CoverageState::CompleteWithinSchema);
    assert_eq!(report.coverage.artifact_structural.scanned[0].label, "class_header_schema");
    assert_eq!(report.coverage.artifact_structural.scanned[0].end, bytes.len() as u64);
    assert_eq!(snapshot.id().0, blake3::hash(&bytes).to_hex().to_string());
}

#[test]
fn a_deflated_entry_is_inflated_checked_and_inspected() {
    let class = class_with_method();
    let snapshot = open(zip_deflated(&[(b"p/Seed.class", class.clone())]));
    let entry = first_entry(&snapshot);
    let report = inspect_header(&snapshot, ClassTarget::Entry(&entry), &mut Budget::new(limits()), InspectionMode::Forensic)
        .expect("the entry inspects");
    assert_eq!(report.source.class_bytes.digest.0, blake3::hash(&class).to_hex().to_string());
    assert_eq!(report.source.entry().expect("an entry source").raw_name.0, b"p/Seed.class");
    let selector = MethodSelector { name: JvmBytes(b"run".to_vec()), descriptor: JvmBytes(b"()V".to_vec()) };
    let bytecode = inspect_method_bytecode(&snapshot, ClassTarget::Entry(&entry), selector, &mut Budget::new(limits()))
        .expect("the body inspects");
    assert_eq!(bytecode.inspection.instructions.len(), 1);
    assert_eq!(bytecode.coverage.artifact_structural.state, CoverageState::CompleteWithinSchema);
}

#[test]
fn a_target_of_the_other_kind_is_refused() {
    let snapshot = open(zip_deflated(&[(b"p/Seed.class", class_with_method())]));
    match inspect_header(&snapshot, ClassTarget::Root, &mut Budget::new(limits()), InspectionMode::Strict) {
        Err(Error::InvalidInput { code, .. }) => assert_eq!(code, "class_target_root_on_zip"),
        other => panic!("expected the root refusal, got {other:?}"),
    }
    let entry = first_entry(&snapshot);
    let standalone = open(class_with_method());
    match inspect_header(&standalone, ClassTarget::Entry(&entry), &mut Budget::new(limits()), InspectionMode::Strict) {
        Err(Error::InvalidInput { code, .. }) => assert_eq!(code, "class_target_entry_on_class"),
        other => panic!("expected the entry refusal, got {other:?}"),
    }
    assert!(materialize_root(&snapshot, &mut Budget::new(limits())).is_err());
}

#[test]
fn a_definition_is_read_only_when_every_coordinate_agrees() {
    let class = class_with_method();
    let snapshot = open(zip_deflated(&[(b"p/Seed.class", class.clone())]));
    let entry = first_entry(&snapshot);
    let definition = PhysicalDefinitionId {
        location: PhysicalClassLocation::ArchiveEntry { entry: entry.id.clone() },
        class_bytes: ClassBytesId { digest: Digest(blake3::hash(&class).to_hex().to_string()), length: class.len() as u64 },
        variant: PhysicalVariant::Base,
    };
    let (bytes, source, retained) =
        materialize_definition(&snapshot, &definition, &mut Budget::new(limits())).expect("the definition reads");
    assert_eq!(bytes, class);
    assert!(!retained);
    assert_eq!(source.location, definition.location);

    let wrong_bytes = PhysicalDefinitionId {
        class_bytes: ClassBytesId { digest: Digest("other".into()), length: class.len() as u64 },
        ..definition.clone()
    };
    match materialize_definition(&snapshot, &wrong_bytes, &mut Budget::new(limits())) {
        Err(Error::InvalidInput { code, .. }) => assert_eq!(code, "definition_class_bytes_mismatch"),
        other => panic!("expected the digest refusal, got {other:?}"),
    }
    let wrong_variant = PhysicalDefinitionId { variant: PhysicalVariant::MultiRelease { version: 9 }, ..definition.clone() };
    match materialize_definition(&snapshot, &wrong_variant, &mut Budget::new(limits())) {
        Err(Error::InvalidInput { code, .. }) => assert_eq!(code, "definition_variant_mismatch"),
        other => panic!("expected the variant refusal, got {other:?}"),
    }
    let other_snapshot = PhysicalDefinitionId {
        location: PhysicalClassLocation::StandaloneRoot { snapshot: SnapshotId("elsewhere".into()) },
        ..definition
    };
    match materialize_definition(&snapshot, &other_snapshot, &mut Budget::new(limits())) {
        Err(Error::InvalidInput { code, .. }) => assert_eq!(code, "definition_snapshot_mismatch"),
        other => panic!("expected the snapshot refusal, got {other:?}"),
    }
}
