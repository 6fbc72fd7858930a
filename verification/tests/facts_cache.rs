use jarde_reader::budget::{Budget, Limits};
use jarde_reader::classfile::class_facts;
use jarde_reader::facts_cache::{FactsCache, FactsCapacity, FactsIdentity, FACTS_FORMAT};
use jarde_reader::header::InspectionMode;
use jarde_reader::artifact::{ArtifactInput, ArtifactSnapshot, derive_child_origin};
use rawzip::{CompressionMethod, ZipArchiveWriter, path::EntryPath};
use std::io::{Cursor, Write};
use std::sync::Arc;

fn limits() -> Limits {
    Limits {
        input_bytes: 1 << 20,
        archive_entries: 1_000,
        entry_bytes: 1 << 20,
        read_bytes: 1 << 20,
        class_bytes: 1 << 20,
        attribute_bytes: 1 << 20,
        code_bytes: 1 << 20,
        result_items: 1 << 20,
        output_bytes: 1 << 20,
        class_headers: 1_000,
        method_bodies: 1_000,
        ir_items: 1 << 20,
        ir_edges: 1 << 20,
        analysis_steps: 1 << 20,
        normalization_clones: 1 << 20,
        nested_depth: 8,
        dependency_depth: 8,
        elapsed_millis: u64::MAX,
    }
}

/// A minimal, complete class file: `p/Seed extends java/lang/Object`, no members.
fn class_file(name: &[u8]) -> Vec<u8> {
    let mut bytes = 0xcafe_babe_u32.to_be_bytes().to_vec();
    bytes.extend_from_slice(&0_u16.to_be_bytes());
    bytes.extend_from_slice(&52_u16.to_be_bytes());
    bytes.extend_from_slice(&5_u16.to_be_bytes());
    bytes.push(1);
    bytes.extend_from_slice(&(name.len() as u16).to_be_bytes());
    bytes.extend_from_slice(name);
    bytes.push(7);
    bytes.extend_from_slice(&1_u16.to_be_bytes());
    bytes.push(1);
    bytes.extend_from_slice(&16_u16.to_be_bytes());
    bytes.extend_from_slice(b"java/lang/Object");
    bytes.push(7);
    bytes.extend_from_slice(&3_u16.to_be_bytes());
    bytes.extend_from_slice(&0x0021_u16.to_be_bytes());
    bytes.extend_from_slice(&2_u16.to_be_bytes());
    bytes.extend_from_slice(&4_u16.to_be_bytes());
    for _ in 0..4 {
        bytes.extend_from_slice(&0_u16.to_be_bytes());
    }
    bytes
}

#[test]
fn descriptions_are_stable_one_line_readings() {
    assert_eq!(FactsCapacity::new(3, 4096).describe(), "3 entries / 4096 retained bytes");
    assert_eq!(FactsIdentity::new(71, 1).describe(), "registry 71 entry format 1");
    let current = FactsIdentity::current();
    assert_eq!(current.registry, 71);
    assert_eq!(current.format, FACTS_FORMAT);
    let cache = FactsCache::current(FactsCapacity::new(2, 100));
    assert_eq!(cache.describe(), "facts cache (registry 71 entry format 1), capacity 2 entries / 100 retained bytes");
    assert_eq!(cache.capacity(), FactsCapacity::new(2, 100));
    assert_eq!(cache.identity(), FactsIdentity::current());
    let report = cache.report();
    assert!(report.answered_nothing());
    assert_eq!(report.discards(), "format 0 registry 0 product 0");
    assert_eq!(report.reuse(), "container 0/0 hits, directories parsed 0, nested materialized 0 (0 bytes)");
    assert_eq!(
        report.residency(),
        "0 entries / 0 containers, 0 retained bytes of 2 entries / 100 retained bytes allowed; refused 0 by entry limit, 0 by byte limit"
    );
}

#[test]
fn a_stored_structure_is_answered_for_the_same_bytes_and_only_for_them() {
    let bytes = class_file(b"p/Seed");
    let mut budget = Budget::new(limits());
    let facts = class_facts(&bytes, &mut budget).expect("the fixture parses");
    let cache = FactsCache::current(FactsCapacity::new(4, 1 << 16));
    assert!(cache.structure(&bytes, &budget).unwrap().is_none());
    cache.remember_structure(&bytes, Arc::new(facts.clone()));
    let hit = cache.structure(&bytes, &budget).unwrap().expect("the store answers the same bytes");
    assert_eq!(*hit, facts);
    // Other bytes miss, and the header policy is a key of its own.
    assert!(cache.structure(&class_file(b"p/Other"), &budget).unwrap().is_none());
    assert!(cache.header(&bytes, InspectionMode::Strict, &budget).unwrap().is_none());
    let report = cache.report();
    assert_eq!(report.entries, 1);
    assert_eq!(report.retained_bytes, bytes.len() as u64);
    assert_eq!((report.consultations, report.hits, report.misses, report.stored), (4, 1, 3, 1));
    // A handle is a view of one store: a clone sees the same entry.
    let clone = cache.clone();
    assert!(clone.structure(&bytes, &budget).unwrap().is_some());
    cache.clear();
    assert!(clone.structure(&bytes, &budget).unwrap().is_none());
    assert_eq!(clone.report().retained_bytes, 0);
}

#[test]
fn an_entry_of_another_registry_is_discarded_not_served() {
    let bytes = class_file(b"p/Seed");
    let mut budget = Budget::new(limits());
    let facts = class_facts(&bytes, &mut budget).expect("the fixture parses");
    let cache = FactsCache::current(FactsCapacity::new(4, 1 << 16));
    cache.remember_structure(&bytes, Arc::new(facts));
    let older = cache.over(FactsIdentity::new(70, FACTS_FORMAT));
    assert!(older.structure(&bytes, &budget).unwrap().is_none());
    let report = older.report();
    assert_eq!(report.discarded_registry, 1);
    assert_eq!(report.entries, 0, "a discarded entry is removed, not left for the next lookup");
    assert_eq!(report.retained_bytes, 0, "and its weight is released with it");
    assert!(cache.structure(&bytes, &budget).unwrap().is_none());
    let other_format = cache.over(FactsIdentity::new(71, 2));
    let mut budget = Budget::new(limits());
    let facts = class_facts(&bytes, &mut budget).expect("the fixture parses");
    cache.remember_structure(&bytes, Arc::new(facts));
    assert!(other_format.structure(&bytes, &budget).unwrap().is_none());
    assert_eq!(other_format.report().discarded_format, 1);
}

#[test]
fn a_store_that_retains_nothing_refuses_every_insertion() {
    let bytes = class_file(b"p/Seed");
    let mut budget = Budget::new(limits());
    let facts = class_facts(&bytes, &mut budget).expect("the fixture parses");
    let counter = FactsCache::current(FactsCapacity::none());
    counter.remember_structure(&bytes, Arc::new(facts.clone()));
    assert!(counter.structure(&bytes, &budget).unwrap().is_none());
    let report = counter.report();
    assert_eq!((report.entries, report.stored, report.refused_capacity), (0, 0, 1));

    let narrow = FactsCache::current(FactsCapacity::new(8, (bytes.len() - 1) as u64));
    narrow.remember_structure(&bytes, Arc::new(facts));
    let report = narrow.report();
    assert_eq!((report.entries, report.refused_capacity, report.refused_capacity_bytes), (0, 0, 1));
}

#[test]
fn a_stored_header_answers_only_its_own_mode() {
    let bytes = class_file(b"p/Seed");
    let mut budget = Budget::new(limits());
    let inspection = jarde_reader::classfile::inspect_header(&bytes, &mut budget, InspectionMode::Strict)
        .expect("the fixture inspects");
    let cache = FactsCache::current(FactsCapacity::new(4, 1 << 16));
    cache.remember_header(&bytes, InspectionMode::Strict, Arc::new(inspection.clone()));
    assert_eq!(*cache.header(&bytes, InspectionMode::Strict, &budget).unwrap().unwrap(), inspection);
    assert!(cache.header(&bytes, InspectionMode::Forensic, &budget).unwrap().is_none());
    assert!(cache.structure(&bytes, &budget).unwrap().is_none());
}

fn stored_zip(entries: &[(&[u8], Vec<u8>)]) -> Vec<u8> {
    let mut output = Cursor::new(Vec::new());
    {
        let mut archive = ZipArchiveWriter::new(&mut output);
        for (name, data) in entries {
            let (mut entry, config) = archive
                .new_file(EntryPath::verbatim(name.to_vec()))
                .compression_method(CompressionMethod::new(0))
                .start()
                .expect("the fixture entry starts");
            let mut writer = config.wrap(&mut entry);
            writer.write_all(data).expect("the fixture payload writes");
            let (_, descriptor) = writer.finish().expect("the payload finishes");
            entry.finish(descriptor).expect("the entry finishes");
        }
        archive.finish().expect("the fixture archive finishes");
    }
    output.into_inner()
}

#[test]
fn a_container_product_is_served_only_within_the_requests_nesting_limit() {
    let inner = stored_zip(&[(b"p/Inner.class", class_file(b"p/Inner"))]);
    let outer = stored_zip(&[(b"lib/inner.jar", inner)]);
    let snapshot = ArtifactSnapshot::open(ArtifactInput::bytes(outer), &mut Budget::new(limits())).expect("opens");
    let mut budget = Budget::new(limits());
    let root = snapshot.root_container_facts(&mut budget).expect("the root reads");
    let child_origin = derive_child_origin(root.origin(), &root.entries()[0].id);
    let child = Arc::new(snapshot.container_at(&child_origin, &mut budget).expect("the child reads"));
    assert_eq!(child.entries().len(), 1);

    let cache = FactsCache::current(FactsCapacity::new(4, 1 << 20));
    assert!(cache.container(&child_origin, &mut budget).unwrap().is_none());
    cache.remember_container(&root);
    cache.remember_container(&child);
    let report = cache.report();
    assert_eq!((report.containers, report.container_stored), (2, 2));
    assert_eq!(report.retained_bytes, root.weight() + child.weight());
    let hit = cache.container(&child_origin, &mut budget).unwrap().expect("the child is retained");
    assert_eq!(hit.entries()[0].id.raw_name.0, b"p/Inner.class");
    assert_eq!(cache.report().container_hits, 1);
    assert_eq!(cache.report().reuse(), "container 1/2 hits, directories parsed 0, nested materialized 0 (0 bytes)");

    let mut shallow = Budget::new(Limits { nested_depth: 0, ..limits() });
    assert!(cache.container(&child_origin, &mut shallow).is_err(), "a retained product is no way past the depth limit");

    let older = cache.over(FactsIdentity::new(70, FACTS_FORMAT));
    assert!(older.container(&child_origin, &mut budget).unwrap().is_none());
    let report = older.report();
    assert_eq!((report.containers, report.discarded_registry), (1, 1));
    assert_eq!(report.retained_bytes, root.weight());

    cache.note_directory_parse();
    cache.note_nested_materialization(10);
    let report = cache.report();
    assert_eq!((report.directory_parses, report.nested_materializations, report.nested_materialized_bytes), (1, 1, 10));

    let full = FactsCache::current(FactsCapacity::new(1, 1 << 20));
    full.remember_container(&root);
    full.remember_container(&child);
    assert_eq!((full.report().containers, full.report().refused_capacity), (1, 1));
}

#[test]
fn a_read_through_the_store_reads_once_and_answers_from_the_store_after() {
    let bytes = class_file(b"p/Through");
    let mut budget = Budget::new(limits());
    let direct = class_facts(&bytes, &mut Budget::new(limits())).expect("the fixture parses");
    let cache = FactsCache::current(FactsCapacity::new(4, 1 << 16));
    let first = cache.class_facts_through(&bytes, &mut budget).expect("the first read parses");
    assert_eq!(*first, direct);
    let second = cache.class_facts_through(&bytes, &mut budget).expect("the second read is answered");
    assert_eq!(*second, direct);
    let report = cache.report();
    assert_eq!((report.hits, report.stored), (1, 1));
    let header = cache.inspect_header_through(&bytes, InspectionMode::Forensic, &mut budget).expect("the header reads");
    let again = cache.inspect_header_through(&bytes, InspectionMode::Forensic, &mut budget).expect("the header is answered");
    assert_eq!(*header, *again);
    assert_eq!(cache.report().stored, 2);
}
