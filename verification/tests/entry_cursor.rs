use jarde_reader::artifact::{ArtifactInput, ArtifactKind, ArtifactSnapshot, PhysicalScope};
use jarde_reader::budget::{Budget, BudgetDimension, Limits};
use jarde_reader::cancel::CancellationToken;
use jarde_reader::entry_cursor::ScopeEntryKind;
use jarde_reader::error::Error;
use jarde_reader::model::{ContainerId, CoverageState, DiagnosticSeverity, Location};
use rawzip::{CompressionMethod, ZipArchiveWriter, path::EntryPath};
use std::io::{Cursor, Write};

const STORED: u16 = 0;
const DEFLATED: u16 = 8;

fn limits() -> Limits {
    Limits {
        input_bytes: 1 << 20,
        archive_entries: 1_000,
        entry_bytes: 1 << 20,
        read_bytes: 1 << 20,
        class_bytes: 1 << 20,
        attribute_bytes: 1 << 20,
        code_bytes: 1 << 20,
        result_items: 1 << 20,
        output_bytes: 1 << 20,
        class_headers: 1_000,
        method_bodies: 1_000,
        ir_items: 1 << 20,
        ir_edges: 1 << 20,
        analysis_steps: 1 << 20,
        normalization_clones: 1 << 20,
        nested_depth: 8,
        dependency_depth: 8,
        elapsed_millis: u64::MAX,
    }
}

fn budget() -> Budget {
    Budget::new(limits())
}

/// A STORED or DEFLATED archive holding exactly the given entries, in the given order.
fn zip(entries: &[(&[u8], Vec<u8>, u16)]) -> Vec<u8> {
    let mut output = Cursor::new(Vec::new());
    {
        let mut archive = ZipArchiveWriter::new(&mut output);
        for (name, data, method) in entries {
            let (mut entry, config) = archive
                .new_file(EntryPath::verbatim(name.to_vec()))
                .compression_method(CompressionMethod::new(*method))
                .start()
                .expect("the fixture entry starts");
            if *method == DEFLATED {
                let encoder = flate2::write::DeflateEncoder::new(&mut entry, flate2::Compression::default());
                let mut writer = config.wrap(encoder);
                writer.write_all(data).expect("the fixture payload writes");
                let (encoder, descriptor) = writer.finish().expect("the payload finishes");
                encoder.finish().expect("the deflate stream finishes");
                entry.finish(descriptor).expect("the entry finishes");
            } else {
                let mut writer = config.wrap(&mut entry);
                writer.write_all(data).expect("the fixture payload writes");
                let (_, descriptor) = writer.finish().expect("the payload finishes");
                entry.finish(descriptor).expect("the entry finishes");
            }
        }
        archive.finish().expect("the fixture archive finishes");
    }
    output.into_inner()
}

/// A minimal, complete class file: the shared class magic, no members, no attributes.
fn class_file() -> Vec<u8> {
    let mut bytes = 0xcafe_babe_u32.to_be_bytes().to_vec();
    bytes.extend_from_slice(&0_u16.to_be_bytes());
    bytes.extend_from_slice(&52_u16.to_be_bytes());
    bytes.extend_from_slice(&5_u16.to_be_bytes());
    bytes.push(1);
    bytes.extend_from_slice(&6_u16.to_be_bytes());
    bytes.extend_from_slice(b"p/Seed");
    bytes.push(7);
    bytes.extend_from_slice(&1_u16.to_be_bytes());
    bytes.push(1);
    bytes.extend_from_slice(&16_u16.to_be_bytes());
    bytes.extend_from_slice(b"java/lang/Object");
    bytes.push(7);
    bytes.extend_from_slice(&3_u16.to_be_bytes());
    bytes.extend_from_slice(&0x0021_u16.to_be_bytes());
    bytes.extend_from_slice(&2_u16.to_be_bytes());
    bytes.extend_from_slice(&4_u16.to_be_bytes());
    bytes.extend_from_slice(&0_u16.to_be_bytes());
    bytes.extend_from_slice(&0_u16.to_be_bytes());
    bytes.extend_from_slice(&0_u16.to_be_bytes());
    bytes.extend_from_slice(&0_u16.to_be_bytes());
    bytes
}

fn open(bytes: Vec<u8>) -> ArtifactSnapshot {
    ArtifactSnapshot::open(ArtifactInput::bytes(bytes), &mut budget()).expect("the hand-written fixture opens")
}

fn tree_scope() -> PhysicalScope {
    PhysicalScope::ArtifactTree { root_container: ContainerId("root".into()) }
}

/// One entry of a walk, in the terms walks are compared in.
#[derive(Clone, Debug, Eq, PartialEq)]
struct Event {
    container: String,
    ordinal: u64,
    raw_name: Vec<u8>,
    depth: u64,
}

/// Every entry of one scope, pulled by the incremental walk.
fn walked(snapshot: &ArtifactSnapshot, scope: &PhysicalScope) -> (Vec<Event>, Vec<ScopeEntryKind>, Vec<String>, CoverageState) {
    let mut cursor = snapshot.entry_cursor(scope).expect("the scope opens");
    let mut budget = budget();
    let mut events = Vec::new();
    let mut kinds = Vec::new();
    loop {
        let next = cursor.next_entry(&mut budget).expect("the fixture walk reads cleanly");
        let Some(entry) = next else { break };
        events.push(Event {
            container: entry.entry.id.origin.current_container().0.clone(),
            ordinal: entry.entry.id.ordinal,
            raw_name: entry.entry.id.raw_name.0.clone(),
            depth: entry.depth,
        });
        kinds.push(entry.kind);
    }
    let diagnostics = cursor.diagnostics().iter().map(|diagnostic| diagnostic.code.clone()).collect();
    (events, kinds, diagnostics, cursor.coverage_state())
}

/// One artifact tree holding a class, a nested container with a class, a deeper container and
/// two resources, so the walk has to descend twice and skip entries in between.
fn tree() -> Vec<u8> {
    let deepest = zip(&[(b"p/Deep.class", class_file(), STORED)]);
    let inner = zip(&[
        (b"p/Inner.class", class_file(), DEFLATED),
        (b"lib/deep.jar", deepest, STORED),
        (b"META-INF/services/p.Service", b"p.Provider\n".to_vec(), STORED),
    ]);
    zip(&[
        (b"META-INF/MANIFEST.MF", b"Manifest-Version: 1.0\r\n".to_vec(), STORED),
        (b"p/Root.class", class_file(), DEFLATED),
        (b"lib/inner.jar", inner, DEFLATED),
        (b"notes.txt", b"not a class".to_vec(), STORED),
    ])
}

#[test]
fn a_tree_walk_descends_depth_first_container_by_container() {
    let snapshot = open(tree());
    let (events, _, diagnostics, state) = walked(&snapshot, &tree_scope());
    assert!(diagnostics.is_empty(), "{diagnostics:?}");
    assert_eq!(state, CoverageState::CompleteWithinSchema);
    assert_eq!(events.iter().map(|event| event.ordinal).collect::<Vec<_>>(), vec![0, 1, 2, 3, 0, 1, 2, 0]);
    assert_eq!(events.iter().map(|event| event.depth).collect::<Vec<_>>(), vec![0, 0, 0, 0, 1, 1, 1, 2]);
    assert_eq!(
        events.iter().map(|event| event.raw_name.clone()).collect::<Vec<_>>(),
        vec![
            b"META-INF/MANIFEST.MF".to_vec(),
            b"p/Root.class".to_vec(),
            b"lib/inner.jar".to_vec(),
            b"notes.txt".to_vec(),
            b"p/Inner.class".to_vec(),
            b"lib/deep.jar".to_vec(),
            b"META-INF/services/p.Service".to_vec(),
            b"p/Deep.class".to_vec(),
        ]
    );
    assert_eq!(
        events.iter().map(|event| event.container.clone()).collect::<Vec<_>>(),
        vec!["root", "root", "root", "root", "root/2", "root/2", "root/2", "root/2/1"]
    );
}

#[test]
fn every_entry_carries_the_walks_own_class_and_resource_classification() {
    let snapshot = open(tree());
    let (events, kinds, _, state) = walked(&snapshot, &tree_scope());
    assert_eq!(state, CoverageState::CompleteWithinSchema);
    let nested: Vec<&[u8]> = vec![b"lib/inner.jar", b"lib/deep.jar"];
    for (event, kind) in events.iter().zip(&kinds) {
        let expected = if event.raw_name.ends_with(b".class") {
            ScopeEntryKind::ClassCandidate
        } else if nested.contains(&event.raw_name.as_slice()) {
            ScopeEntryKind::NestedContainer
        } else {
            ScopeEntryKind::Other
        };
        assert_eq!(
            *kind,
            expected,
            "{:?} at ordinal {} is classified as {:?}",
            String::from_utf8_lossy(&event.raw_name),
            event.ordinal,
            kind
        );
    }
    assert_eq!(
        kinds.iter().filter(|kind| **kind == ScopeEntryKind::NestedContainer).count(),
        2,
        "both nested archives of the fixture are candidates the walk descends through"
    );
}

#[test]
fn a_whole_snapshot_scope_walks_the_root_container_only() {
    let snapshot = open(tree());
    let scope = PhysicalScope::SnapshotAll;
    let (events, _, diagnostics, state) = walked(&snapshot, &scope);
    assert!(diagnostics.is_empty(), "{diagnostics:?}");
    assert_eq!(state, CoverageState::CompleteWithinSchema);
    let root = snapshot.enumerate(&mut budget()).expect("the root container enumerates");
    assert_eq!(
        events,
        root.entries
            .iter()
            .map(|entry| Event {
                container: entry.id.origin.current_container().0.clone(),
                ordinal: entry.id.ordinal,
                raw_name: entry.id.raw_name.0.clone(),
                depth: 0,
            })
            .collect::<Vec<_>>(),
        "the whole-snapshot scope is the root container's own entries, and it descends nowhere"
    );
    assert_eq!(events.len(), 4);
}

#[test]
fn a_subtree_that_is_not_an_archive_is_named_and_the_walk_continues() {
    let broken = zip(&[
        (b"p/Before.class", class_file(), STORED),
        (b"lib/broken.jar", b"this is not a zip".to_vec(), STORED),
        (b"p/After.class", class_file(), STORED),
    ]);
    let snapshot = open(broken);
    let scope = tree_scope();
    let (events, _, diagnostics, state) = walked(&snapshot, &scope);
    assert_eq!(diagnostics, vec!["zip_open".to_string()], "the unreadable subtree is named by the walk that met it");
    assert_eq!(state, CoverageState::Partial, "a subtree left unknown is never a complete denominator");
    assert_eq!(
        events.iter().map(|event| event.raw_name.clone()).collect::<Vec<_>>(),
        vec![b"p/Before.class".to_vec(), b"lib/broken.jar".to_vec(), b"p/After.class".to_vec()]
    );

    let mut cursor = snapshot.entry_cursor(&scope).expect("the scope opens");
    let mut budget = budget();
    while cursor.next_entry(&mut budget).expect("the readable entries read cleanly").is_some() {}
    assert!(cursor.issue().is_some(), "a subtree that could not be read bounds the report");
    let diagnostic = cursor.diagnostics().first().expect("the unreadable subtree is reported");
    assert_eq!(diagnostic.severity, DiagnosticSeverity::Error);
    assert_eq!(diagnostic.code, "zip_open");
    let provenance = diagnostic.provenance.as_ref().expect("the diagnostic names the entry it hangs from");
    match &provenance.location {
        Location::Entry { id, .. } => {
            assert_eq!(id.raw_name.0, b"lib/broken.jar");
            assert_eq!(id.ordinal, 1);
        }
        other => panic!("expected the parent entry as the diagnostic origin, got {other:?}"),
    }
}

#[test]
fn a_cancellation_observed_between_two_entries_stops_the_walk_there() {
    let snapshot = open(tree());
    let scope = tree_scope();
    let token = CancellationToken::new();
    let mut budget = Budget::with_cancellation_token(limits(), token.clone());
    let mut cursor = snapshot.entry_cursor(&scope).expect("the scope opens");

    let first = cursor
        .next_entry(&mut budget)
        .expect("the first entry is read before the stop")
        .expect("the scope is not empty");
    assert_eq!(first.entry.id.ordinal, 0);
    token.cancel();
    let stopped = cursor.next_entry(&mut budget);
    assert!(
        matches!(stopped, Err(Error::Cancelled { .. })),
        "the cancellation is observed before the next entry: {stopped:?}"
    );
    assert!(
        cursor.next_entry(&mut budget).expect("a stopped walk answers").is_none(),
        "a stopped walk yields nothing further"
    );
    assert_eq!(cursor.coverage_state(), CoverageState::Partial);
    assert_eq!(
        cursor
            .containers()
            .iter()
            .map(|container| (container.origin.current_container().0.clone(), container.walked))
            .collect::<Vec<_>>(),
        vec![("root".to_string(), true)],
        "the walk states the denominator of the one container it opened"
    );
}

#[test]
fn a_budget_stop_keeps_the_containers_already_walked_and_states_the_one_it_did_not_open() {
    let snapshot = open(tree());
    let mut budget = Budget::new(Limits { archive_entries: 5, ..limits() });
    let mut cursor = snapshot.entry_cursor(&tree_scope()).expect("the scope opens");
    let mut names = Vec::new();
    let stopped = loop {
        match cursor.next_entry(&mut budget) {
            Ok(Some(entry)) => names.push(entry.entry.id.raw_name.0.clone()),
            Ok(None) => panic!("the fixture tree is larger than the budget allows"),
            Err(error) => break error,
        }
    };
    assert!(
        matches!(stopped, Error::BudgetExceeded { dimension: BudgetDimension::ArchiveEntries, .. }),
        "the stop names the dimension it exhausted: {stopped:?}"
    );
    assert_eq!(
        names,
        vec![
            b"META-INF/MANIFEST.MF".to_vec(),
            b"p/Root.class".to_vec(),
            b"lib/inner.jar".to_vec(),
            b"notes.txt".to_vec()
        ],
        "the root container's four entries were yielded before the descent ran out of budget"
    );
    let containers = cursor.containers();
    assert_eq!(containers.len(), 1, "{containers:?}");
    assert_eq!(containers[0].entries, 4);
    assert!(containers[0].walked);
    assert_eq!(cursor.coverage_state(), CoverageState::Partial);
}

#[test]
fn a_walk_that_stopped_before_its_first_entry_states_the_roots_declared_range() {
    let snapshot = open(tree());
    let token = CancellationToken::new();
    token.cancel();
    let mut budget = Budget::with_cancellation_token(limits(), token);
    let mut cursor = snapshot.entry_cursor(&tree_scope()).expect("the scope opens");
    assert!(matches!(cursor.next_entry(&mut budget), Err(Error::Cancelled { .. })));
    let containers = cursor.containers();
    assert_eq!(containers.len(), 1, "{containers:?}");
    assert_eq!(
        containers[0].entries, 4,
        "the root directory's own declaration is stated even though nothing was examined"
    );
    assert!(!containers[0].walked, "no record of it was validated, so no range may claim it as examined");
}

#[test]
fn a_standalone_class_snapshot_has_no_entry_to_walk() {
    let snapshot = open(class_file());
    assert_eq!(snapshot.kind(), ArtifactKind::StandaloneClass);
    let error = snapshot
        .entry_cursor(&PhysicalScope::SnapshotAll)
        .err()
        .expect("a standalone CLASS snapshot holds no container");
    match error {
        Error::InvalidInput { code, .. } => assert_eq!(code, "navigation_not_zip"),
        other => panic!("expected the scope refusal, got {other:?}"),
    }
}

#[test]
fn a_duplicate_raw_name_is_one_fact_of_the_walks_own_directory() {
    let duplicated = zip(&[(b"p/A.class", class_file(), STORED), (b"p/A.class", class_file(), STORED)]);
    let snapshot = open(duplicated);
    let mut cursor = snapshot.entry_cursor(&tree_scope()).expect("the scope opens");
    let mut budget = budget();
    while cursor.next_entry(&mut budget).expect("the fixture walk reads cleanly").is_some() {}
    let diagnostics = cursor.diagnostics();
    assert_eq!(diagnostics.len(), 1, "{diagnostics:?}");
    assert_eq!(diagnostics[0].code, "duplicate_raw_name");
    assert_eq!(diagnostics[0].message, "entry 1 repeats raw name first seen at ordinal 0");
}

#[test]
fn a_tree_scope_must_name_the_snapshots_root_container() {
    let snapshot = open(tree());
    let scope = PhysicalScope::ArtifactTree { root_container: ContainerId("elsewhere".into()) };
    match snapshot.entry_cursor(&scope).err().expect("another root container is refused") {
        Error::InvalidInput { code, .. } => assert_eq!(code, "navigation_root_container_mismatch"),
        other => panic!("expected the scope refusal, got {other:?}"),
    }
}

#[test]
fn bytes_that_are_neither_a_class_nor_an_archive_do_not_open() {
    match ArtifactSnapshot::open(ArtifactInput::bytes(b"plain text".to_vec()), &mut budget()) {
        Err(Error::InvalidInput { code, .. }) => assert_eq!(code, "zip_open"),
        other => panic!("expected zip_open, got {other:?}"),
    }
}

/// Every entry of one artifact tree, as the snapshot's own tree report enumerates it.
fn enumerated(snapshot: &ArtifactSnapshot) -> Vec<Event> {
    let report = snapshot.enumerate_artifact_tree(&mut budget()).expect("the fixture tree enumerates");
    report
        .containers
        .iter()
        .flat_map(|container| {
            container.entries.iter().map(|entry| Event {
                container: container.origin.current_container().0.clone(),
                ordinal: entry.id.ordinal,
                raw_name: entry.id.raw_name.0.clone(),
                depth: container.depth,
            })
        })
        .collect()
}

#[test]
fn the_entry_walk_yields_the_enumerations_own_entries_in_physical_order() {
    let snapshot = open(tree());
    let scope = tree_scope();
    let (events, _, diagnostics, state) = walked(&snapshot, &scope);
    assert!(diagnostics.is_empty(), "{diagnostics:?}");
    assert_eq!(
        state,
        CoverageState::CompleteWithinSchema,
        "a walk pulled to its end that read every container it reached is complete"
    );
    assert_eq!(
        events,
        enumerated(&snapshot),
        "the walk and the artifact-tree report must yield the same entries, in the same order, at the same depth"
    );
    assert_eq!(
        events.iter().map(|event| event.ordinal).collect::<Vec<_>>(),
        vec![0, 1, 2, 3, 0, 1, 2, 0],
        "containers are walked depth first, container by container, in entry order"
    );
    assert_eq!(events.iter().map(|event| event.depth).collect::<Vec<_>>(), vec![0, 0, 0, 0, 1, 1, 1, 2]);
}

#[test]
fn the_tree_report_leaves_an_unreadable_subtree_out_and_names_it() {
    let broken = zip(&[
        (b"p/Before.class", class_file(), STORED),
        (b"lib/broken.jar", b"this is not a zip".to_vec(), STORED),
        (b"p/After.class", class_file(), STORED),
    ]);
    let snapshot = open(broken);
    let report = snapshot.enumerate_artifact_tree(&mut budget()).expect("the root container reads");
    assert_eq!(report.containers.len(), 1);
    assert_eq!(report.containers[0].entries.len(), 3);
    assert_eq!(report.diagnostics.len(), 1);
    assert_eq!(report.diagnostics[0].code, "zip_open");
    assert_eq!(report.coverage, CoverageState::Partial);
}
