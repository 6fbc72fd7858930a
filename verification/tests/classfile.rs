use jarde_reader::budget::{Budget, Limits};
use jarde_reader::bytecode::{relative_target_bci, switch_padding, table_key};
use jarde_reader::classfile::{
    class_facts, inspect_header, inspect_method_bytecode, method_body_opcodes, method_code_facts, probe_minimal_header,
};
use jarde_reader::descriptor::{DescriptorKind, descriptor_types};
use jarde_reader::error::Error;
use jarde_reader::header::{InspectionMode, MethodSelector};
use jarde_reader::model::JvmBytes;
use jarde_reader::release::{ClassfileLocation, attribute_diagnostic};
use jarde_reader::release::{DIALECT_VALIDATED_CEILING, ReleaseRegistration};
use jarde_reader::version::{
    ClassfileVersion, DialectValidationScope, HeaderStructuralRead, Java8RuntimeCompatibility, OutputLevelStatus,
    PreviewMarker, VerificationStatus, VersionDialectSupport, VersionRuleStatus, version_capability,
};
use VersionDialectSupport::{FutureRelease, StructuralProbeOnly, Supported, UnsupportedPreview};

fn limits() -> Limits {
    Limits {
        input_bytes: u64::MAX,
        archive_entries: u64::MAX,
        entry_bytes: u64::MAX,
        read_bytes: u64::MAX,
        class_bytes: u64::MAX,
        attribute_bytes: u64::MAX,
        code_bytes: u64::MAX,
        result_items: u64::MAX,
        output_bytes: u64::MAX,
        class_headers: u64::MAX,
        method_bodies: u64::MAX,
        ir_items: u64::MAX,
        ir_edges: u64::MAX,
        analysis_steps: u64::MAX,
        normalization_clones: u64::MAX,
        nested_depth: u64::MAX,
        dependency_depth: u64::MAX,
        elapsed_millis: u64::MAX,
    }
}

fn utf8(b: &mut Vec<u8>, s: &[u8]) {
    b.push(1);
    b.extend_from_slice(&(s.len() as u16).to_be_bytes());
    b.extend_from_slice(s);
}

/// A class `p/Seed` of the given version with one method `run()V` whose body is `code`.
fn class_with_body(major: u16, minor: u16, code: &[u8]) -> Vec<u8> {
    let mut b = 0xcafe_babe_u32.to_be_bytes().to_vec();
    b.extend_from_slice(&minor.to_be_bytes());
    b.extend_from_slice(&major.to_be_bytes());
    b.extend_from_slice(&8_u16.to_be_bytes());
    utf8(&mut b, b"p/Seed");
    b.push(7);
    b.extend_from_slice(&1_u16.to_be_bytes());
    utf8(&mut b, b"java/lang/Object");
    b.push(7);
    b.extend_from_slice(&3_u16.to_be_bytes());
    utf8(&mut b, b"run");
    utf8(&mut b, b"()V");
    utf8(&mut b, b"Code");
    b.extend_from_slice(&0x0021_u16.to_be_bytes());
    b.extend_from_slice(&2_u16.to_be_bytes());
    b.extend_from_slice(&4_u16.to_be_bytes());
    b.extend_from_slice(&0_u16.to_be_bytes());
    b.extend_from_slice(&0_u16.to_be_bytes());
    b.extend_from_slice(&1_u16.to_be_bytes());
    b.extend_from_slice(&0x0001_u16.to_be_bytes());
    b.extend_from_slice(&5_u16.to_be_bytes());
    b.extend_from_slice(&6_u16.to_be_bytes());
    b.extend_from_slice(&1_u16.to_be_bytes());
    b.extend_from_slice(&7_u16.to_be_bytes());
    b.extend_from_slice(&(12 + code.len() as u32).to_be_bytes());
    b.extend_from_slice(&1_u16.to_be_bytes());
    b.extend_from_slice(&1_u16.to_be_bytes());
    b.extend_from_slice(&(code.len() as u32).to_be_bytes());
    b.extend_from_slice(code);
    b.extend_from_slice(&0_u16.to_be_bytes());
    b.extend_from_slice(&0_u16.to_be_bytes());
    b.extend_from_slice(&0_u16.to_be_bytes());
    b
}

fn fixture_version(major: u16, minor: u16) -> Vec<u8> {
    class_with_body(major, minor, &[0xb1])
}

#[test]
fn strict_errors_and_forensic_diagnostics_have_stable_version_codes() {
    let cases = [
        (44, 0, "classfile_invalid_major_version", true),
        (56, 1, "classfile_invalid_modern_minor_version", true),
        (52, 1, "classfile_java8_runtime_rejected", false),
        (56, u16::MAX, "classfile_preview_unsupported", false),
        (71, 0, "classfile_version_structural_probe_only", false),
        (72, 0, "classfile_future_release", false),
        (72, u16::MAX, "classfile_future_release", false),
    ];
    for (major, minor, code, invalid_input) in cases {
        let fixture = fixture_version(major, minor);
        let forensic = inspect_header(&fixture, &mut Budget::new(limits()), InspectionMode::Forensic).unwrap();
        assert!(
            forensic.diagnostics.iter().any(|diagnostic| diagnostic.code == code && diagnostic.provenance.is_none()),
            "{major}.{minor}"
        );
        let error = inspect_header(&fixture, &mut Budget::new(limits()), InspectionMode::Strict).unwrap_err();
        assert!(
            match error {
                Error::InvalidInput { code: actual, .. } if invalid_input => actual == code,
                Error::Unsupported { code: actual, .. } if !invalid_input => actual == code,
                _ => false,
            },
            "{major}.{minor}"
        );
    }
}

#[test]
fn future_major_takes_priority_over_preview_marker() {
    let fixture = fixture_version(72, u16::MAX);
    let forensic = inspect_header(&fixture, &mut Budget::new(limits()), InspectionMode::Forensic).unwrap();
    assert_eq!(forensic.version_capability.version_dialect_support, VersionDialectSupport::FutureRelease);
    assert!(forensic.diagnostics.iter().any(|diagnostic| diagnostic.code == "classfile_future_release"));
    assert!(!forensic.diagnostics.iter().any(|diagnostic| diagnostic.code == "classfile_preview_unsupported"));
    let error = inspect_header(&fixture, &mut Budget::new(limits()), InspectionMode::Strict).unwrap_err();
    assert!(matches!(error, Error::Unsupported { ref code, .. } if code == "classfile_future_release"));
}

#[test]
fn header_inspection_leaves_attribute_and_flag_legality_to_the_fact_passes() {
    let fixture = fixture_version(55, 0);
    let inspection = inspect_header(&fixture, &mut Budget::new(limits()), InspectionMode::Forensic).unwrap();
    for diagnostic in &inspection.diagnostics {
        assert!(
            matches!(
                diagnostic.code.as_str(),
                "classfile_version_structural_probe_only"
                    | "classfile_preview_unsupported"
                    | "classfile_future_release"
                    | "classfile_invalid_major_version"
                    | "classfile_invalid_modern_minor_version"
                    | "classfile_java8_runtime_rejected"
            ),
            "the header plan states version facts only, not {}",
            diagnostic.code
        );
    }
    let version = attribute_diagnostic(b"Record", ClassfileLocation::ClassFile, 55).expect("the registry states the rule");
    assert_eq!(version.code, "classfile_attribute_version_not_applicable");
    assert_eq!(
        version.message,
        "attribute \"Record\" is registered from major 60 (JVMS 4.7.30); it is not valid at major 55"
    );
    assert!(version.provenance.is_none());
    assert_eq!(attribute_diagnostic(b"Record", ClassfileLocation::ClassFile, 60), None);
    let location =
        attribute_diagnostic(b"NestMembers", ClassfileLocation::MethodInfo, 55).expect("the registry states the rule");
    assert_eq!(location.code, "classfile_attribute_location_not_applicable");
    assert_eq!(
        location.message,
        "attribute \"NestMembers\" is registered only for ClassFile (JVMS 4.7.29); it is not valid in a method_info structure"
    );
}

#[test]
fn class_facts_and_the_minimal_probe_read_the_same_declaration() {
    let bytes = fixture_version(52, 0);
    let facts = class_facts(&bytes, &mut Budget::new(limits())).expect("the fixture reads");
    assert_eq!((facts.major_version, facts.minor_version, facts.access_flags), (52, 0, 0x0021));
    assert_eq!(facts.this_class.raw().0, b"p/Seed");
    assert_eq!(facts.methods.len(), 1);
    let probe = probe_minimal_header(&bytes, &mut Budget::new(limits())).expect("the probe reads");
    assert_eq!((probe.major_version, probe.minor_version, probe.access_flags), (52, 0, 0x0021));
    assert_eq!(probe.this_class, facts.this_class);
    let mut truncated = bytes.clone();
    truncated.pop();
    assert!(probe_minimal_header(&truncated, &mut Budget::new(limits())).is_err());
}

#[test]
fn the_opcode_probe_keeps_the_prefix_before_an_undecodable_instruction() {
    // iconst_0, istore_0, goto +4 (to return), nop, return
    let whole = class_with_body(52, 0, &[0x03, 0x3b, 0xa7, 0x00, 0x04, 0x00, 0xb1]);
    assert_eq!(
        method_body_opcodes(&whole, &mut Budget::new(limits())).unwrap(),
        vec![vec![0x03, 0x3b, 0xa7, 0x00, 0xb1]]
    );
    // iconst_0, then an opcode no instruction has
    let broken = class_with_body(52, 0, &[0x03, 0xfe, 0xb1]);
    assert_eq!(method_body_opcodes(&broken, &mut Budget::new(limits())).unwrap(), vec![vec![0x03]]);
    assert_eq!(method_body_opcodes(b"not a class", &mut Budget::new(limits())).unwrap(), Vec::<Vec<u8>>::new());
    let mut no_code = Budget::new(Limits { code_bytes: 3, ..limits() });
    assert!(matches!(method_body_opcodes(&whole, &mut no_code), Err(Error::BudgetExceeded { .. })));
}

#[test]
fn a_method_body_reports_its_instructions_and_control_flow() {
    // iconst_0, istore_0, goto +4 (to return), nop, return
    let bytes = class_with_body(52, 0, &[0x03, 0x3b, 0xa7, 0x00, 0x04, 0x00, 0xb1]);
    let selector = MethodSelector { name: JvmBytes(b"run".to_vec()), descriptor: JvmBytes(b"()V".to_vec()) };
    let inspection = inspect_method_bytecode(&bytes, selector, &mut Budget::new(limits())).expect("the body reads");
    assert_eq!(inspection.instructions.len(), 5);
    assert_eq!(inspection.code_span.length, 7);
    assert!(inspection.stopped_at.is_none());
    let facts = class_facts(&bytes, &mut Budget::new(limits())).unwrap();
    let code = method_code_facts(&bytes, &facts.methods[0], &mut Budget::new(limits())).expect("the code reads");
    let targets = code.control_flow_targets().expect("every target lands on an instruction");
    assert_eq!(targets.len(), 1);
    assert_eq!((targets[0].instruction_bci, targets[0].target_bci), (2, 6));
}

#[test]
fn relative_targets_paddings_and_table_keys_have_exact_values() {
    assert_eq!(relative_target_bci(10, 5).unwrap(), 15);
    assert_eq!(relative_target_bci(10, -10).unwrap(), 0);
    assert!(relative_target_bci(0, -5).is_err());
    assert_eq!(switch_padding(0), 3);
    assert_eq!(switch_padding(3), 0);
    assert_eq!(switch_padding(5), 2);
    assert_eq!(table_key(-2, 3).unwrap(), 1);
    assert!(table_key(i32::MAX, 1).is_err());
}

#[test]
fn descriptors_name_their_object_types_once_in_order() {
    let types = descriptor_types(b"(Ljava/lang/String;I[Ljava/util/List;Ljava/lang/String;)Lp/R;", DescriptorKind::Method)
        .expect("a well-formed descriptor");
    let names: Vec<Vec<u8>> = types.into_iter().map(|t| t.0).collect();
    assert_eq!(
        names,
        vec![b"java/lang/String".to_vec(), b"java/util/List".to_vec(), b"p/R".to_vec()]
    );
    assert!(descriptor_types(b"(I", DescriptorKind::Method).is_err());
    assert!(descriptor_types(b"V", DescriptorKind::Field).is_err());
}

#[test]
fn version_matrix_keeps_rules_dialect_and_java8_profile_orthogonal() {
    let valid = VersionRuleStatus::Valid;
    let accepted = Java8RuntimeCompatibility::Accepted;
    let rejected = Java8RuntimeCompatibility::Rejected;
    let cases = [
        (45, 3, valid, Supported, accepted, true),
        (45, u16::MAX, valid, Supported, accepted, true),
        (46, 0, valid, Supported, accepted, true),
        (47, 0, valid, Supported, accepted, true),
        (48, 0, valid, Supported, accepted, true),
        (49, 0, valid, Supported, accepted, true),
        (50, 0, valid, Supported, accepted, true),
        (51, 1, valid, Supported, accepted, true),
        (52, 0, valid, Supported, accepted, true),
        (52, 1, valid, Supported, rejected, false),
        (53, 7, valid, StructuralProbeOnly, rejected, false),
        (55, 1, valid, StructuralProbeOnly, rejected, false),
        (56, 1, VersionRuleStatus::InvalidModernMinor, StructuralProbeOnly, rejected, false),
        (56, u16::MAX, valid, UnsupportedPreview, rejected, false),
        (71, 0, valid, StructuralProbeOnly, rejected, false),
        (72, 0, valid, FutureRelease, rejected, false),
        (72, u16::MAX, valid, FutureRelease, rejected, false),
        (44, 0, VersionRuleStatus::InvalidMajor, StructuralProbeOnly, rejected, false),
    ];
    for (major, minor, rule, dialect, java8, strict_ok) in cases {
        let fixture = fixture_version(major, minor);
        let forensic = inspect_header(&fixture, &mut Budget::new(limits()), InspectionMode::Forensic).unwrap();
        assert_eq!(forensic.structural_read, HeaderStructuralRead::Complete);
        assert_eq!(forensic.verification, VerificationStatus::NotPerformed);
        assert_eq!(forensic.version_capability.version, ClassfileVersion { major, minor });
        assert_eq!(forensic.version_capability.version_rule, rule);
        assert_eq!(forensic.version_capability.version_dialect_support, dialect);
        assert_eq!(forensic.version_capability.dialect_validation_scope, DialectValidationScope::VersionOnly);
        assert_eq!(forensic.version_capability.java8_runtime, java8);
        assert_eq!(
            inspect_header(&fixture, &mut Budget::new(limits()), InspectionMode::Strict).is_ok(),
            strict_ok,
            "strict result for {major}.{minor}"
        );
    }
}

#[test]
fn preview_and_unregistered_releases_stay_readable_and_are_never_reported_as_supported() {
    let cases = [
        (56, u16::MAX, VersionDialectSupport::UnsupportedPreview, ReleaseRegistration::Registered, PreviewMarker::Present, "classfile_preview_unsupported"),
        (71, u16::MAX, VersionDialectSupport::UnsupportedPreview, ReleaseRegistration::Registered, PreviewMarker::Present, "classfile_preview_unsupported"),
        (62, 0, VersionDialectSupport::StructuralProbeOnly, ReleaseRegistration::Registered, PreviewMarker::Absent, "classfile_version_structural_probe_only"),
        (72, 0, VersionDialectSupport::FutureRelease, ReleaseRegistration::UnregisteredFutureRelease, PreviewMarker::Absent, "classfile_future_release"),
        (72, u16::MAX, VersionDialectSupport::FutureRelease, ReleaseRegistration::UnregisteredFutureRelease, PreviewMarker::Present, "classfile_future_release"),
        (99, 3, VersionDialectSupport::FutureRelease, ReleaseRegistration::UnregisteredFutureRelease, PreviewMarker::Absent, "classfile_future_release"),
    ];
    for (major, minor, dialect, registration, preview_marker, code) in cases {
        let fixture = fixture_version(major, minor);
        let forensic = inspect_header(&fixture, &mut Budget::new(limits()), InspectionMode::Forensic).unwrap();
        assert_eq!(forensic.structural_read, HeaderStructuralRead::Complete);
        assert_eq!(forensic.verification, VerificationStatus::NotPerformed);
        assert_eq!(forensic.output_level, OutputLevelStatus::NotEvaluated);
        assert_eq!(forensic.version_capability.version_dialect_support, dialect);
        assert_eq!(forensic.version_capability.preview_marker, preview_marker);
        assert_eq!(forensic.version_capability.release_registration, registration, "{major}.{minor}");
        assert!(
            forensic.diagnostics.iter().any(|diagnostic| diagnostic.code == code),
            "diagnostic {code} for {major}.{minor}"
        );
        assert!(
            inspect_header(&fixture, &mut Budget::new(limits()), InspectionMode::Strict).is_err(),
            "strict refusal for {major}.{minor}"
        );
    }
}

#[test]
fn header_capability_follows_the_release_registry() {
    for major in [45, 50, 52, 53, 55, 56, 60, 61, 71] {
        let capability = version_capability(major, 0);
        assert_eq!(capability.release_registration, ReleaseRegistration::Registered, "{major}");
        assert_eq!(capability.preview_marker, PreviewMarker::Absent, "{major}");
        let expected = if major <= 52 { VersionDialectSupport::Supported } else { VersionDialectSupport::StructuralProbeOnly };
        assert_eq!(capability.version_dialect_support, expected, "{major}");
        let inspection = inspect_header(&fixture_version(major, 0), &mut Budget::new(limits()), InspectionMode::Forensic).unwrap();
        assert_eq!(inspection.version_capability, capability, "{major}");
    }
    assert_eq!(DIALECT_VALIDATED_CEILING, 52);
    let unregistered_future = version_capability(72, 1);
    assert_eq!(unregistered_future.version_rule, VersionRuleStatus::InvalidModernMinor);
    assert_eq!(unregistered_future.release_registration, ReleaseRegistration::UnregisteredFutureRelease);
    let below_minimum = version_capability(44, 0);
    assert_eq!(below_minimum.version_rule, VersionRuleStatus::InvalidMajor);
    assert_eq!(below_minimum.release_registration, ReleaseRegistration::UnregisteredBelowMinimum);
    assert_eq!(below_minimum.version_dialect_support, VersionDialectSupport::StructuralProbeOnly);
    assert_eq!(below_minimum.preview_marker, PreviewMarker::Absent);
}

#[test]
fn method_code_facts_bills_the_code_entry_and_each_instruction_width_only() {
    let bytes = class_with_body(52, 0, &[0x03, 0x3b, 0xa7, 0x00, 0x04, 0x00, 0xb1]);
    let facts = class_facts(&bytes, &mut Budget::new(limits())).unwrap();
    let method = &facts.methods[0];
    let code = method.attributes.iter().find(|s| s.name.raw().0 == b"Code".to_vec()).expect("one Code shell");
    let mut budget = Budget::new(limits());
    let read = method_code_facts(&bytes, method, &mut budget).expect("the code reads");
    assert_eq!(read.instructions.len(), 5);
    let usage = budget.usage();
    assert_eq!(usage.attribute_bytes, code.content_span.length + 6);
    assert_eq!(usage.code_bytes, 7);
    assert_eq!(usage.class_bytes, 0);
    assert_eq!(usage.result_items, 0);
}
