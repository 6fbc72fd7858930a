//! The version plane of a class header: the format's version rule, the dialect support the
//! release registry declares, the Java 8 runtime profile, and the strict gate built on them.

use crate::error::{Error, Result, is_invalid_with};
use crate::model::{ByteSpan, Diagnostic, DiagnosticSeverity, JvmBytes};
use crate::release::{DIALECT_VALIDATED_CEILING, HIGHEST_REGISTERED_MAJOR, JAVA8_MAJOR, MINIMUM_MAJOR, MODERN_MINOR_SINCE, PREVIEW_MARKER, ReleaseRegistration, registration_of, release_registration};
use crate::text::{decimal, push_decimal, text};
use vstd::prelude::*;

verus! {


#[derive(Clone, Copy, Debug, Eq, PartialEq)]
pub struct ClassfileVersion {
    pub major: u16,
    pub minor: u16,
}

#[derive(Clone, Copy, Debug, Eq, PartialEq)]
pub enum VersionRuleStatus {
    Valid,
    InvalidMajor,
    InvalidModernMinor,
}

#[derive(Clone, Copy, Debug, Eq, PartialEq)]
pub enum VersionDialectSupport {
    Supported,
    StructuralProbeOnly,
    UnsupportedPreview,
    FutureRelease,
}

#[derive(Clone, Copy, Debug, Eq, PartialEq)]
pub enum DialectValidationScope {
    VersionOnly,
}

#[derive(Clone, Copy, Debug, Eq, PartialEq)]
pub enum Java8RuntimeCompatibility {
    Accepted,
    Rejected,
}

/// Whether a declared verification of this artifact really ran, and what it concluded. A
/// structural read or a dialect validation is not a verification: every report this crate
/// assembles states `NotPerformed`.
#[derive(Clone, Copy, Debug, Eq, PartialEq)]
pub enum VerificationStatus {
    NotPerformed,
    Performed,
    Failed,
}

#[derive(Clone, Copy, Debug, Eq, PartialEq)]
pub enum HeaderStructuralRead {
    Complete,
}

/// Whether the version's `minor_version` carries the preview marker: a fact about the format,
/// kept apart from whether this build validates a preview dialect.
#[derive(Clone, Copy, Debug, Eq, PartialEq)]
pub enum PreviewMarker {
    Absent,
    Present,
}

/// The output level an artifact's modern facts are asked to be consumed at.
#[derive(Clone, Copy, Debug, Eq, PartialEq)]
pub enum OutputLevel {
    Java8,
}

/// One modern construct a target output level either represents or cannot.
#[derive(Clone, Copy, Debug, Eq, PartialEq)]
pub enum ModernFeature {
    RecordComponents,
    PermittedSubclasses,
    StringConcat,
}

/// Where one modern fact was read from.
#[derive(Clone, Debug, Eq, PartialEq)]
pub enum ModernOrigin {
    /// A class-level `attribute_info`: its raw name, the index that spells it, the range of the
    /// whole entry and the range of its content.
    ClassAttribute { name: JvmBytes, name_index: u16, span: ByteSpan, content_span: ByteSpan },
    /// The constant-pool entry the construct lives in.
    ConstantPoolEntry { index: u16, span: ByteSpan },
}

/// One modern fact a target output level cannot represent.
#[derive(Clone, Debug, Eq, PartialEq)]
pub struct OutputLevelConflict {
    pub feature: ModernFeature,
    pub level: OutputLevel,
    /// The lowest `major_version` whose release defines the construct.
    pub since: u16,
    /// The JVMS section that rule was read from.
    pub source: String,
    pub origin: ModernOrigin,
}

/// Whether an output-level evaluation ran over this artifact, and what it concluded.
#[derive(Clone, Debug, Eq, PartialEq)]
pub enum OutputLevelStatus {
    NotEvaluated,
    Representable { level: OutputLevel },
    Conflict { level: OutputLevel, conflicts: Vec<OutputLevelConflict> },
}

#[derive(Clone, Copy, Debug, Eq, PartialEq)]
pub struct VersionCapability {
    pub version: ClassfileVersion,
    pub version_rule: VersionRuleStatus,
    pub version_dialect_support: VersionDialectSupport,
    pub dialect_validation_scope: DialectValidationScope,
    pub java8_runtime: Java8RuntimeCompatibility,
    pub preview_marker: PreviewMarker,
    pub release_registration: ReleaseRegistration,
}

/// The format's version rule (JVMS 4.1): a major below the minimum is invalid, and from the
/// modern-minor release on the minor must be 0 or the preview marker.
pub open spec fn rule_of(major: u16, minor: u16) -> VersionRuleStatus {
    if major < MINIMUM_MAJOR {
        VersionRuleStatus::InvalidMajor
    } else if major >= MODERN_MINOR_SINCE && minor != 0 && minor != PREVIEW_MARKER {
        VersionRuleStatus::InvalidModernMinor
    } else {
        VersionRuleStatus::Valid
    }
}

pub open spec fn preview_of(major: u16, minor: u16) -> PreviewMarker {
    if major >= MODERN_MINOR_SINCE && minor == PREVIEW_MARKER {
        PreviewMarker::Present
    } else {
        PreviewMarker::Absent
    }
}

/// The dialect support the registry declares: validated up to the ceiling, structure only
/// above it and below the minimum, no preview dialect, and nothing claimed past the highest
/// registered release.
pub open spec fn dialect_of(major: u16, minor: u16) -> VersionDialectSupport {
    match registration_of(major) {
        ReleaseRegistration::UnregisteredFutureRelease => VersionDialectSupport::FutureRelease,
        ReleaseRegistration::UnregisteredBelowMinimum => VersionDialectSupport::StructuralProbeOnly,
        ReleaseRegistration::Registered => if preview_of(major, minor) is Present {
            VersionDialectSupport::UnsupportedPreview
        } else if major <= DIALECT_VALIDATED_CEILING {
            VersionDialectSupport::Supported
        } else {
            VersionDialectSupport::StructuralProbeOnly
        },
    }
}

/// The Java 8 runtime profile: every registered release before Java 8 with any minor, and Java
/// 8 itself with minor 0.
pub open spec fn java8_of(major: u16, minor: u16) -> Java8RuntimeCompatibility {
    if registration_of(major) is Registered && (major < JAVA8_MAJOR || (major == JAVA8_MAJOR && minor == 0)) {
        Java8RuntimeCompatibility::Accepted
    } else {
        Java8RuntimeCompatibility::Rejected
    }
}

/// The capability of one version, from the two fields alone.
pub open spec fn capability_of(major: u16, minor: u16) -> VersionCapability {
    VersionCapability {
        version: ClassfileVersion { major, minor },
        version_rule: rule_of(major, minor),
        version_dialect_support: dialect_of(major, minor),
        dialect_validation_scope: DialectValidationScope::VersionOnly,
        java8_runtime: java8_of(major, minor),
        preview_marker: preview_of(major, minor),
        release_registration: registration_of(major),
    }
}

/// `major.minor`.
pub open spec fn version_text(major: u16, minor: u16) -> Seq<char> {
    decimal(major as nat) + "."@ + decimal(minor as nat)
}

fn push_version(s: &mut String, major: u16, minor: u16)
    ensures
        final(s)@ == old(s)@ + version_text(major, minor),
{
    push_decimal(s, major as u64);
    s.append(".");
    push_decimal(s, minor as u64);
    assert(final(s)@ =~= old(s)@ + version_text(major, minor));
}

fn classify_version(major: u16, minor: u16) -> (c: VersionCapability)
    ensures
        c == capability_of(major, minor),
{
    let version_rule = if major < MINIMUM_MAJOR {
        VersionRuleStatus::InvalidMajor
    } else if major >= MODERN_MINOR_SINCE && minor != 0 && minor != PREVIEW_MARKER {
        VersionRuleStatus::InvalidModernMinor
    } else {
        VersionRuleStatus::Valid
    };
    let preview = major >= MODERN_MINOR_SINCE && minor == PREVIEW_MARKER;
    let preview_marker = if preview { PreviewMarker::Present } else { PreviewMarker::Absent };
    let registration = release_registration(major);
    let version_dialect_support = match registration {
        ReleaseRegistration::UnregisteredFutureRelease => VersionDialectSupport::FutureRelease,
        ReleaseRegistration::UnregisteredBelowMinimum => VersionDialectSupport::StructuralProbeOnly,
        ReleaseRegistration::Registered => if preview {
            VersionDialectSupport::UnsupportedPreview
        } else if major <= DIALECT_VALIDATED_CEILING {
            VersionDialectSupport::Supported
        } else {
            VersionDialectSupport::StructuralProbeOnly
        },
    };
    let registered = match registration {
        ReleaseRegistration::Registered => true,
        _ => false,
    };
    let java8_runtime = if registered && (major < JAVA8_MAJOR || (major == JAVA8_MAJOR && minor == 0)) {
        Java8RuntimeCompatibility::Accepted
    } else {
        Java8RuntimeCompatibility::Rejected
    };
    VersionCapability {
        version: ClassfileVersion { major, minor },
        version_rule,
        version_dialect_support,
        dialect_validation_scope: DialectValidationScope::VersionOnly,
        java8_runtime,
        preview_marker,
        release_registration: registration,
    }
}

/// The version rule, dialect support and Java 8 verdict of one class-file version, from the two
/// fields alone and without reading the bytes they came from.
pub fn version_capability(major: u16, minor: u16) -> (c: VersionCapability)
    ensures
        c == capability_of(major, minor),
{
    classify_version(major, minor)
}

pub open spec fn invalid_major_message(major: u16) -> Seq<char> {
    "classfile major version "@ + decimal(major as nat) + " is below the minimum valid major 45"@
}

pub open spec fn invalid_minor_message(major: u16, minor: u16) -> Seq<char> {
    "classfile version "@ + version_text(major, minor) + " requires minor 0 or 65535 for major >= 56"@
}

/// A diagnostic with this code, severity and message, and no provenance.
pub open spec fn diagnostic_is(d: Diagnostic, code: Seq<char>, severity: DiagnosticSeverity, message: Seq<char>) -> bool {
    d.code@ == code && d.severity == severity && d.message@ == message && d.provenance is None
}

fn version_diagnostic(code: &str, severity: DiagnosticSeverity, message: String) -> (d: Diagnostic)
    ensures
        diagnostic_is(d, code@, severity, message@),
{
    Diagnostic { code: text(code), severity, message, provenance: None }
}

/// The refusal the format's own version rule states for one version: `None` for a version the
/// rule accepts, whatever dialect support this build has for it.
pub fn version_rule_diagnostic(capability: &VersionCapability) -> (d: Option<Diagnostic>)
    ensures
        capability.version_rule is Valid <==> d is None,
        capability.version_rule is InvalidMajor ==> (d matches Some(x) && diagnostic_is(x,
            "classfile_invalid_major_version"@, DiagnosticSeverity::Error,
            invalid_major_message(capability.version.major))),
        capability.version_rule is InvalidModernMinor ==> (d matches Some(x) && diagnostic_is(x,
            "classfile_invalid_modern_minor_version"@, DiagnosticSeverity::Error,
            invalid_minor_message(capability.version.major, capability.version.minor))),
{
    match capability.version_rule {
        VersionRuleStatus::Valid => None,
        VersionRuleStatus::InvalidMajor => {
            let mut m = text("classfile major version ");
            push_decimal(&mut m, capability.version.major as u64);
            m.append(" is below the minimum valid major 45");
            Some(version_diagnostic("classfile_invalid_major_version", DiagnosticSeverity::Error, m))
        },
        VersionRuleStatus::InvalidModernMinor => {
            let mut m = text("classfile version ");
            push_version(&mut m, capability.version.major, capability.version.minor);
            m.append(" requires minor 0 or 65535 for major >= 56");
            Some(version_diagnostic("classfile_invalid_modern_minor_version", DiagnosticSeverity::Error, m))
        },
    }
}

/// The dialect diagnostic of a capability: its code and message, when the dialect is not
/// validated.
pub open spec fn dialect_diagnostic(c: VersionCapability) -> Option<(Seq<char>, Seq<char>)> {
    let v = version_text(c.version.major, c.version.minor);
    match c.version_dialect_support {
        VersionDialectSupport::Supported => None,
        VersionDialectSupport::StructuralProbeOnly => Some(("classfile_version_structural_probe_only"@,
            "classfile version "@ + v + " is only structurally inspected; the release registry validates the dialect up to major "@
                + decimal(DIALECT_VALIDATED_CEILING as nat))),
        VersionDialectSupport::UnsupportedPreview => Some(("classfile_preview_unsupported"@,
            "preview classfile version "@ + v
                + " is not supported: the registry records the preview marker and this build validates no preview dialect"@)),
        VersionDialectSupport::FutureRelease => Some(("classfile_future_release"@,
            "classfile version "@ + v + " is above the highest release the registry holds (major "@
                + decimal(HIGHEST_REGISTERED_MAJOR as nat) + ")"@)),
    }
}

/// The diagnostics a header inspection publishes for a version, in order: the rule refusal,
/// the dialect warning, then the Java 8 profile warning.
pub open spec fn version_diagnostic_list(c: VersionCapability) -> Seq<(Seq<char>, DiagnosticSeverity, Seq<char>)> {
    let rule: Seq<(Seq<char>, DiagnosticSeverity, Seq<char>)> = match c.version_rule {
        VersionRuleStatus::Valid => Seq::empty(),
        VersionRuleStatus::InvalidMajor => seq![("classfile_invalid_major_version"@, DiagnosticSeverity::Error, invalid_major_message(c.version.major))],
        VersionRuleStatus::InvalidModernMinor => seq![("classfile_invalid_modern_minor_version"@, DiagnosticSeverity::Error, invalid_minor_message(c.version.major, c.version.minor))],
    };
    let dialect: Seq<(Seq<char>, DiagnosticSeverity, Seq<char>)> = match dialect_diagnostic(c) {
        None => Seq::empty(),
        Some((code, message)) => seq![(code, DiagnosticSeverity::Warning, message)],
    };
    let java8: Seq<(Seq<char>, DiagnosticSeverity, Seq<char>)> = if c.java8_runtime is Rejected {
        seq![("classfile_java8_runtime_rejected"@, DiagnosticSeverity::Warning,
            "classfile version "@ + version_text(c.version.major, c.version.minor) + " is not accepted by the Java 8 runtime profile"@)]
    } else {
        Seq::empty()
    };
    rule + dialect + java8
}

/// The list `ds` states exactly the diagnostics of `expected`, in order.
pub open spec fn diagnostics_are(ds: Seq<Diagnostic>, expected: Seq<(Seq<char>, DiagnosticSeverity, Seq<char>)>) -> bool {
    &&& ds.len() == expected.len()
    &&& forall|i: int| 0 <= i < ds.len() ==> diagnostic_is(#[trigger] ds[i], expected[i].0, expected[i].1, expected[i].2)
}

pub fn version_diagnostics(capability: &VersionCapability) -> (ds: Vec<Diagnostic>)
    ensures
        diagnostics_are(ds@, version_diagnostic_list(*capability)),
{
    let c = *capability;
    let ghost expected = version_diagnostic_list(c);
    let mut ds: Vec<Diagnostic> = Vec::new();
    match version_rule_diagnostic(capability) {
        Some(d) => ds.push(d),
        None => {},
    }
    let ghost after_rule = ds@;
    match c.version_dialect_support {
        VersionDialectSupport::Supported => {},
        VersionDialectSupport::StructuralProbeOnly => {
            let mut m = text("classfile version ");
            push_version(&mut m, c.version.major, c.version.minor);
            m.append(" is only structurally inspected; the release registry validates the dialect up to major ");
            push_decimal(&mut m, DIALECT_VALIDATED_CEILING as u64);
            ds.push(version_diagnostic("classfile_version_structural_probe_only", DiagnosticSeverity::Warning, m));
        },
        VersionDialectSupport::UnsupportedPreview => {
            let mut m = text("preview classfile version ");
            push_version(&mut m, c.version.major, c.version.minor);
            m.append(" is not supported: the registry records the preview marker and this build validates no preview dialect");
            ds.push(version_diagnostic("classfile_preview_unsupported", DiagnosticSeverity::Warning, m));
        },
        VersionDialectSupport::FutureRelease => {
            let mut m = text("classfile version ");
            push_version(&mut m, c.version.major, c.version.minor);
            m.append(" is above the highest release the registry holds (major ");
            push_decimal(&mut m, HIGHEST_REGISTERED_MAJOR as u64);
            m.append(")");
            ds.push(version_diagnostic("classfile_future_release", DiagnosticSeverity::Warning, m));
        },
    }
    match c.java8_runtime {
        Java8RuntimeCompatibility::Rejected => {
            let mut m = text("classfile version ");
            push_version(&mut m, c.version.major, c.version.minor);
            m.append(" is not accepted by the Java 8 runtime profile");
            ds.push(version_diagnostic("classfile_java8_runtime_rejected", DiagnosticSeverity::Warning, m));
        },
        Java8RuntimeCompatibility::Accepted => {},
    }
    ds
}

/// What the strict gate refuses a capability with, as code and message, in the order it checks.
pub open spec fn strict_refusal(c: VersionCapability) -> Option<(bool, Seq<char>, Seq<char>)> {
    match c.version_rule {
        VersionRuleStatus::InvalidMajor => Some((true, "classfile_invalid_major_version"@, invalid_major_message(c.version.major))),
        VersionRuleStatus::InvalidModernMinor => Some((true, "classfile_invalid_modern_minor_version"@, invalid_minor_message(c.version.major, c.version.minor))),
        VersionRuleStatus::Valid => match c.version_dialect_support {
            VersionDialectSupport::StructuralProbeOnly => Some((false, "classfile_version_structural_probe_only"@,
                "strict header inspection requires a dialect-validated release; the registry validates the dialect up to major "@
                    + decimal(DIALECT_VALIDATED_CEILING as nat))),
            VersionDialectSupport::UnsupportedPreview => Some((false, "classfile_preview_unsupported"@,
                "strict header inspection validates no preview dialect"@)),
            VersionDialectSupport::FutureRelease => Some((false, "classfile_future_release"@,
                "strict header inspection does not support releases above the registry's highest registered release (major "@
                    + decimal(HIGHEST_REGISTERED_MAJOR as nat) + ")"@)),
            VersionDialectSupport::Supported => if c.java8_runtime is Rejected {
                Some((false, "classfile_java8_runtime_rejected"@,
                    "strict header inspection requires Java 8 runtime profile acceptance"@))
            } else {
                None
            },
        },
    }
}

/// The error is the strict gate's refusal: `InvalidInput` for a rule violation, `Unsupported`
/// for a version outside what this build validates.
pub open spec fn is_refusal(e: Error, r: (bool, Seq<char>, Seq<char>)) -> bool {
    if r.0 {
        is_invalid_with(e, r.1, r.2)
    } else {
        e matches Error::Unsupported { code, message } && code@ == r.1 && message@ == r.2
    }
}

/// The strict gate: a version the format's rule refuses, or one this build does not validate
/// the dialect of or the Java 8 profile does not accept, is refused.
pub fn enforce_strict_version_gate(capability: &VersionCapability) -> (r: Result<()>)
    ensures
        r is Ok <==> strict_refusal(*capability) is None,
        r matches Err(e) ==> (strict_refusal(*capability) matches Some(x) && is_refusal(e, x)),
{
    let c = *capability;
    match c.version_rule {
        VersionRuleStatus::InvalidMajor => {
            let mut m = text("classfile major version ");
            push_decimal(&mut m, c.version.major as u64);
            m.append(" is below the minimum valid major 45");
            return Err(Error::invalid_input_owned("classfile_invalid_major_version", m));
        },
        VersionRuleStatus::InvalidModernMinor => {
            let mut m = text("classfile version ");
            push_version(&mut m, c.version.major, c.version.minor);
            m.append(" requires minor 0 or 65535 for major >= 56");
            return Err(Error::invalid_input_owned("classfile_invalid_modern_minor_version", m));
        },
        VersionRuleStatus::Valid => {},
    }
    match c.version_dialect_support {
        VersionDialectSupport::Supported => {},
        VersionDialectSupport::StructuralProbeOnly => {
            let mut m = text("strict header inspection requires a dialect-validated release; the registry validates the dialect up to major ");
            push_decimal(&mut m, DIALECT_VALIDATED_CEILING as u64);
            return Err(Error::unsupported_owned("classfile_version_structural_probe_only", m));
        },
        VersionDialectSupport::UnsupportedPreview => {
            return Err(Error::unsupported("classfile_preview_unsupported", "strict header inspection validates no preview dialect"));
        },
        VersionDialectSupport::FutureRelease => {
            let mut m = text("strict header inspection does not support releases above the registry's highest registered release (major ");
            push_decimal(&mut m, HIGHEST_REGISTERED_MAJOR as u64);
            m.append(")");
            return Err(Error::unsupported_owned("classfile_future_release", m));
        },
    }
    match c.java8_runtime {
        Java8RuntimeCompatibility::Rejected => Err(Error::unsupported(
            "classfile_java8_runtime_rejected",
            "strict header inspection requires Java 8 runtime profile acceptance",
        )),
        Java8RuntimeCompatibility::Accepted => Ok(()),
    }
}

} // verus!
