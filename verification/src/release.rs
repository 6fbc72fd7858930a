//! The release-bound registry of class-file versions: which majors this build holds a record
//! for, which of them it validates the dialect of, and what the Java 8 runtime profile accepts.

use crate::model::{Diagnostic, DiagnosticSeverity};
use crate::text::push_decimal;
use vstd::prelude::*;

verus! {


/// The lowest `major_version` the class-file format defines.
pub const MINIMUM_MAJOR: u16 = 45;
/// The highest `major_version` the registry holds a record for.
pub const HIGHEST_REGISTERED_MAJOR: u16 = 71;
/// The `minor_version` that marks a preview class file from [`MODERN_MINOR_SINCE`] on.
pub const PREVIEW_MARKER: u16 = 65535;
/// The first major whose minor must be 0 or the preview marker.
pub const MODERN_MINOR_SINCE: u16 = 56;
/// The highest major whose dialect this build validates.
pub const DIALECT_VALIDATED_CEILING: u16 = 52;
/// The Java 8 release: the highest major the Java 8 runtime profile accepts.
pub const JAVA8_MAJOR: u16 = 52;

/// Whether the registry holds a record for a major.
#[derive(Clone, Copy, Debug, Eq, PartialEq)]
pub enum ReleaseRegistration {
    Registered,
    /// Above [`HIGHEST_REGISTERED_MAJOR`]: the registry claims nothing about such a release.
    UnregisteredFutureRelease,
    /// Below [`MINIMUM_MAJOR`]: outside the format.
    UnregisteredBelowMinimum,
}

/// The registration of a major.
pub open spec fn registration_of(major: u16) -> ReleaseRegistration {
    if major < MINIMUM_MAJOR {
        ReleaseRegistration::UnregisteredBelowMinimum
    } else if major > HIGHEST_REGISTERED_MAJOR {
        ReleaseRegistration::UnregisteredFutureRelease
    } else {
        ReleaseRegistration::Registered
    }
}

/// Looks up the registration of a major.
pub fn release_registration(major: u16) -> (r: ReleaseRegistration)
    ensures
        r == registration_of(major),
{
    if major < MINIMUM_MAJOR {
        ReleaseRegistration::UnregisteredBelowMinimum
    } else if major > HIGHEST_REGISTERED_MAJOR {
        ReleaseRegistration::UnregisteredFutureRelease
    } else {
        ReleaseRegistration::Registered
    }
}


/// A class-file structure an attribute can be declared in (JVMS Table 4.7-C).
#[derive(Clone, Copy, Debug, Eq, PartialEq)]
pub enum ClassfileLocation {
    ClassFile,
    FieldInfo,
    MethodInfo,
    Code,
    RecordComponentInfo,
}

/// The bit of a location in a rule's location set.
pub open spec fn location_bit(l: ClassfileLocation) -> u8 {
    match l {
        ClassfileLocation::ClassFile => 1,
        ClassfileLocation::FieldInfo => 2,
        ClassfileLocation::MethodInfo => 4,
        ClassfileLocation::Code => 8,
        ClassfileLocation::RecordComponentInfo => 16,
    }
}

pub fn location_mask(l: ClassfileLocation) -> (b: u8)
    ensures
        b == location_bit(l),
{
    match l {
        ClassfileLocation::ClassFile => 1,
        ClassfileLocation::FieldInfo => 2,
        ClassfileLocation::MethodInfo => 4,
        ClassfileLocation::Code => 8,
        ClassfileLocation::RecordComponentInfo => 16,
    }
}

/// The name a location is spelled with in a diagnostic.
pub open spec fn location_spelling(l: ClassfileLocation) -> Seq<char> {
    match l {
        ClassfileLocation::ClassFile => "ClassFile"@,
        ClassfileLocation::FieldInfo => "field_info"@,
        ClassfileLocation::MethodInfo => "method_info"@,
        ClassfileLocation::Code => "Code"@,
        ClassfileLocation::RecordComponentInfo => "record_component_info"@,
    }
}

pub fn location_text(l: ClassfileLocation) -> (s: &'static str)
    ensures
        s@ == location_spelling(l),
{
    match l {
        ClassfileLocation::ClassFile => "ClassFile",
        ClassfileLocation::FieldInfo => "field_info",
        ClassfileLocation::MethodInfo => "method_info",
        ClassfileLocation::Code => "Code",
        ClassfileLocation::RecordComponentInfo => "record_component_info",
    }
}

/// The release rule of one predefined attribute: from which major it is defined, where, and the
/// JVMS section it is read from.
#[derive(Clone, Copy, Debug, Eq, PartialEq)]
pub struct AttributeRule {
    pub name: &'static str,
    pub since: u16,
    pub source: &'static str,
    /// The locations it may be declared in, one bit per [`ClassfileLocation`].
    pub locations: u8,
}

/// The release rule of one constant-pool tag.
#[derive(Clone, Copy, Debug, Eq, PartialEq)]
pub struct ConstantPoolTagRule {
    pub tag: u8,
    pub since: u16,
    pub source: &'static str,
}
/// The rule of the predefined attribute a raw name spells, if any.
pub open spec fn attribute_rule_spec(raw: Seq<u8>) -> Option<(u16, u8)> {
    if raw == seq![67u8, 111, 110, 115, 116, 97, 110, 116, 86, 97, 108, 117, 101] {
        Some((45, 2))
    } else if raw == seq![67u8, 111, 100, 101] {
        Some((45, 4))
    } else if raw == seq![83u8, 116, 97, 99, 107, 77, 97, 112, 84, 97, 98, 108, 101] {
        Some((50, 8))
    } else if raw == seq![69u8, 120, 99, 101, 112, 116, 105, 111, 110, 115] {
        Some((45, 4))
    } else if raw == seq![73u8, 110, 110, 101, 114, 67, 108, 97, 115, 115, 101, 115] {
        Some((45, 1))
    } else if raw == seq![69u8, 110, 99, 108, 111, 115, 105, 110, 103, 77, 101, 116, 104, 111, 100] {
        Some((49, 1))
    } else if raw == seq![83u8, 121, 110, 116, 104, 101, 116, 105, 99] {
        Some((45, 7))
    } else if raw == seq![83u8, 105, 103, 110, 97, 116, 117, 114, 101] {
        Some((49, 23))
    } else if raw == seq![83u8, 111, 117, 114, 99, 101, 70, 105, 108, 101] {
        Some((45, 1))
    } else if raw == seq![83u8, 111, 117, 114, 99, 101, 68, 101, 98, 117, 103, 69, 120, 116, 101, 110, 115, 105, 111, 110] {
        Some((49, 1))
    } else if raw == seq![76u8, 105, 110, 101, 78, 117, 109, 98, 101, 114, 84, 97, 98, 108, 101] {
        Some((45, 8))
    } else if raw == seq![76u8, 111, 99, 97, 108, 86, 97, 114, 105, 97, 98, 108, 101, 84, 97, 98, 108, 101] {
        Some((45, 8))
    } else if raw == seq![76u8, 111, 99, 97, 108, 86, 97, 114, 105, 97, 98, 108, 101, 84, 121, 112, 101, 84, 97, 98, 108, 101] {
        Some((49, 8))
    } else if raw == seq![68u8, 101, 112, 114, 101, 99, 97, 116, 101, 100] {
        Some((45, 7))
    } else if raw == seq![82u8, 117, 110, 116, 105, 109, 101, 86, 105, 115, 105, 98, 108, 101, 65, 110, 110, 111, 116, 97, 116, 105, 111, 110, 115] {
        Some((49, 23))
    } else if raw == seq![82u8, 117, 110, 116, 105, 109, 101, 73, 110, 118, 105, 115, 105, 98, 108, 101, 65, 110, 110, 111, 116, 97, 116, 105, 111, 110, 115] {
        Some((49, 23))
    } else if raw == seq![82u8, 117, 110, 116, 105, 109, 101, 86, 105, 115, 105, 98, 108, 101, 80, 97, 114, 97, 109, 101, 116, 101, 114, 65, 110, 110, 111, 116, 97, 116, 105, 111, 110, 115] {
        Some((49, 4))
    } else if raw == seq![82u8, 117, 110, 116, 105, 109, 101, 73, 110, 118, 105, 115, 105, 98, 108, 101, 80, 97, 114, 97, 109, 101, 116, 101, 114, 65, 110, 110, 111, 116, 97, 116, 105, 111, 110, 115] {
        Some((49, 4))
    } else if raw == seq![82u8, 117, 110, 116, 105, 109, 101, 86, 105, 115, 105, 98, 108, 101, 84, 121, 112, 101, 65, 110, 110, 111, 116, 97, 116, 105, 111, 110, 115] {
        Some((52, 31))
    } else if raw == seq![82u8, 117, 110, 116, 105, 109, 101, 73, 110, 118, 105, 115, 105, 98, 108, 101, 84, 121, 112, 101, 65, 110, 110, 111, 116, 97, 116, 105, 111, 110, 115] {
        Some((52, 31))
    } else if raw == seq![65u8, 110, 110, 111, 116, 97, 116, 105, 111, 110, 68, 101, 102, 97, 117, 108, 116] {
        Some((49, 4))
    } else if raw == seq![66u8, 111, 111, 116, 115, 116, 114, 97, 112, 77, 101, 116, 104, 111, 100, 115] {
        Some((51, 1))
    } else if raw == seq![77u8, 101, 116, 104, 111, 100, 80, 97, 114, 97, 109, 101, 116, 101, 114, 115] {
        Some((52, 4))
    } else if raw == seq![77u8, 111, 100, 117, 108, 101] {
        Some((53, 1))
    } else if raw == seq![77u8, 111, 100, 117, 108, 101, 80, 97, 99, 107, 97, 103, 101, 115] {
        Some((53, 1))
    } else if raw == seq![77u8, 111, 100, 117, 108, 101, 77, 97, 105, 110, 67, 108, 97, 115, 115] {
        Some((53, 1))
    } else if raw == seq![78u8, 101, 115, 116, 72, 111, 115, 116] {
        Some((55, 1))
    } else if raw == seq![78u8, 101, 115, 116, 77, 101, 109, 98, 101, 114, 115] {
        Some((55, 1))
    } else if raw == seq![82u8, 101, 99, 111, 114, 100] {
        Some((60, 1))
    } else if raw == seq![80u8, 101, 114, 109, 105, 116, 116, 101, 100, 83, 117, 98, 99, 108, 97, 115, 115, 101, 115] {
        Some((61, 1))
    } else {
        None
    }
}

/// The rule of the predefined attribute `raw` spells, if any.
pub fn attribute_rule(raw: &[u8]) -> (r: Option<AttributeRule>)
    ensures
        attribute_rule_spec(raw@) is None <==> r is None,
        r matches Some(rule) ==> attribute_rule_spec(raw@) == Some((rule.since, rule.locations)),
{
    {
        let name: [u8; 13] = [67u8, 111, 110, 115, 116, 97, 110, 116, 86, 97, 108, 117, 101];
        assert(name@ =~= seq![67u8, 111, 110, 115, 116, 97, 110, 116, 86, 97, 108, 117, 101]);
        if crate::names::same_bytes(raw, &name) {
            return Some(AttributeRule { name: "ConstantValue", since: 45, source: "JVMS 4.7.2", locations: 2 });
        }
    }
    {
        let name: [u8; 4] = [67u8, 111, 100, 101];
        assert(name@ =~= seq![67u8, 111, 100, 101]);
        if crate::names::same_bytes(raw, &name) {
            return Some(AttributeRule { name: "Code", since: 45, source: "JVMS 4.7.3", locations: 4 });
        }
    }
    {
        let name: [u8; 13] = [83u8, 116, 97, 99, 107, 77, 97, 112, 84, 97, 98, 108, 101];
        assert(name@ =~= seq![83u8, 116, 97, 99, 107, 77, 97, 112, 84, 97, 98, 108, 101]);
        if crate::names::same_bytes(raw, &name) {
            return Some(AttributeRule { name: "StackMapTable", since: 50, source: "JVMS 4.7.4", locations: 8 });
        }
    }
    {
        let name: [u8; 10] = [69u8, 120, 99, 101, 112, 116, 105, 111, 110, 115];
        assert(name@ =~= seq![69u8, 120, 99, 101, 112, 116, 105, 111, 110, 115]);
        if crate::names::same_bytes(raw, &name) {
            return Some(AttributeRule { name: "Exceptions", since: 45, source: "JVMS 4.7.5", locations: 4 });
        }
    }
    {
        let name: [u8; 12] = [73u8, 110, 110, 101, 114, 67, 108, 97, 115, 115, 101, 115];
        assert(name@ =~= seq![73u8, 110, 110, 101, 114, 67, 108, 97, 115, 115, 101, 115]);
        if crate::names::same_bytes(raw, &name) {
            return Some(AttributeRule { name: "InnerClasses", since: 45, source: "JVMS 4.7.6", locations: 1 });
        }
    }
    {
        let name: [u8; 15] = [69u8, 110, 99, 108, 111, 115, 105, 110, 103, 77, 101, 116, 104, 111, 100];
        assert(name@ =~= seq![69u8, 110, 99, 108, 111, 115, 105, 110, 103, 77, 101, 116, 104, 111, 100]);
        if crate::names::same_bytes(raw, &name) {
            return Some(AttributeRule { name: "EnclosingMethod", since: 49, source: "JVMS 4.7.7", locations: 1 });
        }
    }
    {
        let name: [u8; 9] = [83u8, 121, 110, 116, 104, 101, 116, 105, 99];
        assert(name@ =~= seq![83u8, 121, 110, 116, 104, 101, 116, 105, 99]);
        if crate::names::same_bytes(raw, &name) {
            return Some(AttributeRule { name: "Synthetic", since: 45, source: "JVMS 4.7.8", locations: 7 });
        }
    }
    {
        let name: [u8; 9] = [83u8, 105, 103, 110, 97, 116, 117, 114, 101];
        assert(name@ =~= seq![83u8, 105, 103, 110, 97, 116, 117, 114, 101]);
        if crate::names::same_bytes(raw, &name) {
            return Some(AttributeRule { name: "Signature", since: 49, source: "JVMS 4.7.9", locations: 23 });
        }
    }
    {
        let name: [u8; 10] = [83u8, 111, 117, 114, 99, 101, 70, 105, 108, 101];
        assert(name@ =~= seq![83u8, 111, 117, 114, 99, 101, 70, 105, 108, 101]);
        if crate::names::same_bytes(raw, &name) {
            return Some(AttributeRule { name: "SourceFile", since: 45, source: "JVMS 4.7.10", locations: 1 });
        }
    }
    {
        let name: [u8; 20] = [83u8, 111, 117, 114, 99, 101, 68, 101, 98, 117, 103, 69, 120, 116, 101, 110, 115, 105, 111, 110];
        assert(name@ =~= seq![83u8, 111, 117, 114, 99, 101, 68, 101, 98, 117, 103, 69, 120, 116, 101, 110, 115, 105, 111, 110]);
        if crate::names::same_bytes(raw, &name) {
            return Some(AttributeRule { name: "SourceDebugExtension", since: 49, source: "JVMS 4.7.11", locations: 1 });
        }
    }
    {
        let name: [u8; 15] = [76u8, 105, 110, 101, 78, 117, 109, 98, 101, 114, 84, 97, 98, 108, 101];
        assert(name@ =~= seq![76u8, 105, 110, 101, 78, 117, 109, 98, 101, 114, 84, 97, 98, 108, 101]);
        if crate::names::same_bytes(raw, &name) {
            return Some(AttributeRule { name: "LineNumberTable", since: 45, source: "JVMS 4.7.12", locations: 8 });
        }
    }
    {
        let name: [u8; 18] = [76u8, 111, 99, 97, 108, 86, 97, 114, 105, 97, 98, 108, 101, 84, 97, 98, 108, 101];
        assert(name@ =~= seq![76u8, 111, 99, 97, 108, 86, 97, 114, 105, 97, 98, 108, 101, 84, 97, 98, 108, 101]);
        if crate::names::same_bytes(raw, &name) {
            return Some(AttributeRule { name: "LocalVariableTable", since: 45, source: "JVMS 4.7.13", locations: 8 });
        }
    }
    {
        let name: [u8; 22] = [76u8, 111, 99, 97, 108, 86, 97, 114, 105, 97, 98, 108, 101, 84, 121, 112, 101, 84, 97, 98, 108, 101];
        assert(name@ =~= seq![76u8, 111, 99, 97, 108, 86, 97, 114, 105, 97, 98, 108, 101, 84, 121, 112, 101, 84, 97, 98, 108, 101]);
        if crate::names::same_bytes(raw, &name) {
            return Some(AttributeRule { name: "LocalVariableTypeTable", since: 49, source: "JVMS 4.7.14", locations: 8 });
        }
    }
    {
        let name: [u8; 10] = [68u8, 101, 112, 114, 101, 99, 97, 116, 101, 100];
        assert(name@ =~= seq![68u8, 101, 112, 114, 101, 99, 97, 116, 101, 100]);
        if crate::names::same_bytes(raw, &name) {
            return Some(AttributeRule { name: "Deprecated", since: 45, source: "JVMS 4.7.15", locations: 7 });
        }
    }
    {
        let name: [u8; 25] = [82u8, 117, 110, 116, 105, 109, 101, 86, 105, 115, 105, 98, 108, 101, 65, 110, 110, 111, 116, 97, 116, 105, 111, 110, 115];
        assert(name@ =~= seq![82u8, 117, 110, 116, 105, 109, 101, 86, 105, 115, 105, 98, 108, 101, 65, 110, 110, 111, 116, 97, 116, 105, 111, 110, 115]);
        if crate::names::same_bytes(raw, &name) {
            return Some(AttributeRule { name: "RuntimeVisibleAnnotations", since: 49, source: "JVMS 4.7.16", locations: 23 });
        }
    }
    {
        let name: [u8; 27] = [82u8, 117, 110, 116, 105, 109, 101, 73, 110, 118, 105, 115, 105, 98, 108, 101, 65, 110, 110, 111, 116, 97, 116, 105, 111, 110, 115];
        assert(name@ =~= seq![82u8, 117, 110, 116, 105, 109, 101, 73, 110, 118, 105, 115, 105, 98, 108, 101, 65, 110, 110, 111, 116, 97, 116, 105, 111, 110, 115]);
        if crate::names::same_bytes(raw, &name) {
            return Some(AttributeRule { name: "RuntimeInvisibleAnnotations", since: 49, source: "JVMS 4.7.17", locations: 23 });
        }
    }
    {
        let name: [u8; 34] = [82u8, 117, 110, 116, 105, 109, 101, 86, 105, 115, 105, 98, 108, 101, 80, 97, 114, 97, 109, 101, 116, 101, 114, 65, 110, 110, 111, 116, 97, 116, 105, 111, 110, 115];
        assert(name@ =~= seq![82u8, 117, 110, 116, 105, 109, 101, 86, 105, 115, 105, 98, 108, 101, 80, 97, 114, 97, 109, 101, 116, 101, 114, 65, 110, 110, 111, 116, 97, 116, 105, 111, 110, 115]);
        if crate::names::same_bytes(raw, &name) {
            return Some(AttributeRule { name: "RuntimeVisibleParameterAnnotations", since: 49, source: "JVMS 4.7.18", locations: 4 });
        }
    }
    {
        let name: [u8; 36] = [82u8, 117, 110, 116, 105, 109, 101, 73, 110, 118, 105, 115, 105, 98, 108, 101, 80, 97, 114, 97, 109, 101, 116, 101, 114, 65, 110, 110, 111, 116, 97, 116, 105, 111, 110, 115];
        assert(name@ =~= seq![82u8, 117, 110, 116, 105, 109, 101, 73, 110, 118, 105, 115, 105, 98, 108, 101, 80, 97, 114, 97, 109, 101, 116, 101, 114, 65, 110, 110, 111, 116, 97, 116, 105, 111, 110, 115]);
        if crate::names::same_bytes(raw, &name) {
            return Some(AttributeRule { name: "RuntimeInvisibleParameterAnnotations", since: 49, source: "JVMS 4.7.19", locations: 4 });
        }
    }
    {
        let name: [u8; 29] = [82u8, 117, 110, 116, 105, 109, 101, 86, 105, 115, 105, 98, 108, 101, 84, 121, 112, 101, 65, 110, 110, 111, 116, 97, 116, 105, 111, 110, 115];
        assert(name@ =~= seq![82u8, 117, 110, 116, 105, 109, 101, 86, 105, 115, 105, 98, 108, 101, 84, 121, 112, 101, 65, 110, 110, 111, 116, 97, 116, 105, 111, 110, 115]);
        if crate::names::same_bytes(raw, &name) {
            return Some(AttributeRule { name: "RuntimeVisibleTypeAnnotations", since: 52, source: "JVMS 4.7.20", locations: 31 });
        }
    }
    {
        let name: [u8; 31] = [82u8, 117, 110, 116, 105, 109, 101, 73, 110, 118, 105, 115, 105, 98, 108, 101, 84, 121, 112, 101, 65, 110, 110, 111, 116, 97, 116, 105, 111, 110, 115];
        assert(name@ =~= seq![82u8, 117, 110, 116, 105, 109, 101, 73, 110, 118, 105, 115, 105, 98, 108, 101, 84, 121, 112, 101, 65, 110, 110, 111, 116, 97, 116, 105, 111, 110, 115]);
        if crate::names::same_bytes(raw, &name) {
            return Some(AttributeRule { name: "RuntimeInvisibleTypeAnnotations", since: 52, source: "JVMS 4.7.21", locations: 31 });
        }
    }
    {
        let name: [u8; 17] = [65u8, 110, 110, 111, 116, 97, 116, 105, 111, 110, 68, 101, 102, 97, 117, 108, 116];
        assert(name@ =~= seq![65u8, 110, 110, 111, 116, 97, 116, 105, 111, 110, 68, 101, 102, 97, 117, 108, 116]);
        if crate::names::same_bytes(raw, &name) {
            return Some(AttributeRule { name: "AnnotationDefault", since: 49, source: "JVMS 4.7.22", locations: 4 });
        }
    }
    {
        let name: [u8; 16] = [66u8, 111, 111, 116, 115, 116, 114, 97, 112, 77, 101, 116, 104, 111, 100, 115];
        assert(name@ =~= seq![66u8, 111, 111, 116, 115, 116, 114, 97, 112, 77, 101, 116, 104, 111, 100, 115]);
        if crate::names::same_bytes(raw, &name) {
            return Some(AttributeRule { name: "BootstrapMethods", since: 51, source: "JVMS 4.7.23", locations: 1 });
        }
    }
    {
        let name: [u8; 16] = [77u8, 101, 116, 104, 111, 100, 80, 97, 114, 97, 109, 101, 116, 101, 114, 115];
        assert(name@ =~= seq![77u8, 101, 116, 104, 111, 100, 80, 97, 114, 97, 109, 101, 116, 101, 114, 115]);
        if crate::names::same_bytes(raw, &name) {
            return Some(AttributeRule { name: "MethodParameters", since: 52, source: "JVMS 4.7.24", locations: 4 });
        }
    }
    {
        let name: [u8; 6] = [77u8, 111, 100, 117, 108, 101];
        assert(name@ =~= seq![77u8, 111, 100, 117, 108, 101]);
        if crate::names::same_bytes(raw, &name) {
            return Some(AttributeRule { name: "Module", since: 53, source: "JVMS 4.7.25", locations: 1 });
        }
    }
    {
        let name: [u8; 14] = [77u8, 111, 100, 117, 108, 101, 80, 97, 99, 107, 97, 103, 101, 115];
        assert(name@ =~= seq![77u8, 111, 100, 117, 108, 101, 80, 97, 99, 107, 97, 103, 101, 115]);
        if crate::names::same_bytes(raw, &name) {
            return Some(AttributeRule { name: "ModulePackages", since: 53, source: "JVMS 4.7.26", locations: 1 });
        }
    }
    {
        let name: [u8; 15] = [77u8, 111, 100, 117, 108, 101, 77, 97, 105, 110, 67, 108, 97, 115, 115];
        assert(name@ =~= seq![77u8, 111, 100, 117, 108, 101, 77, 97, 105, 110, 67, 108, 97, 115, 115]);
        if crate::names::same_bytes(raw, &name) {
            return Some(AttributeRule { name: "ModuleMainClass", since: 53, source: "JVMS 4.7.27", locations: 1 });
        }
    }
    {
        let name: [u8; 8] = [78u8, 101, 115, 116, 72, 111, 115, 116];
        assert(name@ =~= seq![78u8, 101, 115, 116, 72, 111, 115, 116]);
        if crate::names::same_bytes(raw, &name) {
            return Some(AttributeRule { name: "NestHost", since: 55, source: "JVMS 4.7.28", locations: 1 });
        }
    }
    {
        let name: [u8; 11] = [78u8, 101, 115, 116, 77, 101, 109, 98, 101, 114, 115];
        assert(name@ =~= seq![78u8, 101, 115, 116, 77, 101, 109, 98, 101, 114, 115]);
        if crate::names::same_bytes(raw, &name) {
            return Some(AttributeRule { name: "NestMembers", since: 55, source: "JVMS 4.7.29", locations: 1 });
        }
    }
    {
        let name: [u8; 6] = [82u8, 101, 99, 111, 114, 100];
        assert(name@ =~= seq![82u8, 101, 99, 111, 114, 100]);
        if crate::names::same_bytes(raw, &name) {
            return Some(AttributeRule { name: "Record", since: 60, source: "JVMS 4.7.30", locations: 1 });
        }
    }
    {
        let name: [u8; 19] = [80u8, 101, 114, 109, 105, 116, 116, 101, 100, 83, 117, 98, 99, 108, 97, 115, 115, 101, 115];
        assert(name@ =~= seq![80u8, 101, 114, 109, 105, 116, 116, 101, 100, 83, 117, 98, 99, 108, 97, 115, 115, 101, 115]);
        if crate::names::same_bytes(raw, &name) {
            return Some(AttributeRule { name: "PermittedSubclasses", since: 61, source: "JVMS 4.7.31", locations: 1 });
        }
    }
    None
}

/// The rule of a constant-pool tag, if the format defines the tag.
pub open spec fn tag_rule_spec(tag: u8) -> Option<u16> {
    if tag == 1 {
        Some(45)
    } else if tag == 3 {
        Some(45)
    } else if tag == 4 {
        Some(45)
    } else if tag == 5 {
        Some(45)
    } else if tag == 6 {
        Some(45)
    } else if tag == 7 {
        Some(45)
    } else if tag == 8 {
        Some(45)
    } else if tag == 9 {
        Some(45)
    } else if tag == 10 {
        Some(45)
    } else if tag == 11 {
        Some(45)
    } else if tag == 12 {
        Some(45)
    } else if tag == 15 {
        Some(51)
    } else if tag == 16 {
        Some(51)
    } else if tag == 17 {
        Some(55)
    } else if tag == 18 {
        Some(51)
    } else if tag == 19 {
        Some(53)
    } else if tag == 20 {
        Some(53)
    } else {
        None
    }
}

/// The rule of a constant-pool tag, if the format defines the tag.
pub fn tag_rule(tag: u8) -> (r: Option<ConstantPoolTagRule>)
    ensures
        tag_rule_spec(tag) is None <==> r is None,
        r matches Some(rule) ==> tag_rule_spec(tag) == Some(rule.since) && rule.tag == tag,
{
    if tag == 1 {
        Some(ConstantPoolTagRule { tag, since: 45, source: "JVMS 4.4.7" })
    } else if tag == 3 {
        Some(ConstantPoolTagRule { tag, since: 45, source: "JVMS 4.4.4" })
    } else if tag == 4 {
        Some(ConstantPoolTagRule { tag, since: 45, source: "JVMS 4.4.4" })
    } else if tag == 5 {
        Some(ConstantPoolTagRule { tag, since: 45, source: "JVMS 4.4.5" })
    } else if tag == 6 {
        Some(ConstantPoolTagRule { tag, since: 45, source: "JVMS 4.4.5" })
    } else if tag == 7 {
        Some(ConstantPoolTagRule { tag, since: 45, source: "JVMS 4.4.1" })
    } else if tag == 8 {
        Some(ConstantPoolTagRule { tag, since: 45, source: "JVMS 4.4.3" })
    } else if tag == 9 {
        Some(ConstantPoolTagRule { tag, since: 45, source: "JVMS 4.4.2" })
    } else if tag == 10 {
        Some(ConstantPoolTagRule { tag, since: 45, source: "JVMS 4.4.2" })
    } else if tag == 11 {
        Some(ConstantPoolTagRule { tag, since: 45, source: "JVMS 4.4.2" })
    } else if tag == 12 {
        Some(ConstantPoolTagRule { tag, since: 45, source: "JVMS 4.4.6" })
    } else if tag == 15 {
        Some(ConstantPoolTagRule { tag, since: 51, source: "JVMS 4.4.8" })
    } else if tag == 16 {
        Some(ConstantPoolTagRule { tag, since: 51, source: "JVMS 4.4.9" })
    } else if tag == 17 {
        Some(ConstantPoolTagRule { tag, since: 55, source: "JVMS 4.4.10" })
    } else if tag == 18 {
        Some(ConstantPoolTagRule { tag, since: 51, source: "JVMS 4.4.10" })
    } else if tag == 19 {
        Some(ConstantPoolTagRule { tag, since: 53, source: "JVMS 4.4.11" })
    } else if tag == 20 {
        Some(ConstantPoolTagRule { tag, since: 53, source: "JVMS 4.4.12" })
    } else {
        None
    }
}

/// Where the registry places one attribute at one release.
#[derive(Clone, Copy, Debug, Eq, PartialEq)]
pub enum AttributePlacement {
    /// The attribute is defined at this location and release.
    Legal { rule: AttributeRule },
    /// The attribute is defined only from a later release.
    VersionNotApplicable { rule: AttributeRule },
    /// The attribute is not defined at this location.
    LocationNotApplicable { rule: AttributeRule },
    /// The registry holds no rule for the name.
    NotRegistered,
    /// The registry holds no record for the release.
    UnregisteredRelease,
}

/// The registry's answer for one attribute name, location and release: the release first,
/// then the name, then the location, then the version.
pub open spec fn placement_spec(raw: Seq<u8>, location: ClassfileLocation, major: u16) -> int {
    if !(registration_of(major) is Registered) {
        4
    } else {
        match attribute_rule_spec(raw) {
            None => 3,
            Some((since, locations)) => if locations & location_bit(location) == 0 {
                2
            } else if major < since {
                1
            } else {
                0
            },
        }
    }
}

/// The number a placement is classified by in [`placement_spec`].
pub open spec fn placement_class(p: AttributePlacement) -> int {
    match p {
        AttributePlacement::Legal { .. } => 0,
        AttributePlacement::VersionNotApplicable { .. } => 1,
        AttributePlacement::LocationNotApplicable { .. } => 2,
        AttributePlacement::NotRegistered => 3,
        AttributePlacement::UnregisteredRelease => 4,
    }
}

/// The registry's placement of one attribute name at one location and release.
pub fn attribute_placement(raw: &[u8], location: ClassfileLocation, major: u16) -> (p: AttributePlacement)
    ensures
        placement_class(p) == placement_spec(raw@, location, major),
        p matches AttributePlacement::Legal { rule } ==> attribute_rule_spec(raw@) == Some((rule.since, rule.locations)),
{
    match release_registration(major) {
        ReleaseRegistration::Registered => {},
        _ => return AttributePlacement::UnregisteredRelease,
    }
    match attribute_rule(raw) {
        None => AttributePlacement::NotRegistered,
        Some(rule) => if rule.locations & location_mask(location) == 0 {
            AttributePlacement::LocationNotApplicable { rule }
        } else if major < rule.since {
            AttributePlacement::VersionNotApplicable { rule }
        } else {
            AttributePlacement::Legal { rule }
        },
    }
}

/// Where a constant-pool tag stands at one release.
#[derive(Clone, Copy, Debug, Eq, PartialEq)]
pub enum ConstantPoolTagStatus {
    /// The tag is defined at this release.
    Registered { rule: ConstantPoolTagRule },
    /// The tag is defined only from a later release.
    NotYetDefined { rule: ConstantPoolTagRule },
    /// The format defines no such tag.
    Unknown,
    /// The registry holds no record for the release.
    UnregisteredRelease,
}

/// The registry's answer for one constant-pool tag at one release.
pub fn constant_pool_tag(tag: u8, major: u16) -> (s: ConstantPoolTagStatus)
    ensures
        !(registration_of(major) is Registered) ==> s is UnregisteredRelease,
        registration_of(major) is Registered ==> match tag_rule_spec(tag) {
            None => s is Unknown,
            Some(since) => if major >= since {
                s matches ConstantPoolTagStatus::Registered { rule } && rule.tag == tag && rule.since == since
            } else {
                s matches ConstantPoolTagStatus::NotYetDefined { rule } && rule.tag == tag && rule.since == since
            },
        },
{
    match release_registration(major) {
        ReleaseRegistration::Registered => {},
        _ => return ConstantPoolTagStatus::UnregisteredRelease,
    }
    match tag_rule(tag) {
        None => ConstantPoolTagStatus::Unknown,
        Some(rule) => if major >= rule.since {
            ConstantPoolTagStatus::Registered { rule }
        } else {
            ConstantPoolTagStatus::NotYetDefined { rule }
        },
    }
}


/// The `i`-th location in the order of [`ClassfileLocation`].
pub open spec fn location_in_order(i: int) -> ClassfileLocation {
    if i == 0 {
        ClassfileLocation::ClassFile
    } else if i == 1 {
        ClassfileLocation::FieldInfo
    } else if i == 2 {
        ClassfileLocation::MethodInfo
    } else if i == 3 {
        ClassfileLocation::Code
    } else {
        ClassfileLocation::RecordComponentInfo
    }
}

/// The names of the locations from the `i`-th on that `locations` holds, comma-separated;
/// `first` when no name precedes them.
pub open spec fn locations_spelling(locations: u8, i: int, first: bool) -> Seq<char>
    decreases 5 - i,
{
    if i >= 5 || i < 0 {
        Seq::empty()
    } else if locations & location_bit(location_in_order(i)) != 0 {
        (if first { Seq::empty() } else { ", "@ }) + location_spelling(location_in_order(i))
            + locations_spelling(locations, i + 1, false)
    } else {
        locations_spelling(locations, i + 1, first)
    }
}

/// Appends the locations a rule names, in the order of [`ClassfileLocation`], comma-separated.
fn push_locations(s: &mut String, locations: u8)
    ensures
        final(s)@ == old(s)@ + locations_spelling(locations, 0, true),
{
    let order = [ClassfileLocation::ClassFile, ClassfileLocation::FieldInfo, ClassfileLocation::MethodInfo,
        ClassfileLocation::Code, ClassfileLocation::RecordComponentInfo];
    let mut first = true;
    let mut i: usize = 0;
    while i < 5
        invariant
            i <= 5,
            forall|k: int| 0 <= k < 5 ==> order@[k] == location_in_order(k),
            old(s)@ + locations_spelling(locations, 0, true) == s@ + locations_spelling(locations, i as int, first),
        decreases 5 - i,
    {
        let l = order[i];
        let ghost before = s@;
        if locations & location_mask(l) != 0 {
            if !first {
                s.append(", ");
            }
            s.append(location_text(l));
            assert(before + locations_spelling(locations, i as int, first) =~= s@ + locations_spelling(locations, i + 1, false));
            first = false;
        }
        i = i + 1;
    }
    assert(s@ + locations_spelling(locations, 5, first) =~= s@);
}

/// The registry's diagnostic for an attribute it does not place at this location and release:
/// `None` for a legal placement, an unregistered name and an unregistered release.
pub fn attribute_diagnostic(raw: &[u8], location: ClassfileLocation, major: u16) -> (d: Option<Diagnostic>)
    ensures
        d is Some <==> placement_spec(raw@, location, major) == 1 || placement_spec(raw@, location, major) == 2,
        placement_spec(raw@, location, major) == 1 ==> (d matches Some(x)
            && x.code@ == "classfile_attribute_version_not_applicable"@ && x.provenance is None),
        placement_spec(raw@, location, major) == 2 ==> (d matches Some(x)
            && x.code@ == "classfile_attribute_location_not_applicable"@ && x.provenance is None),
{
    match attribute_placement(raw, location, major) {
        AttributePlacement::VersionNotApplicable { rule } => {
            let mut m = String::from_str("attribute \"");
            m.append(rule.name);
            m.append("\" is registered from major ");
            push_decimal(&mut m, rule.since as u64);
            m.append(" (");
            m.append(rule.source);
            m.append("); it is not valid at major ");
            push_decimal(&mut m, major as u64);
            Some(Diagnostic {
                code: String::from_str("classfile_attribute_version_not_applicable"),
                severity: DiagnosticSeverity::Warning,
                message: m,
                provenance: None,
            })
        },
        AttributePlacement::LocationNotApplicable { rule } => {
            let mut m = String::from_str("attribute \"");
            m.append(rule.name);
            m.append("\" is registered only for ");
            push_locations(&mut m, rule.locations);
            m.append(" (");
            m.append(rule.source);
            m.append("); it is not valid in a ");
            m.append(location_text(location));
            m.append(" structure");
            Some(Diagnostic {
                code: String::from_str("classfile_attribute_location_not_applicable"),
                severity: DiagnosticSeverity::Warning,
                message: m,
                provenance: None,
            })
        },
        _ => None,
    }
}

} // verus!
