//! The declaration structure of a class as spans over its bytes: attribute shells, member
//! headers, and the checked slicing every later pass reads attribute content through.

use crate::budget::{Budget, CountedBudgetDimension};
use crate::error::{Error, Result, is_budget, is_invalid, is_stop};
use crate::model::{ByteSpan, Diagnostic, JvmBytes, JvmString};
use crate::version::{HeaderStructuralRead, OutputLevelStatus, VerificationStatus, VersionCapability};
use vstd::prelude::*;

verus! {


/// Bytes of an `attribute_info` before its content: the name index and the length.
pub const ATTRIBUTE_HEADER_LENGTH: u64 = 6;

#[derive(Clone, Debug, Eq, PartialEq)]
pub struct AttributeShell {
    pub name: JvmString,
    pub span: ByteSpan,
    pub content_span: ByteSpan,
}

#[derive(Clone, Debug, Eq, PartialEq)]
pub struct MemberHeader {
    pub name: JvmString,
    pub descriptor: JvmString,
    pub access_flags: u16,
    pub attributes: Vec<AttributeShell>,
}

#[derive(Clone, Debug, Eq, PartialEq)]
pub struct ClassHeader {
    pub major_version: u16,
    pub minor_version: u16,
    pub access_flags: u16,
    pub this_class: JvmString,
    pub super_class: Option<JvmString>,
    pub interfaces: Vec<JvmString>,
    pub fields: Vec<MemberHeader>,
    pub methods: Vec<MemberHeader>,
    pub attributes: Vec<AttributeShell>,
}

#[derive(Clone, Copy, Debug, Eq, PartialEq)]
pub enum InspectionMode {
    Strict,
    Forensic,
}

#[derive(Clone, Debug, Eq, PartialEq)]
pub struct HeaderInspection {
    pub header: ClassHeader,
    /// Parse plane: the header was read to the end of its schema.
    pub structural_read: HeaderStructuralRead,
    /// Dialect-validation plane.
    pub version_capability: VersionCapability,
    /// Verification plane: this layer never runs a verifier.
    pub verification: VerificationStatus,
    /// Output-level plane: this layer never evaluates one.
    pub output_level: OutputLevelStatus,
    pub diagnostics: Vec<Diagnostic>,
}

/// One method, by its raw name and descriptor bytes.
#[derive(Clone, Debug, Eq, PartialEq, Hash)]
pub struct MethodSelector {
    pub name: JvmBytes,
    pub descriptor: JvmBytes,
}

/// One nested `attribute_info` inside a `Code` attribute or a record component.
#[derive(Clone, Debug, Eq, PartialEq)]
pub struct NestedAttributeFact {
    pub name_index: u16,
    pub name: JvmBytes,
    /// The whole nested `attribute_info`, header included.
    pub span: ByteSpan,
    pub content_span: ByteSpan,
}

/// `classfile_span_overflow`.
pub open spec fn is_span_overflow(e: Error) -> bool {
    is_invalid(e, "classfile_span_overflow"@)
}

/// `classfile_invalid_attribute_span`.
pub open spec fn is_bad_span(e: Error) -> bool {
    is_invalid(e, "classfile_invalid_attribute_span"@)
}

pub fn span_overflow(what: &str) -> (e: Error)
    ensures
        is_span_overflow(e),
{
    let mut m = String::from_str(what);
    m.append(" overflow");
    Error::invalid_input_owned("classfile_span_overflow", m)
}

pub fn span_outside(what: &str) -> (e: Error)
    ensures
        is_bad_span(e),
{
    let mut m = String::from_str(what);
    m.append(" is outside the class bytes");
    Error::invalid_input_owned("classfile_invalid_attribute_span", m)
}

/// The end of a span, when it does not overflow.
pub open spec fn span_end(span: ByteSpan) -> int {
    span.start + span.length
}

/// The bytes a span covers, when it lies inside them.
pub open spec fn span_inside(bytes: Seq<u8>, span: ByteSpan) -> bool {
    span_end(span) <= bytes.len()
}

pub open spec fn span_bytes(bytes: Seq<u8>, span: ByteSpan) -> Seq<u8> {
    bytes.subrange(span.start as int, span_end(span))
}

/// The bytes of `span`; `classfile_invalid_attribute_span` when it leaves them.
pub fn span_slice<'a>(bytes: &'a [u8], span: &ByteSpan, what: &str) -> (r: Result<&'a [u8]>)
    ensures
        span_inside(bytes@, *span) <==> r is Ok,
        r matches Ok(s) ==> s@ == span_bytes(bytes@, *span),
        r matches Err(e) ==> is_bad_span(e),
{
    let n = bytes.len();
    if span.start > n as u64 || span.length > n as u64 - span.start {
        return Err(span_outside(what));
    }
    let start = span.start as usize;
    let end = start + span.length as usize;
    Ok(vstd::slice::slice_subrange(bytes, start, end))
}

/// `6 + content length` of one attribute entry: the unit one pass over an `attribute_info` is
/// billed in.
pub fn attribute_shell_length(content_span: &ByteSpan) -> (r: Result<u64>)
    ensures
        content_span.length + 6 <= u64::MAX ==> r == Ok::<u64, Error>((content_span.length + 6) as u64),
        content_span.length + 6 > u64::MAX ==> (r matches Err(e) && is_span_overflow(e)),
{
    if content_span.length > u64::MAX - ATTRIBUTE_HEADER_LENGTH {
        return Err(Error::invalid_input("classfile_span_overflow", "attribute shell length overflow"));
    }
    Ok(content_span.length + ATTRIBUTE_HEADER_LENGTH)
}

/// The shell span and the content span describe one `attribute_info`: the shell is the six
/// header bytes followed by the content.
pub open spec fn shell_matches(span: ByteSpan, content_span: ByteSpan) -> bool {
    &&& span.length == content_span.length + 6
    &&& content_span.start == span.start + 6
}

/// Slices one attribute content out of the class bytes without billing it: the non-billing
/// entry point for content its caller already paid for.
pub fn attribute_slice<'a>(bytes: &'a [u8], span: &ByteSpan, content_span: &ByteSpan) -> (r: Result<&'a [u8]>)
    ensures
        r is Ok <==> shell_matches(*span, *content_span) && span_inside(bytes@, *content_span),
        r matches Ok(s) ==> s@ == span_bytes(bytes@, *content_span),
        r matches Err(e) ==> is_bad_span(e) || is_span_overflow(e),
        content_span.length + 6 <= u64::MAX ==> (r matches Err(e) ==> is_bad_span(e)),
        content_span.length + 6 > u64::MAX ==> (r matches Err(e) && is_span_overflow(e)),
{
    let shell_length = attribute_shell_length(content_span)?;
    if span.length != shell_length || span.start > u64::MAX - ATTRIBUTE_HEADER_LENGTH
        || span.start + ATTRIBUTE_HEADER_LENGTH != content_span.start {
        return Err(Error::invalid_input(
            "classfile_invalid_attribute_span",
            "attribute shell span does not match its content span",
        ));
    }
    span_slice(bytes, content_span, "attribute content")
}

/// Slices one attribute content out of the class bytes and bills the entry: one
/// `AttributeBytes` charge of `6 + content length`, after the request is polled.
pub fn attribute_content<'a>(bytes: &'a [u8], shell: &AttributeShell, budget: &mut Budget) -> (r: Result<&'a [u8]>)
    ensures
        r matches Err(e) ==> crate::budget::honest_refusal(e, old(budget).limits_of()),
        r matches Ok(s) ==> shell_matches(shell.span, shell.content_span)
            && span_inside(bytes@, shell.content_span) && s@ == span_bytes(bytes@, shell.content_span)
            && final(budget).usage_of() == old(budget).usage_of().with_counted(
                CountedBudgetDimension::AttributeBytes,
                (old(budget).usage_of().counted(CountedBudgetDimension::AttributeBytes) + shell.span.length) as u64),
        r is Err ==> final(budget).usage_of() == old(budget).usage_of(),
        r matches Err(e) ==> is_stop(e) || is_bad_span(e) || is_span_overflow(e)
            || is_budget(e, CountedBudgetDimension::AttributeBytes.dim()),
        final(budget).limits_of() == old(budget).limits_of(),
        !(shell_matches(shell.span, shell.content_span) && span_inside(bytes@, shell.content_span)) ==> r is Err,
        shell_matches(shell.span, shell.content_span) && span_inside(bytes@, shell.content_span)
            ==> (r matches Err(e) ==> is_stop(e) || is_budget(e, CountedBudgetDimension::AttributeBytes.dim())),
        !(shell_matches(shell.span, shell.content_span) && span_inside(bytes@, shell.content_span))
            && shell.content_span.length + 6 <= u64::MAX ==> (r matches Err(e) && (is_stop(e) || is_bad_span(e))),
        shell.content_span.length + 6 > u64::MAX ==> (r matches Err(e) && (is_stop(e) || is_span_overflow(e))),
{
    budget.poll()?;
    let shell_length = attribute_shell_length(&shell.content_span)?;
    let content = attribute_slice(bytes, &shell.span, &shell.content_span)?;
    budget.charge(CountedBudgetDimension::AttributeBytes, shell_length)?;
    Ok(content)
}

/// Class-file offset of one position inside an attribute content.
pub fn entry_offset(content_span: &ByteSpan, position: usize) -> (r: Result<u64>)
    ensures
        content_span.start + position <= u64::MAX ==> r == Ok::<u64, Error>((content_span.start + position) as u64),
        content_span.start + position > u64::MAX ==> (r matches Err(e) && is_span_overflow(e)),
{
    let p = position as u64;
    if content_span.start > u64::MAX - p {
        return Err(span_overflow("nested attribute offset"));
    }
    Ok(content_span.start + p)
}

} // verus!
