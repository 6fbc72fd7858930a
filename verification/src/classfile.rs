//! Declaration structure of one class: the checks every read path runs before it trusts the
//! bytes, the walk over interfaces, fields, methods and attribute shells, and the header and
//! fact views built from it.

use crate::budget::{Budget, CountedBudgetDimension};
use crate::bytes::{be16, be32};
use crate::cpool::{CpEntryFacts, CpSlotLayout, facts_sorted, lemma_measure_pool_wf, measure_constant_pool, measure_pool, resolve_constant_pool, validate_constant_pool_slots, wf_layout, slots_check};
use crate::decoder::{ClassShape, class_decode, decode_class, map_decode_error};
use crate::error::{Error, Result, is_budget, is_invalid, is_stop};
use crate::declared::{
    attribute_at, attribute_ok, attributes_are, attributes_end, attributes_ok, class_name_ok, is_attribute, is_member, member_at, member_ok,
    members_are, members_end, members_ok, names_class, names_utf8, utf8_name_ok, pool_end, interfaces_at, fields_at, methods_at,
    class_attributes_at, structure_ok, declares, method_count, method_named, method_attribute_count, is_code_attribute,
    method_attribute_content, method_at, no_method_named, methods_named_twice, sole_method_named, no_code, code_twice, sole_code,
};
use crate::header::{AttributeShell, ClassHeader, HeaderInspection, InspectionMode, MemberHeader, shell_matches, span_inside};
use crate::model::{ByteSpan, JvmBytes, JvmString, decode_valid_mutf8};
use crate::body::{BodyFailure, BodyRun, StopPosition, decode_body, local_debug_table, read_code_layout};
use crate::budget::UsageSnapshot;
use crate::bytecode::{BytecodeInspection, BytecodeStop, LocalDebugTable, MethodCodeFacts};
use crate::header::MethodSelector;
use crate::instruction::{AdapterKind, DecodeKind, Decoded, Step, decode_instruction, step_at};
use crate::model::{Diagnostic, DiagnosticSeverity, ExecutionReport, TerminationReason};
use crate::version::{HeaderStructuralRead, OutputLevelStatus, VerificationStatus, capability_of, diagnostics_are, enforce_strict_version_gate, is_refusal, strict_refusal, version_capability, version_diagnostic_list, version_diagnostics};
use vstd::prelude::*;

verus! {


/// Declaration structure and the resolved constant pool of one class.
#[derive(Clone, Debug, Eq, PartialEq)]
pub struct ClassFacts {
    pub major_version: u16,
    pub minor_version: u16,
    pub access_flags: u16,
    pub this_class: JvmString,
    pub super_class: Option<JvmString>,
    pub interfaces: Vec<JvmString>,
    pub fields: Vec<MemberHeader>,
    pub methods: Vec<MemberHeader>,
    pub attributes: Vec<AttributeShell>,
    pub constant_pool: Vec<CpEntryFacts>,
}

/// What a structure walk bills besides the polls.
#[derive(Clone, Copy, Debug, Eq, PartialEq)]
pub enum Billing {
    /// Header inspection: `AttributeBytes` per shell, and `ResultItems` per interface, shell,
    /// field, method and class attribute list.
    HeaderItems,
    /// Fact reads: `AttributeBytes` per shell only.
    ShellBytes,
    /// Locating one member: nothing.
    Nothing,
}

/// Each shell describes one `attribute_info` inside the bytes.
pub open spec fn shells_wf(bytes: Seq<u8>, shells: Seq<AttributeShell>) -> bool {
    forall|i: int| 0 <= i < shells.len() ==> shell_matches((#[trigger] shells[i]).span, shells[i].content_span)
        && span_inside(bytes, shells[i].content_span)
}

/// Each member's shells describe attributes inside the bytes.
pub open spec fn members_wf(bytes: Seq<u8>, members: Seq<MemberHeader>) -> bool {
    forall|i: int| 0 <= i < members.len() ==> shells_wf(bytes, (#[trigger] members[i]).attributes@)
}

/// An error of the structure walk.
pub open spec fn is_walk_error(e: Error) -> bool {
    ||| is_stop(e)
    ||| e is BudgetExceeded
    ||| is_invalid(e, "classfile_decode"@)
    ||| is_invalid(e, "classfile_invalid_constant_pool_index"@)
    ||| is_invalid(e, "classfile_constant_pool_tag_mismatch"@)
}

fn walk_eoi(position: usize, context: &str) -> (e: Error)
    ensures
        is_invalid(e, "classfile_decode"@),
{
    let mut m = String::from_str("noak decode failed: kind=unexpected end of input, context=");
    m.append(context);
    m.append(", position=");
    crate::text::push_decimal(&mut m, position as u64);
    Error::invalid_input_owned("classfile_decode", m)
}

fn field_u16(bytes: &[u8], at: usize, context: &str) -> (r: Result<u16>)
    ensures
        at + 2 <= bytes@.len() ==> r == Ok::<u16, Error>(be16(bytes@, at as int)),
        r is Ok ==> at + 2 <= bytes@.len(),
        r matches Err(e) ==> is_invalid(e, "classfile_decode"@),
{
    let n = bytes.len();
    if at > n || n - at < 2 {
        return Err(walk_eoi(at, context));
    }
    Ok(((bytes[at] as u32) * 256 + bytes[at + 1] as u32) as u16)
}

fn field_u32(bytes: &[u8], at: usize, context: &str) -> (r: Result<u32>)
    ensures
        at + 4 <= bytes@.len() ==> r == Ok::<u32, Error>(be32(bytes@, at as int)),
        r is Ok ==> at + 4 <= bytes@.len(),
        r matches Err(e) ==> is_invalid(e, "classfile_decode"@),
{
    let n = bytes.len();
    if at > n || n - at < 4 {
        return Err(walk_eoi(at, context));
    }
    let v: u64 = (bytes[at] as u64) * 0x100_0000 + (bytes[at + 1] as u64) * 0x1_0000 + (bytes[at + 2] as u64) * 0x100 + bytes[at + 3] as u64;
    Ok(v as u32)
}

/// A Modified UTF-8 value and the UTF-16 units it decodes to.
fn jvm_string_from(raw: JvmBytes) -> (r: Result<JvmString>)
    ensures
        r matches Ok(s) ==> s.raw_bytes() == raw.0@ && crate::model::mutf8_decode(raw.0@) == Some(s.units()),
        crate::model::mutf8_decode(raw.0@) is None <==> r is Err,
        r matches Err(e) ==> is_invalid(e, "classfile_decode"@),
{
    match decode_valid_mutf8(raw.0.as_slice()) {
        Some(units) => Ok(JvmString::from_parts(raw.0, units)),
        None => Err(Error::invalid_input("classfile_decode", "noak decode failed: kind=invalid modified utf8, context=constant pool, position=unknown")),
    }
}

/// The `CONSTANT_Utf8` value at `index`, as a JVM string.
fn jvm_string(bytes: &[u8], layout: &[CpSlotLayout], index: u16) -> (r: Result<JvmString>)
    requires
        wf_layout(bytes@, layout@),
    ensures
        r matches Ok(s) ==> crate::cpool::utf8_at(bytes@, layout@, index) == Ok::<Seq<u8>, crate::cpool::ResolveFail>(s.raw_bytes())
            && names_utf8(bytes@, layout@, index, s),
        r matches Err(e) ==> is_invalid(e, "classfile_decode"@),
        r is Ok <==> utf8_name_ok(bytes@, layout@, index),
{
    match crate::cpool::utf8_lookup(bytes, layout, index) {
        Ok(raw) => jvm_string_from(raw),
        Err(f) => Err(unresolved(f)),
    }
}

/// The internal name of the `CONSTANT_Class` at `index`, as a JVM string.
fn class_string(bytes: &[u8], layout: &[CpSlotLayout], index: u16) -> (r: Result<JvmString>)
    requires
        wf_layout(bytes@, layout@),
    ensures
        r matches Ok(s) ==> crate::cpool::class_at(bytes@, layout@, index) == Ok::<Seq<u8>, crate::cpool::ResolveFail>(s.raw_bytes()),
        r matches Ok(s) ==> names_class(bytes@, layout@, index, s),
        r matches Err(e) ==> is_invalid(e, "classfile_decode"@),
        r is Ok <==> class_name_ok(bytes@, layout@, index),
{
    match crate::cpool::class_lookup(bytes, layout, index) {
        Ok(raw) => jvm_string_from(raw),
        Err(f) => Err(unresolved(f)),
    }
}

/// A name the walk could not resolve, reported as the class decoder reports it.
fn unresolved(f: crate::cpool::ResolveFail) -> (e: Error)
    ensures
        is_invalid(e, "classfile_decode"@),
{
    match f {
        crate::cpool::ResolveFail::Index(_) => Error::invalid_input("classfile_decode",
            "noak decode failed: kind=invalid index into a table or the constant pool, context=constant pool, position=unknown"),
        crate::cpool::ResolveFail::Tag(_) => Error::invalid_input("classfile_decode",
            "noak decode failed: kind=tag mismatch, context=constant pool, position=unknown"),
    }
}

/// A counted refusal reports the usage it was refused on top of, and that usage is `u`.
pub open spec fn refused_at(e: Error, u: crate::budget::UsageSnapshot) -> bool {
    e matches Error::BudgetExceeded { dimension, consumed, .. } ==> exists|d: CountedBudgetDimension|
        #[trigger] d.dim() == dimension && consumed == u.counted(d)
}

/// A counted refusal a declaration walk can meet: an `AttributeBytes` charge of one shell, or a
/// `ResultItems` charge of one item.
pub open spec fn walk_budget_refusal(e: Error) -> bool {
    e matches Error::BudgetExceeded { dimension, requested, .. } ==> dimension == crate::budget::BudgetDimension::AttributeBytes
        || (dimension == crate::budget::BudgetDimension::ResultItems && requested == 1)
}

fn charge_item(budget: &mut Budget) -> (r: Result<()>)
    ensures
        r matches Err(e) ==> crate::budget::honest_refusal(e, old(budget).limits_of()),
        final(budget).limits_of() == old(budget).limits_of(),
        r matches Err(e) ==> is_stop(e) || e is BudgetExceeded,
        r matches Err(e) ==> is_stop(e) || walk_budget_refusal(e),
        r matches Err(e) ==> is_stop(e) || refused_at(e, final(budget).usage_of()),
        r is Ok ==> old(budget).usage_of().counted(CountedBudgetDimension::ResultItems) + 1
                <= old(budget).limits_of().counted(CountedBudgetDimension::ResultItems)
            && final(budget).usage_of() == old(budget).usage_of().with_counted(CountedBudgetDimension::ResultItems,
                (old(budget).usage_of().counted(CountedBudgetDimension::ResultItems) + 1) as u64),
        r is Err ==> final(budget).usage_of() == old(budget).usage_of(),
        old(budget).usage_of().counted(CountedBudgetDimension::ResultItems) + 1
            > old(budget).limits_of().counted(CountedBudgetDimension::ResultItems) ==> r is Err,
{
    budget.charge(CountedBudgetDimension::ResultItems, 1)
}

/// The attribute list at `at`: its shells, and where it ends.
fn collect_attribute_shells(bytes: &[u8], layout: &[CpSlotLayout], at: usize, budget: &mut Budget, billing: Billing, context: &str)
    -> (r: Result<(Vec<AttributeShell>, usize)>)
    requires
        wf_layout(bytes@, layout@),
    ensures
        r matches Err(e) ==> crate::budget::honest_refusal(e, old(budget).limits_of()),
        final(budget).limits_of() == old(budget).limits_of(),
        billing is Nothing ==> final(budget).usage_of() == old(budget).usage_of(),
        billing is Nothing ==> (r matches Err(e) ==> is_stop(e) || !(e is BudgetExceeded)),
        r matches Err(e) ==> is_stop(e) || walk_budget_refusal(e),
        r matches Err(e) ==> is_stop(e) || refused_at(e, final(budget).usage_of()),
        r matches Ok((shells, end)) ==> shells_wf(bytes@, shells@) && at < end <= bytes@.len()
            && attributes_ok(bytes@, layout@, at as int) && attributes_are(bytes@, layout@, at as int, shells@)
            && end == attributes_end(bytes@, at as int),
        r matches Err(e) ==> is_stop(e) || e is BudgetExceeded
            || (!attributes_ok(bytes@, layout@, at as int) && is_invalid(e, "classfile_decode"@)),
{
    let n = bytes.len();
    let count = field_u16(bytes, at, context)?;
    let mut pos = at + 2;
    let mut shells: Vec<AttributeShell> = Vec::new();
    let mut i: u16 = 0;
    while i < count
        invariant
            n == bytes@.len(),
            wf_layout(bytes@, layout@),
            at + 2 <= n,
            count == be16(bytes@, at as int),
            at < pos <= n,
            pos == attribute_at(bytes@, at as int, i as int),
            i <= count,
            budget.limits_of() == old(budget).limits_of(),
            billing is Nothing ==> budget.usage_of() == old(budget).usage_of(),
            shells_wf(bytes@, shells@),
            shells@.len() == i,
            forall|k: int| 0 <= k < i ==> #[trigger] attribute_ok(bytes@, layout@, at as int, k),
            forall|k: int| 0 <= k < i ==> #[trigger] is_attribute(bytes@, layout@, at as int, k, shells@[k]),
        decreases count - i,
    {
        budget.poll()?;
        let name_index = match field_u16(bytes, pos, context) {
            Ok(v) => v,
            Err(e) => {
                assert(!attribute_ok(bytes@, layout@, at as int, i as int));
                return Err(e);
            },
        };
        let length = match field_u32(bytes, pos + 2, context) {
            Ok(v) => v,
            Err(e) => {
                assert(!attribute_ok(bytes@, layout@, at as int, i as int));
                return Err(e);
            },
        };
        let content_start = pos + 6;
        if (n - content_start) < length as usize {
            assert(!attribute_ok(bytes@, layout@, at as int, i as int));
            return Err(walk_eoi(content_start, context));
        }
        let end = content_start + length as usize;
        let span = ByteSpan::new(pos as u64, 6 + length as u64);
        let content_span = ByteSpan::new(content_start as u64, length as u64);
        match billing {
            Billing::Nothing => {},
            _ => {
                budget.charge(CountedBudgetDimension::AttributeBytes, 6 + length as u64)?;
                match billing {
                    Billing::HeaderItems => charge_item(budget)?,
                    _ => {},
                }
            },
        }
        let name = match jvm_string(bytes, layout, name_index) {
            Ok(s) => s,
            Err(e) => {
                assert(!attribute_ok(bytes@, layout@, at as int, i as int));
                return Err(e);
            },
        };
        let shell = AttributeShell { name, span, content_span };
        assert(is_attribute(bytes@, layout@, at as int, i as int, shell));
        assert(attribute_ok(bytes@, layout@, at as int, i as int));
        shells.push(shell);
        pos = end;
        i = i + 1;
    }
    Ok((shells, pos))
}

/// The member list at `at`: its headers, and where it ends.
fn read_members(bytes: &[u8], layout: &[CpSlotLayout], at: usize, budget: &mut Budget, billing: Billing, context: &str)
    -> (r: Result<(Vec<MemberHeader>, usize)>)
    requires
        wf_layout(bytes@, layout@),
    ensures
        r matches Err(e) ==> crate::budget::honest_refusal(e, old(budget).limits_of()),
        final(budget).limits_of() == old(budget).limits_of(),
        billing is Nothing ==> final(budget).usage_of() == old(budget).usage_of(),
        billing is Nothing ==> (r matches Err(e) ==> is_stop(e) || !(e is BudgetExceeded)),
        r matches Err(e) ==> is_stop(e) || walk_budget_refusal(e),
        r matches Err(e) ==> is_stop(e) || refused_at(e, final(budget).usage_of()),
        r matches Ok((members, end)) ==> members_wf(bytes@, members@) && at < end <= bytes@.len()
            && members_ok(bytes@, layout@, at as int) && members_are(bytes@, layout@, at as int, members@)
            && end == members_end(bytes@, at as int),
        r matches Err(e) ==> is_stop(e) || e is BudgetExceeded
            || (!members_ok(bytes@, layout@, at as int) && is_invalid(e, "classfile_decode"@)),
{
    let n = bytes.len();
    let count = field_u16(bytes, at, context)?;
    let mut pos = at + 2;
    let mut members: Vec<MemberHeader> = Vec::new();
    let mut i: u16 = 0;
    while i < count
        invariant
            n == bytes@.len(),
            wf_layout(bytes@, layout@),
            at + 2 <= n,
            count == be16(bytes@, at as int),
            at < pos <= n,
            pos == member_at(bytes@, at as int, i as int),
            i <= count,
            budget.limits_of() == old(budget).limits_of(),
            billing is Nothing ==> budget.usage_of() == old(budget).usage_of(),
            members_wf(bytes@, members@),
            members@.len() == i,
            forall|k: int| 0 <= k < i ==> #[trigger] member_ok(bytes@, layout@, at as int, k),
            forall|k: int| 0 <= k < i ==> #[trigger] is_member(bytes@, layout@, at as int, k, members@[k]),
        decreases count - i,
    {
        budget.poll()?;
        let access_flags = match field_u16(bytes, pos, context) {
            Ok(v) => v,
            Err(e) => {
                assert(!member_ok(bytes@, layout@, at as int, i as int));
                return Err(e);
            },
        };
        let name_index = match field_u16(bytes, pos + 2, context) {
            Ok(v) => v,
            Err(e) => {
                assert(!member_ok(bytes@, layout@, at as int, i as int));
                return Err(e);
            },
        };
        let descriptor_index = match field_u16(bytes, pos + 4, context) {
            Ok(v) => v,
            Err(e) => {
                assert(!member_ok(bytes@, layout@, at as int, i as int));
                return Err(e);
            },
        };
        let (attributes, end) = match collect_attribute_shells(bytes, layout, pos + 6, budget, billing, context) {
            Ok(v) => v,
            Err(e) => {
                assert(is_stop(e) || e is BudgetExceeded || !member_ok(bytes@, layout@, at as int, i as int));
                return Err(e);
            },
        };
        match billing {
            Billing::HeaderItems => charge_item(budget)?,
            _ => {},
        }
        let name = match jvm_string(bytes, layout, name_index) {
            Ok(v) => v,
            Err(e) => {
                assert(!member_ok(bytes@, layout@, at as int, i as int));
                return Err(e);
            },
        };
        let descriptor = match jvm_string(bytes, layout, descriptor_index) {
            Ok(v) => v,
            Err(e) => {
                assert(!member_ok(bytes@, layout@, at as int, i as int));
                return Err(e);
            },
        };
        let member = MemberHeader { name, descriptor, access_flags, attributes };
        assert(member_ok(bytes@, layout@, at as int, i as int));
        assert(is_member(bytes@, layout@, at as int, i as int, member));
        members.push(member);
        pos = end;
        i = i + 1;
    }
    Ok((members, pos))
}

/// The structure after the constant pool.
pub struct Structure {
    pub access_flags: u16,
    pub this_class: JvmString,
    pub super_class: Option<JvmString>,
    pub interfaces: Vec<JvmString>,
    pub fields: Vec<MemberHeader>,
    pub methods: Vec<MemberHeader>,
    pub attributes: Vec<AttributeShell>,
    pub end: usize,
}

/// Walks the declaration structure that follows the constant pool.
#[verifier::rlimit(30)]
fn read_structure(bytes: &[u8], layout: &[CpSlotLayout], budget: &mut Budget, billing: Billing) -> (r: Result<Structure>)
    requires
        wf_layout(bytes@, layout@),
    ensures
        r matches Err(e) ==> crate::budget::honest_refusal(e, old(budget).limits_of()),
        final(budget).limits_of() == old(budget).limits_of(),
        billing is Nothing ==> final(budget).usage_of() == old(budget).usage_of(),
        billing is Nothing ==> (r matches Err(e) ==> is_stop(e) || !(e is BudgetExceeded)),
        r matches Err(e) ==> is_stop(e) || walk_budget_refusal(e),
        r matches Err(e) ==> is_stop(e) || refused_at(e, final(budget).usage_of()),
        r matches Ok(s) ==> pool_end(layout@) + 2 <= bytes@.len()
            && shells_wf(bytes@, s.attributes@) && members_wf(bytes@, s.fields@) && members_wf(bytes@, s.methods@)
            && s.end <= bytes@.len() && structure_ok(bytes@, layout@)
            && declares(bytes@, layout@, s.access_flags, s.this_class, s.super_class, s.interfaces@, s.fields@, s.methods@,
                s.attributes@)
            && s.end == attributes_end(bytes@, class_attributes_at(bytes@, layout@)),
        r matches Err(e) ==> is_stop(e) || e is BudgetExceeded
            || (!structure_ok(bytes@, layout@) && is_invalid(e, "classfile_decode"@)),
{
    let n = bytes.len();
    let start: usize = if layout.len() == 0 {
        10
    } else {
        let last = &layout[layout.len() - 1];
        assert(crate::cpool::wf_slot(bytes@, layout@[layout@.len() - 1]));
        last.start + last.length
    };
    assert(start == pool_end(layout@));
    let access_flags = field_u16(bytes, start, "class information")?;
    let this_index = field_u16(bytes, start + 2, "class information")?;
    let super_index = field_u16(bytes, start + 4, "class information")?;
    let interface_count = field_u16(bytes, start + 6, "interfaces")?;
    let this_class = class_string(bytes, layout, this_index)?;
    let super_class = if super_index == 0 { None } else { Some(class_string(bytes, layout, super_index)?) };
    let mut interfaces: Vec<JvmString> = Vec::new();
    let mut pos = start + 8;
    let mut i: u16 = 0;
    while i < interface_count
        invariant
            n == bytes@.len(),
            wf_layout(bytes@, layout@),
            start == pool_end(layout@),
            start + 8 <= n,
            interface_count == be16(bytes@, start + 6),
            i <= interface_count,
            pos == start + 8 + 2 * i,
            pos <= n,
            budget.limits_of() == old(budget).limits_of(),
            billing is Nothing ==> budget.usage_of() == old(budget).usage_of(),
            interfaces@.len() == i,
            forall|k: int| 0 <= k < i ==> #[trigger] class_name_ok(bytes@, layout@, be16(bytes@, interfaces_at(layout@) + 2 * k)),
            forall|k: int| 0 <= k < i ==> #[trigger] names_class(bytes@, layout@, be16(bytes@, interfaces_at(layout@) + 2 * k), interfaces@[k]),
        decreases interface_count - i,
    {
        budget.poll()?;
        let index = match field_u16(bytes, pos, "interfaces") {
            Ok(v) => v,
            Err(e) => {
                assert(!structure_ok(bytes@, layout@)) by {
                    assert(!(fields_at(bytes@, layout@) <= bytes@.len()));
                }
                return Err(e);
            },
        };
        match billing {
            Billing::HeaderItems => charge_item(budget)?,
            _ => {},
        }
        let name = match class_string(bytes, layout, index) {
            Ok(v) => v,
            Err(e) => {
                assert(!class_name_ok(bytes@, layout@, be16(bytes@, interfaces_at(layout@) + 2 * i)));
                return Err(e);
            },
        };
        interfaces.push(name);
        pos = pos + 2;
        i = i + 1;
    }
    assert(pos == fields_at(bytes@, layout@));
    let (fields, after_fields) = read_members(bytes, layout, pos, budget, billing, "fields")?;
    let (methods, after_methods) = read_members(bytes, layout, after_fields, budget, billing, "methods")?;
    let (attributes, end) = collect_attribute_shells(bytes, layout, after_methods, budget, billing, "attributes")?;
    match billing {
        Billing::HeaderItems => charge_item(budget)?,
        _ => {},
    }
    Ok(Structure { access_flags, this_class, super_class, interfaces, fields, methods, attributes, end })
}

/// The checks every read path runs before it trusts the bytes: the slot-reservation check, the
/// class decoder, and the rejection of bytes after the class structure.
pub open spec fn accepted(bytes: Seq<u8>) -> bool {
    &&& slots_check(bytes) is Accept
    &&& class_decode(bytes) matches Ok((_, _, size)) && size == bytes.len()
}

/// An error a class-shaped pre-check reports.
pub open spec fn is_precheck_error(e: Error) -> bool {
    ||| is_stop(e)
    ||| e is BudgetExceeded
    ||| is_invalid(e, "classfile_decode"@)
    ||| is_invalid(e, "classfile_span_overflow"@)
    ||| is_invalid(e, "classfile_invalid_constant_pool_slots"@)
    ||| is_invalid(e, "classfile_trailing_bytes"@)
}

/// The slot check, the class decoder, and the trailing-byte rejection.
fn precheck(bytes: &[u8], budget: &Budget) -> (r: Result<ClassShape>)
    ensures
        r matches Err(e) ==> crate::budget::honest_refusal(e, budget.limits_of()),
        r matches Ok(s) ==> accepted(bytes@) && class_decode(bytes@) == Ok::<(u16, u16, usize), (Seq<char>, Seq<char>, Option<usize>)>((s.major, s.minor, s.size))
            && s.minor == be16(bytes@, 4) && s.major == be16(bytes@, 6),
        r matches Err(e) ==> is_precheck_error(e),
        r matches Err(e) ==> is_stop(e) || !(e is BudgetExceeded),
        r matches Err(e) ==> (accepted(bytes@) ==> is_stop(e)),
        !(slots_check(bytes@) is Accept) ==> r is Err,
        !(class_decode(bytes@) matches Ok((_, _, size)) && size == bytes@.len()) ==> r is Err,
{
    validate_constant_pool_slots(bytes, budget)?;
    let shape = match decode_class(bytes) {
        Ok(s) => s,
        Err(f) => return Err(map_decode_error(&f)),
    };
    if shape.size != bytes.len() {
        let mut m = String::from_str("class structure ended at position ");
        crate::text::push_decimal(&mut m, shape.size as u64);
        m.append(", but input length is ");
        crate::text::push_decimal(&mut m, bytes.len() as u64);
        return Err(Error::invalid_input_owned("classfile_trailing_bytes", m));
    }
    Ok(shape)
}

/// The measured constant-pool layout of accepted bytes.
fn pool_layout(bytes: &[u8], budget: &Budget) -> (r: Result<Vec<CpSlotLayout>>)
    ensures
        r matches Err(e) ==> crate::budget::honest_refusal(e, budget.limits_of()),
        r matches Ok(l) ==> wf_layout(bytes@, l@) && measure_pool(bytes@) == Ok::<Seq<CpSlotLayout>, crate::cpool::PoolFail>(l@),
        r matches Err(e) ==> is_stop(e) || (measure_pool(bytes@) matches Err(f) && crate::cpool::pool_error(e, f)),
{
    let layout = measure_constant_pool(bytes, budget)?;
    proof {
        lemma_measure_pool_wf(bytes@);
    }
    Ok(layout)
}

/// An error a header or fact read reports.
pub open spec fn is_class_read_error(e: Error) -> bool {
    ||| is_precheck_error(e)
    ||| is_walk_error(e)
    ||| is_invalid(e, "classfile_unknown_constant_pool_tag"@)
    ||| is_invalid(e, "classfile_invalid_constant_pool_index"@)
    ||| is_invalid(e, "classfile_constant_pool_tag_mismatch"@)
}

/// What a complete header read of `bytes` under `mode` states: the accepted class shape, its
/// version and capability, the version diagnostics, the planes this layer never runs, and the
/// attribute shells and members exactly where the bytes hold them.
pub open spec fn header_read(bytes: Seq<u8>, mode: InspectionMode, h: HeaderInspection) -> bool {
    &&& accepted(bytes)
    &&& h.header.minor_version == be16(bytes, 4) && h.header.major_version == be16(bytes, 6)
    &&& h.version_capability == capability_of(h.header.major_version, h.header.minor_version)
    &&& diagnostics_are(h.diagnostics@, version_diagnostic_list(h.version_capability))
    &&& h.structural_read == HeaderStructuralRead::Complete
    &&& h.verification == VerificationStatus::NotPerformed
    &&& h.output_level is NotEvaluated
    &&& (mode == InspectionMode::Strict ==> strict_refusal(h.version_capability) is None)
    &&& shells_wf(bytes, h.header.attributes@) && members_wf(bytes, h.header.fields@)
    &&& members_wf(bytes, h.header.methods@)
    &&& header_declared(bytes, h.header)
}

/// The bytes pass the pre-checks, their constant pool measures, and the declaration structure
/// after it reads.
pub open spec fn readable(bytes: Seq<u8>) -> bool {
    &&& accepted(bytes)
    &&& measure_pool(bytes) matches Ok(layout) && structure_ok(bytes, layout)
}

/// `h` is the declaration the bytes state, over their measured constant pool.
pub open spec fn header_declared(bytes: Seq<u8>, h: ClassHeader) -> bool {
    measure_pool(bytes) matches Ok(layout) && declares(bytes, layout, h.access_flags, h.this_class, h.super_class,
        h.interfaces@, h.fields@, h.methods@, h.attributes@)
}

/// What a complete structure read of `bytes` states: the accepted class shape, its version,
/// the constant pool in index order, and the attribute shells and members exactly where the
/// bytes hold them.
pub open spec fn structure_read(bytes: Seq<u8>, f: ClassFacts) -> bool {
    &&& accepted(bytes)
    &&& f.minor_version == be16(bytes, 4) && f.major_version == be16(bytes, 6)
    &&& facts_sorted(f.constant_pool@)
    &&& shells_wf(bytes, f.attributes@) && members_wf(bytes, f.fields@) && members_wf(bytes, f.methods@)
    &&& measure_pool(bytes) matches Ok(layout)
    &&& declares(bytes, layout, f.access_flags, f.this_class, f.super_class, f.interfaces@, f.fields@, f.methods@, f.attributes@)
    &&& crate::cpool::resolve_pool(bytes, layout) matches Ok(kinds)
    &&& f.constant_pool@.len() == layout.len()
    &&& forall|i: int| 0 <= i < f.constant_pool@.len() ==> crate::cpool::entry_facts_match(#[trigger] f.constant_pool@[i], layout[i], kinds[i])
}

/// What a bytecode read of the method `selector` names in `bytes` states: the accepted class, the
/// selector, the verification plane it never runs, a decoded prefix inside the code array that is
/// the whole array on a complete read, and a stop that sits where the prefix ends.
pub open spec fn bytecode_read(bytes: Seq<u8>, selector: MethodSelector, b: BytecodeInspection) -> bool {
    &&& accepted(bytes)
    &&& b.selector == selector
    &&& b.verification == VerificationStatus::NotPerformed
    &&& (b.execution is Complete <==> b.stopped_at is None)
    &&& crate::bytecode::prefix_end(b.instructions@) <= b.code_span.length
    &&& (b.execution is Complete ==> crate::bytecode::prefix_end(b.instructions@) == b.code_span.length
        && b.exception_handlers@.len() == b.exception_handler_count)
    &&& (b.stopped_at matches Some(BytecodeStop::Instructions { bci, .. }) ==> bci == crate::bytecode::prefix_end(b.instructions@))
    &&& (b.stopped_at matches Some(BytecodeStop::ExceptionHandlers { ordinal, .. }) ==> ordinal == b.exception_handlers@.len()
        && b.instructions@.len() == 0)
}

/// A counted refusal a header read can meet, on top of the usage `before`, under `limits`: the
/// `ClassBytes` charge of the whole class; an `AttributeBytes` charge of one shell or a
/// `ResultItems` charge of one item of the walk; or the one `ResultItems` charge of all the
/// version diagnostics at once.
pub open spec fn header_budget_refusal(bytes: Seq<u8>, before: crate::budget::UsageSnapshot, limits: crate::budget::Limits,
    e: Error) -> bool {
    ||| !(e is BudgetExceeded)
    ||| crate::budget::counted_refusal(e, CountedBudgetDimension::ClassBytes, limits.counted(CountedBudgetDimension::ClassBytes),
        before.counted(CountedBudgetDimension::ClassBytes), bytes.len() as u64)
    ||| walk_budget_refusal(e)
    ||| diagnostics_refused(bytes, e)
}

/// `e` refuses the one `ResultItems` charge of all the version diagnostics of the bytes' version.
pub open spec fn diagnostics_refused(bytes: Seq<u8>, e: Error) -> bool {
    match e {
        Error::BudgetExceeded { dimension, requested, .. } => dimension == crate::budget::BudgetDimension::ResultItems
            && match class_decode(bytes) {
                Ok((major, minor, _)) => requested == version_diagnostic_list(capability_of(major, minor)).len(),
                Err(_) => false,
            },
        _ => false,
    }
}

/// Reads declaration-level structure and applies the version rule of the release registry.
/// Attribute content, instructions and verification are never performed here; a strict read
/// also refuses a version this build does not validate.
#[verifier::rlimit(30)]
pub fn inspect_header(bytes: &[u8], budget: &mut Budget, mode: InspectionMode) -> (r: Result<HeaderInspection>)
    ensures
        r matches Err(e) ==> crate::budget::honest_refusal(e, old(budget).limits_of()),
        final(budget).limits_of() == old(budget).limits_of(),
        r matches Ok(h) ==> header_read(bytes@, mode, h),
        !accepted(bytes@) ==> r is Err,
        accepted(bytes@) && mode == InspectionMode::Strict && (class_decode(bytes@) matches Ok((major, minor, _))
            && strict_refusal(capability_of(major, minor)) is Some) ==> r is Err,
        r matches Err(e) ==> is_class_read_error(e) || (e is Unsupported)
            || is_invalid(e, "classfile_invalid_major_version"@) || is_invalid(e, "classfile_invalid_modern_minor_version"@),
        r matches Err(e) ==> (readable(bytes@) && !(mode == InspectionMode::Strict && (class_decode(bytes@) matches Ok((major, minor, _))
            && strict_refusal(capability_of(major, minor)) is Some)) ==> is_stop(e) || e is BudgetExceeded),
        r matches Err(e) ==> (readable(bytes@) && mode == InspectionMode::Strict && version_refuses(bytes@)
            ==> is_stop(e) || e is BudgetExceeded || version_refused(bytes@, e)),
        r matches Err(e) ==> (!accepted(bytes@) ==> is_stop(e) || e is BudgetExceeded || e is InvalidInput),
        r matches Err(e) ==> is_stop(e) || header_budget_refusal(bytes@, old(budget).usage_of(), old(budget).limits_of(), e),
        r matches Err(e) ==> is_stop(e) || refused_at(e, final(budget).usage_of()),
{
    budget.poll()?;
    budget.charge(CountedBudgetDimension::ClassBytes, bytes.len() as u64)?;
    let shape = precheck(bytes, budget)?;
    let layout = pool_layout(bytes, budget)?;
    let structure = read_structure(bytes, layout.as_slice(), budget, Billing::HeaderItems)?;
    let capability = version_capability(shape.major, shape.minor);
    match mode {
        InspectionMode::Strict => enforce_strict_version_gate(&capability)?,
        InspectionMode::Forensic => {},
    }
    let diagnostics = version_diagnostics(&capability);
    budget.charge(CountedBudgetDimension::ResultItems, diagnostics.len() as u64)?;
    let header = ClassHeader {
        major_version: shape.major,
        minor_version: shape.minor,
        access_flags: structure.access_flags,
        this_class: structure.this_class,
        super_class: structure.super_class,
        interfaces: structure.interfaces,
        fields: structure.fields,
        methods: structure.methods,
        attributes: structure.attributes,
    };
    Ok(HeaderInspection {
        header,
        structural_read: HeaderStructuralRead::Complete,
        version_capability: capability,
        verification: VerificationStatus::NotPerformed,
        output_level: OutputLevelStatus::NotEvaluated,
        diagnostics,
    })
}

/// Reads declaration structure and the constant pool as reusable facts. The class-shaped
/// pre-checks are the ones the header read runs, but no version is ever refused here.
pub fn class_facts(bytes: &[u8], budget: &mut Budget) -> (r: Result<ClassFacts>)
    ensures
        r matches Err(e) ==> crate::budget::honest_refusal(e, old(budget).limits_of()),
        final(budget).limits_of() == old(budget).limits_of(),
        r matches Ok(f) ==> structure_read(bytes@, f),
        !accepted(bytes@) ==> r is Err,
        r matches Err(e) ==> is_class_read_error(e),
        r matches Err(e) ==> (readable(bytes@) && (measure_pool(bytes@) matches Ok(layout)
            && crate::cpool::resolve_pool(bytes@, layout) is Ok) ==> is_stop(e) || e is BudgetExceeded),
        r matches Err(e) ==> (!accepted(bytes@) ==> is_stop(e) || e is BudgetExceeded || e is InvalidInput),
        r matches Err(e) ==> is_stop(e) || !(e is BudgetExceeded) || walk_budget_refusal(e)
            || crate::budget::counted_refusal(e, CountedBudgetDimension::ClassBytes,
                old(budget).limits_of().counted(CountedBudgetDimension::ClassBytes),
                old(budget).usage_of().counted(CountedBudgetDimension::ClassBytes), bytes@.len() as u64),
{
    budget.poll()?;
    budget.charge(CountedBudgetDimension::ClassBytes, bytes.len() as u64)?;
    let shape = precheck(bytes, budget)?;
    let layout = pool_layout(bytes, budget)?;
    let constant_pool = resolve_constant_pool(bytes, layout.as_slice(), budget)?;
    let structure = read_structure(bytes, layout.as_slice(), budget, Billing::ShellBytes)?;
    Ok(ClassFacts {
        major_version: shape.major,
        minor_version: shape.minor,
        access_flags: structure.access_flags,
        this_class: structure.this_class,
        super_class: structure.super_class,
        interfaces: structure.interfaces,
        fields: structure.fields,
        methods: structure.methods,
        attributes: structure.attributes,
        constant_pool,
    })
}


/// The stable code and message of an adapter refusal.
fn adapter_error(kind: AdapterKind) -> (r: (&'static str, &'static str))
    ensures
        r.0@ == crate::body::adapter_code(kind),
{
    match kind {
        AdapterKind::InvalidRange => ("classfile_instruction_invalid_range", "tableswitch high is less than low"),
        AdapterKind::WidthOverflow => ("classfile_instruction_width_overflow", "instruction width overflow"),
    }
}

/// What a decode refusal of this kind is called in a message.
pub open spec fn decode_kind_spelling(kind: DecodeKind) -> Seq<char> {
    match kind {
        DecodeKind::UnexpectedEnd => "unexpected end of input"@,
        DecodeKind::InvalidInstruction => "invalid instruction"@,
        DecodeKind::InvalidTag => "invalid tag"@,
    }
}

fn decode_kind_text(kind: DecodeKind) -> (s: &'static str)
    ensures
        s@ == decode_kind_spelling(kind),
{
    match kind {
        DecodeKind::UnexpectedEnd => "unexpected end of input",
        DecodeKind::InvalidInstruction => "invalid instruction",
        DecodeKind::InvalidTag => "invalid tag",
    }
}

/// Where a stop is, in class-file coordinates: the handler record after the table count, or the
/// instruction at its BCI.
pub open spec fn stop_offset(code_span: ByteSpan, position: StopPosition) -> int {
    match position {
        StopPosition::ExceptionHandler(o) => code_span.start + code_span.length + 2 + 8 * o,
        StopPosition::Instruction(b) => code_span.start + b,
    }
}

/// The stop record of one position, with the stable code of the reason.
fn bytecode_stop(code_span: &ByteSpan, position: StopPosition, code: &str) -> (r: Result<BytecodeStop>)
    ensures
        stop_offset(*code_span, position) <= u64::MAX ==> (r matches Ok(s) && match position {
            StopPosition::ExceptionHandler(o) => s matches BytecodeStop::ExceptionHandlers { ordinal, class_offset, code: c }
                && ordinal == o && class_offset == stop_offset(*code_span, position) && c@ == code@,
            StopPosition::Instruction(b) => s matches BytecodeStop::Instructions { bci, class_offset, code: c }
                && bci == b && class_offset == stop_offset(*code_span, position) && c@ == code@,
        }),
        stop_offset(*code_span, position) > u64::MAX ==> (r matches Err(e) && is_invalid(e, "classfile_code_span_overflow"@)),
{
    match position {
        StopPosition::ExceptionHandler(ordinal) => {
            if code_span.start > u64::MAX - code_span.length || code_span.start + code_span.length > u64::MAX - 2
                || code_span.start + code_span.length + 2 > u64::MAX - 8 * ordinal as u64 {
                return Err(Error::invalid_input("classfile_code_span_overflow", "exception table record start overflow"));
            }
            Ok(BytecodeStop::ExceptionHandlers {
                ordinal,
                class_offset: code_span.start + code_span.length + 2 + 8 * ordinal as u64,
                code: String::from_str(code),
            })
        },
        StopPosition::Instruction(bci) => {
            if code_span.start > u64::MAX - bci as u64 {
                return Err(Error::invalid_input("classfile_code_span_overflow", "instruction stop offset overflow"));
            }
            Ok(BytecodeStop::Instructions { bci, class_offset: code_span.start + bci as u64, code: String::from_str(code) })
        },
    }
}

/// Whether a member header declares a `Code` shell with this content span.
fn member_has_code_shell(method: &MemberHeader, content_span: &ByteSpan) -> (b: bool)
    ensures
        b == exists|i: int| 0 <= i < method.attributes@.len() && crate::attributes::is_code_shell(method.attributes@, i)
            && method.attributes@[i].content_span == *content_span,
{
    let mut i: usize = 0;
    while i < method.attributes.len()
        invariant
            i <= method.attributes@.len(),
            forall|j: int| 0 <= j < i ==> !(crate::attributes::is_code_shell(method.attributes@, j)
                && method.attributes@[j].content_span == *content_span),
        decreases method.attributes@.len() - i,
    {
        let shell = &method.attributes[i];
        if crate::names::is_code(shell.name.raw().0.as_slice()) && shell.content_span.start == content_span.start
            && shell.content_span.length == content_span.length {
            assert(crate::attributes::is_code_shell(method.attributes@, i as int));
            assert(method.attributes@[i as int].content_span == *content_span);
            return true;
        }
        i = i + 1;
    }
    false
}

/// The methods a walk read state, by position, what the bytes say of each method: its name and
/// descriptor, its attributes' names and contents.
proof fn lemma_methods_by_position(bytes: Seq<u8>, layout: Seq<CpSlotLayout>, methods: Seq<MemberHeader>, name: Seq<u8>, descriptor: Seq<u8>)
    requires
        members_are(bytes, layout, methods_at(bytes, layout), methods),
    ensures
        method_count(bytes, layout) == methods.len(),
        forall|k: int| 0 <= k < methods.len() ==> (#[trigger] method_named(bytes, layout, k, name, descriptor)
            <==> member_named(methods[k], name, descriptor)),
        forall|k: int| 0 <= k < methods.len() ==> #[trigger] method_attribute_count(bytes, layout, k) == methods[k].attributes@.len(),
        forall|k: int, j: int| 0 <= k < methods.len() && 0 <= j < methods[k].attributes@.len() ==>
            (#[trigger] is_code_attribute(bytes, layout, k, j) <==> crate::attributes::is_code_shell(methods[k].attributes@, j))
            && method_attribute_content(bytes, layout, k, j) == methods[k].attributes@[j].content_span,
{
    assert forall|k: int| 0 <= k < methods.len() implies (#[trigger] method_named(bytes, layout, k, name, descriptor)
        <==> member_named(methods[k], name, descriptor)) by {
        assert(is_member(bytes, layout, methods_at(bytes, layout), k, methods[k]));
    }
    assert forall|k: int| 0 <= k < methods.len() implies #[trigger] method_attribute_count(bytes, layout, k) == methods[k].attributes@.len() by {
        assert(is_member(bytes, layout, methods_at(bytes, layout), k, methods[k]));
    }
    assert forall|k: int, j: int| 0 <= k < methods.len() && 0 <= j < methods[k].attributes@.len() implies
        (#[trigger] is_code_attribute(bytes, layout, k, j) <==> crate::attributes::is_code_shell(methods[k].attributes@, j))
        && method_attribute_content(bytes, layout, k, j) == methods[k].attributes@[j].content_span by {
        assert(is_member(bytes, layout, methods_at(bytes, layout), k, methods[k]));
        assert(is_attribute(bytes, layout, method_at(bytes, layout, k) + 6, j, methods[k].attributes@[j]));
    }
}

/// Why a read that selects a method by raw name and descriptor can refuse the class: no method or
/// two methods with them, or the one method with them declares no `Code` attribute or two.
pub open spec fn selection_refusal(bytes: Seq<u8>, layout: Seq<CpSlotLayout>, name: Seq<u8>, descriptor: Seq<u8>, e: Error) -> bool {
    ||| is_invalid(e, "classfile_method_not_found"@) && no_method_named(bytes, layout, name, descriptor)
    ||| is_invalid(e, "classfile_method_ambiguous"@) && methods_named_twice(bytes, layout, name, descriptor)
    ||| exists|k: int| #[trigger] sole_method_named(bytes, layout, k, name, descriptor) && (
        (e matches Error::Unsupported { code, .. } && code@ == "classfile_method_has_no_code"@ && no_code(bytes, layout, k))
        || (is_invalid(e, "classfile_duplicate_code_attribute"@) && code_twice(bytes, layout, k)))
}

/// The content of attribute `j` of method `k`, as bytes.
pub open spec fn attribute_bytes(bytes: Seq<u8>, layout: Seq<CpSlotLayout>, k: int, j: int) -> Seq<u8> {
    crate::header::span_bytes(bytes, method_attribute_content(bytes, layout, k, j))
}

/// Method `k`'s one `Code` attribute is attribute `j`, and its fixed fields and tables do not fit
/// its content: the read refuses it as it refuses a class structure that ends early.
pub open spec fn code_refusal(bytes: Seq<u8>, layout: Seq<CpSlotLayout>, k: int, j: int, e: Error) -> bool {
    &&& sole_code(bytes, layout, k, j)
    &&& !crate::body::layout_fits(attribute_bytes(bytes, layout, k, j))
    &&& (is_invalid(e, "classfile_decode"@) || is_invalid(e, "classfile_code_out_of_bounds"@)
        || is_invalid(e, "classfile_span_overflow"@))
}

/// Why a bytecode read of `selector` can refuse readable bytes whose version it accepts.
pub open spec fn bytecode_refusal(bytes: Seq<u8>, selector: MethodSelector, e: Error) -> bool {
    measure_pool(bytes) matches Ok(layout) && (selection_refusal(bytes, layout, selector.name.0@, selector.descriptor.0@, e)
        || exists|k: int, j: int| sole_method_named(bytes, layout, k, selector.name.0@, selector.descriptor.0@)
            && #[trigger] code_refusal(bytes, layout, k, j, e))
}

/// The stable code of a stop record.
pub open spec fn stop_code(s: BytecodeStop) -> Seq<char> {
    match s {
        BytecodeStop::ExceptionHandlers { code, .. } => code@,
        BytecodeStop::Instructions { code, .. } => code@,
    }
}

/// What a bytecode read of `selector` reports of `bytes`: the one method with that raw name and
/// descriptor, its one `Code` attribute, the body read from that attribute's content, and one
/// diagnostic naming the stop when there is one.
pub open spec fn bytecode_of(bytes: Seq<u8>, selector: MethodSelector, b: BytecodeInspection) -> bool {
    &&& measure_pool(bytes) matches Ok(layout) && exists|k: int, j: int|
        sole_method_named(bytes, layout, k, selector.name.0@, selector.descriptor.0@)
        && #[trigger] sole_code(bytes, layout, k, j)
        && crate::body::body_agrees(attribute_bytes(bytes, layout, k, j), method_attribute_content(bytes, layout, k, j).start as int,
            b.max_stack, b.max_locals, b.code_span, b.instructions@, b.exception_handlers@, b.exception_handler_count,
            b.execution, b.stopped_at)
    &&& match b.stopped_at {
        None => b.diagnostics@.len() == 0,
        Some(s) => b.diagnostics@.len() == 1 && b.diagnostics@[0].code@ == stop_code(s)
            && b.diagnostics@[0].severity == stop_severity(stop_code(s)),
    }
}

/// A refusal of `select_code` over the methods a walk read is a refusal of the bytes.
proof fn lemma_selection_refusal(bytes: Seq<u8>, layout: Seq<CpSlotLayout>, methods: Seq<MemberHeader>, name: Seq<u8>, descriptor: Seq<u8>, e: Error)
    requires
        members_are(bytes, layout, methods_at(bytes, layout), methods),
        (is_invalid(e, "classfile_method_not_found"@)
                && forall|j: int| 0 <= j < methods.len() ==> !#[trigger] member_named(methods[j], name, descriptor))
            || (is_invalid(e, "classfile_method_ambiguous"@) && exists|i: int, j: int| 0 <= i < j < methods.len()
                && #[trigger] member_named(methods[i], name, descriptor) && #[trigger] member_named(methods[j], name, descriptor))
            || (exists|m: int| 0 <= m < methods.len() && #[trigger] member_named(methods[m], name, descriptor)
                && (forall|j: int| 0 <= j < methods.len() && j != m ==> !#[trigger] member_named(methods[j], name, descriptor))
                && ((e matches Error::Unsupported { code, .. } && code@ == "classfile_method_has_no_code"@
                    && forall|i: int| 0 <= i < methods[m].attributes@.len()
                        ==> !#[trigger] crate::attributes::is_code_shell(methods[m].attributes@, i))
                || (is_invalid(e, "classfile_duplicate_code_attribute"@) && exists|i: int, j: int|
                    0 <= i < j < methods[m].attributes@.len() && #[trigger] crate::attributes::is_code_shell(methods[m].attributes@, i)
                    && #[trigger] crate::attributes::is_code_shell(methods[m].attributes@, j)))),
    ensures
        selection_refusal(bytes, layout, name, descriptor, e),
{
    lemma_methods_by_position(bytes, layout, methods, name, descriptor);
    if is_invalid(e, "classfile_method_not_found"@) && forall|j: int| 0 <= j < methods.len() ==> !#[trigger] member_named(methods[j], name, descriptor) {
        assert forall|k: int| 0 <= k < method_count(bytes, layout) implies !#[trigger] method_named(bytes, layout, k, name, descriptor) by {
            assert(!member_named(methods[k], name, descriptor));
        }
    } else if is_invalid(e, "classfile_method_ambiguous"@) && exists|i: int, j: int| 0 <= i < j < methods.len()
        && #[trigger] member_named(methods[i], name, descriptor) && #[trigger] member_named(methods[j], name, descriptor) {
        let (i, j) = choose|i: int, j: int| 0 <= i < j < methods.len()
            && #[trigger] member_named(methods[i], name, descriptor) && #[trigger] member_named(methods[j], name, descriptor);
        assert(method_named(bytes, layout, i, name, descriptor));
        assert(method_named(bytes, layout, j, name, descriptor));
    } else {
        let m = choose|m: int| 0 <= m < methods.len() && #[trigger] member_named(methods[m], name, descriptor)
            && (forall|j: int| 0 <= j < methods.len() && j != m ==> !#[trigger] member_named(methods[j], name, descriptor))
            && ((e matches Error::Unsupported { code, .. } && code@ == "classfile_method_has_no_code"@
                && forall|i: int| 0 <= i < methods[m].attributes@.len()
                    ==> !#[trigger] crate::attributes::is_code_shell(methods[m].attributes@, i))
            || (is_invalid(e, "classfile_duplicate_code_attribute"@) && exists|i: int, j: int|
                0 <= i < j < methods[m].attributes@.len() && #[trigger] crate::attributes::is_code_shell(methods[m].attributes@, i)
                && #[trigger] crate::attributes::is_code_shell(methods[m].attributes@, j)));
        assert(method_named(bytes, layout, m, name, descriptor));
        assert forall|j: int| 0 <= j < method_count(bytes, layout) && j != m implies !#[trigger] method_named(bytes, layout, j, name, descriptor) by {
            assert(!member_named(methods[j], name, descriptor));
        }
        assert(sole_method_named(bytes, layout, m, name, descriptor));
        if e matches Error::Unsupported { .. } {
            assert forall|i: int| 0 <= i < method_attribute_count(bytes, layout, m) implies !#[trigger] is_code_attribute(bytes, layout, m, i) by {
                assert(!crate::attributes::is_code_shell(methods[m].attributes@, i));
            }
        } else {
            let (i, j) = choose|i: int, j: int| 0 <= i < j < methods[m].attributes@.len()
                && #[trigger] crate::attributes::is_code_shell(methods[m].attributes@, i)
                && #[trigger] crate::attributes::is_code_shell(methods[m].attributes@, j);
            assert(is_code_attribute(bytes, layout, m, i));
            assert(is_code_attribute(bytes, layout, m, j));
        }
    }
}

/// The member has this raw name and this raw descriptor.
pub open spec fn member_named(m: MemberHeader, name: Seq<u8>, descriptor: Seq<u8>) -> bool {
    m.name.raw_bytes() == name && m.descriptor.raw_bytes() == descriptor
}

/// The method a selector names, and its one `Code` shell.
fn select_code(methods: &[MemberHeader], name: &[u8], descriptor: &[u8]) -> (r: Result<(usize, usize)>)
    ensures
        r matches Ok((m, a)) ==> m < methods@.len() && a < methods@[m as int].attributes@.len()
            && member_named(methods@[m as int], name@, descriptor@)
            && crate::attributes::is_code_shell(methods@[m as int].attributes@, a as int)
            && (forall|j: int| 0 <= j < methods@.len() && j != m ==> !#[trigger] member_named(methods@[j], name@, descriptor@))
            && (forall|i: int| 0 <= i < methods@[m as int].attributes@.len() && i != a
                ==> !#[trigger] crate::attributes::is_code_shell(methods@[m as int].attributes@, i)),
        r matches Err(e) ==> (is_invalid(e, "classfile_method_not_found"@)
                && forall|j: int| 0 <= j < methods@.len() ==> !#[trigger] member_named(methods@[j], name@, descriptor@))
            || (is_invalid(e, "classfile_method_ambiguous"@) && exists|i: int, j: int| 0 <= i < j < methods@.len()
                && #[trigger] member_named(methods@[i], name@, descriptor@) && #[trigger] member_named(methods@[j], name@, descriptor@))
            || (exists|m: int| 0 <= m < methods@.len() && #[trigger] member_named(methods@[m], name@, descriptor@)
                && (forall|j: int| 0 <= j < methods@.len() && j != m ==> !#[trigger] member_named(methods@[j], name@, descriptor@))
                && ((e matches Error::Unsupported { code, .. } && code@ == "classfile_method_has_no_code"@
                    && forall|i: int| 0 <= i < methods@[m].attributes@.len()
                        ==> !#[trigger] crate::attributes::is_code_shell(methods@[m].attributes@, i))
                || (is_invalid(e, "classfile_duplicate_code_attribute"@) && exists|i: int, j: int|
                    0 <= i < j < methods@[m].attributes@.len() && #[trigger] crate::attributes::is_code_shell(methods@[m].attributes@, i)
                    && #[trigger] crate::attributes::is_code_shell(methods@[m].attributes@, j)))),
{
    let mut found: Option<usize> = None;
    let mut i: usize = 0;
    while i < methods.len()
        invariant
            i <= methods@.len(),
            found is None ==> forall|j: int| 0 <= j < i ==> !#[trigger] member_named(methods@[j], name@, descriptor@),
            found matches Some(m) ==> m < i && member_named(methods@[m as int], name@, descriptor@)
                && forall|j: int| 0 <= j < i && j != m ==> !#[trigger] member_named(methods@[j], name@, descriptor@),
        decreases methods@.len() - i,
    {
        let method = &methods[i];
        if crate::names::same_bytes(method.name.raw().0.as_slice(), name)
            && crate::names::same_bytes(method.descriptor.raw().0.as_slice(), descriptor) {
            if let Some(first) = found {
                assert(member_named(methods@[first as int], name@, descriptor@));
                assert(member_named(methods@[i as int], name@, descriptor@));
                return Err(Error::invalid_input("classfile_method_ambiguous", "multiple methods exactly matched the raw name and descriptor"));
            }
            found = Some(i);
        }
        i = i + 1;
    }
    let m = match found {
        None => return Err(Error::invalid_input("classfile_method_not_found", "no method exactly matched the raw name and descriptor")),
        Some(m) => m,
    };
    assert(member_named(methods@[m as int], name@, descriptor@));
    let attributes = &methods[m].attributes;
    let mut code: Option<usize> = None;
    let mut a: usize = 0;
    while a < attributes.len()
        invariant
            a <= attributes@.len(),
            m < methods@.len(),
            attributes@ == methods@[m as int].attributes@,
            member_named(methods@[m as int], name@, descriptor@),
            forall|j: int| 0 <= j < methods@.len() && j != m ==> !#[trigger] member_named(methods@[j], name@, descriptor@),
            code is None ==> forall|i: int| 0 <= i < a ==> !#[trigger] crate::attributes::is_code_shell(attributes@, i),
            code matches Some(c) ==> c < a && crate::attributes::is_code_shell(attributes@, c as int)
                && forall|i: int| 0 <= i < a && i != c ==> !#[trigger] crate::attributes::is_code_shell(attributes@, i),
        decreases attributes@.len() - a,
    {
        if crate::names::is_code(attributes[a].name.raw().0.as_slice()) {
            if let Some(first) = code {
                assert(crate::attributes::is_code_shell(attributes@, first as int));
                assert(crate::attributes::is_code_shell(attributes@, a as int));
                return Err(Error::invalid_input("classfile_duplicate_code_attribute", "selected method has multiple Code attributes"));
            }
            code = Some(a);
        }
        a = a + 1;
    }
    match code {
        None => Err(Error::unsupported("classfile_method_has_no_code", "selected method has no Code attribute")),
        Some(c) => Ok((m, c)),
    }
}

/// The stable code, severity and message of the diagnostic a stopped inspection states.
/// The severity of the one diagnostic a stopped body read reports: a stop the request caused
/// (cancellation, a budget refusal) is a warning; a body that does not decode is an error.
pub open spec fn stop_severity(code: Seq<char>) -> DiagnosticSeverity {
    if code == "classfile_bytecode_cancelled"@ || code == "classfile_bytecode_budget_exceeded"@ {
        DiagnosticSeverity::Warning
    } else {
        DiagnosticSeverity::Error
    }
}

/// The codes of a body that does not decode are not the codes of a request stop.
proof fn lemma_stop_severities()
    ensures
        stop_severity("classfile_bytecode_cancelled"@) == DiagnosticSeverity::Warning,
        stop_severity("classfile_bytecode_budget_exceeded"@) == DiagnosticSeverity::Warning,
        stop_severity("classfile_bytecode_failed"@) == DiagnosticSeverity::Error,
        stop_severity("classfile_instruction_decode"@) == DiagnosticSeverity::Error,
        stop_severity("classfile_instruction_invalid_range"@) == DiagnosticSeverity::Error,
        stop_severity("classfile_instruction_width_overflow"@) == DiagnosticSeverity::Error,
{
    reveal_strlit("classfile_bytecode_cancelled");
    reveal_strlit("classfile_bytecode_budget_exceeded");
    reveal_strlit("classfile_bytecode_failed");
    reveal_strlit("classfile_instruction_decode");
    reveal_strlit("classfile_instruction_invalid_range");
    reveal_strlit("classfile_instruction_width_overflow");
    assert("classfile_bytecode_failed"@[19] != "classfile_bytecode_cancelled"@[19]);
    assert("classfile_bytecode_failed"@[19] != "classfile_bytecode_budget_exceeded"@[19]);
    assert("classfile_instruction_decode"@[10] != "classfile_bytecode_cancelled"@[10]);
    assert("classfile_instruction_decode"@[10] != "classfile_bytecode_budget_exceeded"@[10]);
    assert("classfile_instruction_invalid_range"@[10] != "classfile_bytecode_cancelled"@[10]);
    assert("classfile_instruction_invalid_range"@[10] != "classfile_bytecode_budget_exceeded"@[10]);
    assert("classfile_instruction_width_overflow"@[10] != "classfile_bytecode_cancelled"@[10]);
    assert("classfile_instruction_width_overflow"@[10] != "classfile_bytecode_budget_exceeded"@[10]);
}

fn stop_report(failure: &BodyFailure, position: &StopPosition, usage: UsageSnapshot)
    -> (r: (ExecutionReport, String, DiagnosticSeverity, String))
    ensures
        failure matches BodyFailure::Decode(_) ==> r.1@ == "classfile_instruction_decode"@ && r.2 == DiagnosticSeverity::Error
            && crate::body::error_partial(r.0, r.1@),
        failure matches BodyFailure::Adapter(k) ==> r.1@ == crate::body::adapter_code(*k) && r.2 == DiagnosticSeverity::Error
            && crate::body::error_partial(r.0, r.1@),
        failure matches BodyFailure::Budget(Error::Cancelled { .. }) ==> r.1@ == "classfile_bytecode_cancelled"@
            && r.0 is Cancelled,
        failure matches BodyFailure::Budget(Error::BudgetExceeded { .. }) ==> r.1@ == "classfile_bytecode_budget_exceeded"@,
        crate::body::request_failure(*failure) ==> crate::body::request_stop(r.1@, r.0),
        !(r.0 is Complete),
        r.2 == stop_severity(r.1@),
{
    proof {
        lemma_stop_severities();
    }
    match failure {
        BodyFailure::Budget(Error::Cancelled { .. }) => (ExecutionReport::Cancelled { usage },
            String::from_str("classfile_bytecode_cancelled"), DiagnosticSeverity::Warning,
            String::from_str("bytecode inspection stopped before completion")),
        BodyFailure::Budget(Error::BudgetExceeded { dimension, .. }) => (ExecutionReport::Partial {
                reason: TerminationReason::BudgetExceeded { dimension: *dimension }, usage },
            String::from_str("classfile_bytecode_budget_exceeded"), DiagnosticSeverity::Warning,
            String::from_str("bytecode inspection stopped before completion")),
        BodyFailure::Budget(_) => (ExecutionReport::Partial {
                reason: TerminationReason::Error { code: String::from_str("classfile_bytecode_failed") }, usage },
            String::from_str("classfile_bytecode_failed"), DiagnosticSeverity::Error,
            String::from_str("bytecode inspection stopped before completion")),
        BodyFailure::Decode(kind) => {
            let mut m = String::from_str("noak instruction decode failed: kind=");
            m.append(decode_kind_text(*kind));
            m.append(", context=code, position=");
            match position {
                StopPosition::Instruction(bci) => crate::text::push_decimal(&mut m, *bci as u64),
                StopPosition::ExceptionHandler(_) => m.append("unknown"),
            }
            (ExecutionReport::Partial { reason: TerminationReason::Error { code: String::from_str("classfile_instruction_decode") }, usage },
                String::from_str("classfile_instruction_decode"), DiagnosticSeverity::Error, m)
        },
        BodyFailure::Adapter(kind) => {
            let (code, message) = adapter_error(*kind);
            (ExecutionReport::Partial { reason: TerminationReason::Error { code: String::from_str(code) }, usage },
                String::from_str(code), DiagnosticSeverity::Error, String::from_str(message))
        },
    }
}

/// The method of a walked class that `name` and `descriptor` select, and its one `Code` shell,
/// stated by position in the bytes.
fn locate_code(bytes: &[u8], layout: &[CpSlotLayout], methods: &[MemberHeader], name: &[u8], descriptor: &[u8])
    -> (r: Result<(usize, usize)>)
    requires
        members_are(bytes@, layout@, methods_at(bytes@, layout@), methods@),
        members_wf(bytes@, methods@),
    ensures
        r matches Ok((m, a)) ==> m < methods@.len() && a < methods@[m as int].attributes@.len()
            && sole_method_named(bytes@, layout@, m as int, name@, descriptor@) && sole_code(bytes@, layout@, m as int, a as int)
            && methods@[m as int].attributes@[a as int].content_span == method_attribute_content(bytes@, layout@, m as int, a as int)
            && shell_matches(methods@[m as int].attributes@[a as int].span, methods@[m as int].attributes@[a as int].content_span)
            && span_inside(bytes@, methods@[m as int].attributes@[a as int].content_span),
        r matches Err(e) ==> selection_refusal(bytes@, layout@, name@, descriptor@, e),
{
    proof {
        lemma_methods_by_position(bytes@, layout@, methods@, name@, descriptor@);
    }
    let (m, a) = match select_code(methods, name, descriptor) {
        Ok(v) => v,
        Err(e) => {
            proof {
                lemma_selection_refusal(bytes@, layout@, methods@, name@, descriptor@, e);
            }
            return Err(e);
        },
    };
    proof {
        assert(sole_method_named(bytes@, layout@, m as int, name@, descriptor@)) by {
            assert forall|j: int| 0 <= j < method_count(bytes@, layout@) && j != m implies
                !#[trigger] method_named(bytes@, layout@, j, name@, descriptor@) by {
                assert(!member_named(methods@[j], name@, descriptor@));
            }
        }
        assert(sole_code(bytes@, layout@, m as int, a as int)) by {
            assert forall|i: int| 0 <= i < method_attribute_count(bytes@, layout@, m as int) && i != a implies
                !#[trigger] is_code_attribute(bytes@, layout@, m as int, i) by {
                assert(!crate::attributes::is_code_shell(methods@[m as int].attributes@, i));
            }
        }
        assert(shells_wf(bytes@, methods@[m as int].attributes@));
    }
    Ok((m, a))
}

/// Reads the declaration structure after the constant pool and selects the method `name` and
/// `descriptor` name, with its one `Code` shell; nothing is billed but the polls.
fn locate_in_class(bytes: &[u8], layout: &[CpSlotLayout], name: &[u8], descriptor: &[u8], budget: &mut Budget)
    -> (r: Result<(Vec<MemberHeader>, usize, usize)>)
    requires
        wf_layout(bytes@, layout@),
    ensures
        r matches Err(e) ==> crate::budget::honest_refusal(e, old(budget).limits_of()),
        final(budget).limits_of() == old(budget).limits_of(),
        final(budget).usage_of() == old(budget).usage_of(),
        r matches Err(e) ==> is_stop(e) || !(e is BudgetExceeded),
        r matches Ok((methods, m, a)) ==> structure_ok(bytes@, layout@)
            && members_are(bytes@, layout@, methods_at(bytes@, layout@), methods@)
            && members_wf(bytes@, methods@)
            && m < methods@.len() && a < methods@[m as int].attributes@.len()
            && sole_method_named(bytes@, layout@, m as int, name@, descriptor@) && sole_code(bytes@, layout@, m as int, a as int)
            && methods@[m as int].attributes@[a as int].content_span == method_attribute_content(bytes@, layout@, m as int, a as int)
            && shell_matches(methods@[m as int].attributes@[a as int].span, methods@[m as int].attributes@[a as int].content_span)
            && span_inside(bytes@, methods@[m as int].attributes@[a as int].content_span),
        r matches Err(e) ==> is_stop(e) || e is BudgetExceeded
            || (!structure_ok(bytes@, layout@) && is_invalid(e, "classfile_decode"@))
            || (structure_ok(bytes@, layout@) && selection_refusal(bytes@, layout@, name@, descriptor@, e)),
{
    let structure = read_structure(bytes, layout, budget, Billing::Nothing)?;
    proof {
        assert(members_are(bytes@, layout@, methods_at(bytes@, layout@), structure.methods@));
    }
    let (m, a) = locate_code(bytes, layout, structure.methods.as_slice(), name, descriptor)?;
    Ok((structure.methods, m, a))
}

/// `e` is one of the counted refusals a bytecode read of `selector` can meet, on top of the
/// usage `before`, under `limits`: the `ClassBytes` charge of the whole class, or, for the one
/// `Code` shell of the one selected method, the `AttributeBytes` charge of its entry
/// (`6 + content length`) or the one `ResultItems` charge of the report.
pub open spec fn bytecode_budget_refused(bytes: Seq<u8>, selector: MethodSelector, before: crate::budget::UsageSnapshot,
    limits: crate::budget::Limits, e: Error) -> bool {
    ||| crate::budget::counted_refusal(e, CountedBudgetDimension::ClassBytes, limits.counted(CountedBudgetDimension::ClassBytes),
        before.counted(CountedBudgetDimension::ClassBytes), bytes.len() as u64)
    ||| measure_pool(bytes) matches Ok(layout) && exists|k: int, j: int|
        sole_method_named(bytes, layout, k, selector.name.0@, selector.descriptor.0@)
        && #[trigger] sole_code(bytes, layout, k, j)
        && (crate::budget::counted_refusal(e, CountedBudgetDimension::AttributeBytes,
            limits.counted(CountedBudgetDimension::AttributeBytes), before.counted(CountedBudgetDimension::AttributeBytes),
            (method_attribute_content(bytes, layout, k, j).length + 6) as u64)
        || crate::budget::counted_refusal(e, CountedBudgetDimension::ResultItems,
            limits.counted(CountedBudgetDimension::ResultItems), before.counted(CountedBudgetDimension::ResultItems), 1))
}

/// A refusal of the entry or report charge of the one selected `Code` shell is a counted refusal
/// of the bytecode read.
proof fn lemma_bytecode_budget_refused(bytes: Seq<u8>, layout: Seq<CpSlotLayout>, selector: MethodSelector, k: int, j: int,
    content: ByteSpan, before: crate::budget::UsageSnapshot, limits: crate::budget::Limits, e: Error)
    requires
        measure_pool(bytes) == Ok::<Seq<CpSlotLayout>, crate::cpool::PoolFail>(layout),
        sole_method_named(bytes, layout, k, selector.name.0@, selector.descriptor.0@),
        sole_code(bytes, layout, k, j),
        content == method_attribute_content(bytes, layout, k, j),
        crate::budget::counted_refusal(e, CountedBudgetDimension::AttributeBytes,
            limits.counted(CountedBudgetDimension::AttributeBytes), before.counted(CountedBudgetDimension::AttributeBytes),
            (content.length + 6) as u64)
        || crate::budget::counted_refusal(e, CountedBudgetDimension::ResultItems,
            limits.counted(CountedBudgetDimension::ResultItems), before.counted(CountedBudgetDimension::ResultItems), 1),
    ensures
        bytecode_budget_refused(bytes, selector, before, limits, e),
{
    let l = measure_pool(bytes)->Ok_0;
    assert(exists|k2: int, j2: int|
        sole_method_named(bytes, l, k2, selector.name.0@, selector.descriptor.0@)
        && #[trigger] sole_code(bytes, l, k2, j2)
        && (crate::budget::counted_refusal(e, CountedBudgetDimension::AttributeBytes,
            limits.counted(CountedBudgetDimension::AttributeBytes), before.counted(CountedBudgetDimension::AttributeBytes),
            (method_attribute_content(bytes, l, k2, j2).length + 6) as u64)
        || crate::budget::counted_refusal(e, CountedBudgetDimension::ResultItems,
            limits.counted(CountedBudgetDimension::ResultItems), before.counted(CountedBudgetDimension::ResultItems), 1))) by {
        assert(sole_code(bytes, l, k, j));
    }
}

/// A body read from the one `Code` shell of the one selected method is that method's body.
proof fn lemma_bytecode_witness(bytes: Seq<u8>, layout: Seq<CpSlotLayout>, selector: MethodSelector, k: int, j: int,
    content: ByteSpan, b: BytecodeInspection)
    requires
        measure_pool(bytes) == Ok::<Seq<CpSlotLayout>, crate::cpool::PoolFail>(layout),
        sole_method_named(bytes, layout, k, selector.name.0@, selector.descriptor.0@),
        sole_code(bytes, layout, k, j),
        content == method_attribute_content(bytes, layout, k, j),
        attribute_bytes(bytes, layout, k, j) == crate::header::span_bytes(bytes, content),
        crate::body::body_agrees(crate::header::span_bytes(bytes, content), content.start as int,
            b.max_stack, b.max_locals, b.code_span, b.instructions@, b.exception_handlers@, b.exception_handler_count,
            b.execution, b.stopped_at),
        match b.stopped_at {
            None => b.diagnostics@.len() == 0,
            Some(s) => b.diagnostics@.len() == 1 && b.diagnostics@[0].code@ == stop_code(s)
            && b.diagnostics@[0].severity == stop_severity(stop_code(s)),
        },
    ensures
        bytecode_of(bytes, selector, b),
{
    let l = measure_pool(bytes)->Ok_0;
    assert(exists|k2: int, j2: int|
        sole_method_named(bytes, l, k2, selector.name.0@, selector.descriptor.0@)
        && #[trigger] sole_code(bytes, l, k2, j2)
        && crate::body::body_agrees(attribute_bytes(bytes, l, k2, j2), method_attribute_content(bytes, l, k2, j2).start as int,
            b.max_stack, b.max_locals, b.code_span, b.instructions@, b.exception_handlers@, b.exception_handler_count,
            b.execution, b.stopped_at)) by {
        assert(sole_code(bytes, l, k, j));
    }
}

/// Inspects one exact method body: the class-shaped pre-checks and the strict version gate,
/// the one method whose raw name and descriptor match, its one `Code` attribute, then the
/// exception table and the instruction stream with their reliable prefixes.
#[verifier::rlimit(100)]
#[verifier::spinoff_prover]
pub fn inspect_method_bytecode(bytes: &[u8], selector: MethodSelector, budget: &mut Budget) -> (r: Result<BytecodeInspection>)
    ensures
        r matches Err(e) ==> crate::budget::honest_refusal(e, old(budget).limits_of()),
        final(budget).limits_of() == old(budget).limits_of(),
        !accepted(bytes@) ==> r is Err,
        r is Ok ==> !version_refuses(bytes@),
        r matches Ok(b) ==> bytecode_read(bytes@, selector, b) && readable(bytes@) && bytecode_of(bytes@, selector, b),
        r matches Err(e) ==> (readable(bytes@) && (class_decode(bytes@) matches Ok((major, minor, _))
            && strict_refusal(capability_of(major, minor)) is None)
            ==> is_stop(e) || e is BudgetExceeded || bytecode_refusal(bytes@, selector, e)),
        r matches Err(e) ==> (accepted(bytes@) && version_refuses(bytes@) ==> is_stop(e) || e is BudgetExceeded
            || version_refused(bytes@, e)),
        r matches Err(e) ==> (!accepted(bytes@) ==> is_stop(e) || e is BudgetExceeded || e is InvalidInput),
        r matches Err(e) ==> is_stop(e) || !(e is BudgetExceeded)
            || bytecode_budget_refused(bytes@, selector, old(budget).usage_of(), old(budget).limits_of(), e),
{
    let layout = match bytecode_gate(bytes, budget) {
        Ok(l) => l,
        Err(e) => {
            proof {
                if !is_stop(e) && e is BudgetExceeded {
                    assert(bytecode_budget_refused(bytes@, selector, old(budget).usage_of(), old(budget).limits_of(), e));
                }
            }
            return Err(e);
        },
    };
    let (methods, m, a) = locate_in_class(bytes, layout.as_slice(), selector.name.0.as_slice(),
        selector.descriptor.0.as_slice(), budget)?;
    let shell = &methods[m].attributes[a];
    let ghost content = shell.content_span;
    let r = bytecode_from_shell(bytes, layout.as_slice(), shell, selector, budget);
    proof {
        assert(attribute_bytes(bytes@, layout@, m as int, a as int) == crate::header::span_bytes(bytes@, content));
        if r is Err && !is_stop(r->Err_0) && r->Err_0 is BudgetExceeded {
            let u0 = old(budget).usage_of();
            crate::budget::lemma_with_counted(u0, CountedBudgetDimension::ClassBytes,
                (u0.counted(CountedBudgetDimension::ClassBytes) + bytes@.len()) as u64, CountedBudgetDimension::AttributeBytes);
            crate::budget::lemma_with_counted(u0, CountedBudgetDimension::ClassBytes,
                (u0.counted(CountedBudgetDimension::ClassBytes) + bytes@.len()) as u64, CountedBudgetDimension::ResultItems);
            lemma_bytecode_budget_refused(bytes@, layout@, selector, m as int, a as int, content, u0, old(budget).limits_of(),
                r->Err_0);
        }
        if r is Ok {
            lemma_bytecode_witness(bytes@, layout@, selector, m as int, a as int, content, r->Ok_0);
        }
        if r is Err && !is_stop(r->Err_0) && !(r->Err_0 is BudgetExceeded) {
            assert(code_refusal(bytes@, layout@, m as int, a as int, r->Err_0));
        }
    }
    r
}

/// The strict version gate refuses the version the bytes decode to.
pub open spec fn version_refuses(bytes: Seq<u8>) -> bool {
    class_decode(bytes) matches Ok((major, minor, _)) && strict_refusal(capability_of(major, minor)) is Some
}

/// `e` is the strict gate's refusal of the version the bytes decode to.
pub open spec fn version_refused(bytes: Seq<u8>, e: Error) -> bool {
    class_decode(bytes) matches Ok((major, minor, _)) && strict_refusal(capability_of(major, minor)) matches Some(x)
        && is_refusal(e, x)
}

/// The class-shaped pre-checks, the `ClassBytes` charge, the strict version gate and the
/// measured constant pool of a bytecode read.
fn bytecode_gate(bytes: &[u8], budget: &mut Budget) -> (r: Result<Vec<CpSlotLayout>>)
    ensures
        r matches Err(e) ==> crate::budget::honest_refusal(e, old(budget).limits_of()),
        final(budget).limits_of() == old(budget).limits_of(),
        !accepted(bytes@) ==> r is Err,
        r matches Ok(l) ==> accepted(bytes@) && wf_layout(bytes@, l@) && !version_refuses(bytes@)
            && measure_pool(bytes@) == Ok::<Seq<CpSlotLayout>, crate::cpool::PoolFail>(l@),
        r matches Err(e) ==> (accepted(bytes@) && version_refuses(bytes@) ==> is_stop(e) || e is BudgetExceeded
            || version_refused(bytes@, e)),
        r matches Err(e) ==> (readable(bytes@) && (class_decode(bytes@) matches Ok((major, minor, _))
            && strict_refusal(capability_of(major, minor)) is None) ==> is_stop(e) || e is BudgetExceeded),
        r matches Err(e) ==> (!accepted(bytes@) ==> is_stop(e) || e is BudgetExceeded || e is InvalidInput),
        r matches Err(e) ==> is_stop(e) || !(e is BudgetExceeded)
            || crate::budget::counted_refusal(e, CountedBudgetDimension::ClassBytes,
                old(budget).limits_of().counted(CountedBudgetDimension::ClassBytes),
                old(budget).usage_of().counted(CountedBudgetDimension::ClassBytes), bytes@.len() as u64),
        r is Ok ==> final(budget).usage_of() == old(budget).usage_of().with_counted(CountedBudgetDimension::ClassBytes,
            (old(budget).usage_of().counted(CountedBudgetDimension::ClassBytes) + bytes@.len()) as u64),
{
    budget.poll()?;
    budget.charge(CountedBudgetDimension::ClassBytes, bytes.len() as u64)?;
    let shape = precheck(bytes, budget)?;
    let capability = version_capability(shape.major, shape.minor);
    enforce_strict_version_gate(&capability)?;
    pool_layout(bytes, budget)
}

/// The body of the one `Code` shell of a selected method: one `AttributeBytes` charge of the
/// entry's whole length, one `ResultItems` charge, then the exception table and the
/// instruction stream with their reliable prefixes.
#[verifier::rlimit(100)]
#[verifier::spinoff_prover]
fn bytecode_from_shell(bytes: &[u8], layout: &[CpSlotLayout], shell: &AttributeShell, selector: MethodSelector,
    budget: &mut Budget) -> (r: Result<BytecodeInspection>)
    requires
        wf_layout(bytes@, layout@),
        shell_matches(shell.span, shell.content_span),
        span_inside(bytes@, shell.content_span),
    ensures
        r matches Err(e) ==> crate::budget::honest_refusal(e, old(budget).limits_of()),
        final(budget).limits_of() == old(budget).limits_of(),
        r matches Ok(b) ==> b.selector == selector && b.verification == VerificationStatus::NotPerformed
            && (b.execution is Complete <==> b.stopped_at is None)
            && crate::bytecode::prefix_end(b.instructions@) <= b.code_span.length
            && (b.execution is Complete ==> crate::bytecode::prefix_end(b.instructions@) == b.code_span.length
                && b.exception_handlers@.len() == b.exception_handler_count)
            && (b.stopped_at matches Some(BytecodeStop::Instructions { bci, .. }) ==> bci == crate::bytecode::prefix_end(b.instructions@))
            && (b.stopped_at matches Some(BytecodeStop::ExceptionHandlers { ordinal, .. }) ==> ordinal == b.exception_handlers@.len()
                && b.instructions@.len() == 0)
            && crate::body::body_agrees(crate::header::span_bytes(bytes@, shell.content_span), shell.content_span.start as int,
                b.max_stack, b.max_locals, b.code_span, b.instructions@, b.exception_handlers@, b.exception_handler_count,
                b.execution, b.stopped_at)
            && match b.stopped_at {
                None => b.diagnostics@.len() == 0,
                Some(s) => b.diagnostics@.len() == 1 && b.diagnostics@[0].code@ == stop_code(s)
            && b.diagnostics@[0].severity == stop_severity(stop_code(s)),
            },
        r matches Err(e) ==> is_stop(e) || !(e is BudgetExceeded)
            || crate::budget::counted_refusal(e, CountedBudgetDimension::AttributeBytes,
                old(budget).limits_of().counted(CountedBudgetDimension::AttributeBytes),
                old(budget).usage_of().counted(CountedBudgetDimension::AttributeBytes), (shell.content_span.length + 6) as u64)
            || crate::budget::counted_refusal(e, CountedBudgetDimension::ResultItems,
                old(budget).limits_of().counted(CountedBudgetDimension::ResultItems),
                old(budget).usage_of().counted(CountedBudgetDimension::ResultItems), 1),
        r matches Err(e) ==> is_stop(e) || e is BudgetExceeded
            || (!crate::body::layout_fits(crate::header::span_bytes(bytes@, shell.content_span))
                && (is_invalid(e, "classfile_decode"@) || is_invalid(e, "classfile_code_out_of_bounds"@)
                || is_invalid(e, "classfile_span_overflow"@))),
{
    let n = bytes.len();
    let content = crate::header::attribute_slice(bytes, &shell.span, &shell.content_span)?;
    let shell_length = crate::header::attribute_shell_length(&shell.content_span)?;
    budget.charge(CountedBudgetDimension::AttributeBytes, shell_length)?;
    let code_layout = match read_code_layout(content) {
        Ok(l) => l,
        Err(e) => {
            return Err(e);
        },
    };
    let code_span = ByteSpan::new(shell.content_span.start + 8, code_layout.code_length as u64);
    budget.charge(CountedBudgetDimension::ResultItems, 1)?;
    let run = decode_body(content, &code_layout, code_span.start, bytes, layout, budget, true);
    let BodyRun { instructions, operands, handlers, stop } = run;
    match stop {
        None => Ok(BytecodeInspection {
            selector,
            max_stack: code_layout.max_stack,
            max_locals: code_layout.max_locals,
            code_span,
            instructions,
            exception_handlers: handlers,
            exception_handler_count: code_layout.handler_count as u32,
            execution: ExecutionReport::Complete { usage: budget.usage() },
            diagnostics: Vec::new(),
            verification: VerificationStatus::NotPerformed,
            stopped_at: None,
        }),
        Some((position, failure)) => {
            let (execution, code, severity, message) = stop_report(&failure, &position, budget.usage());
            let stopped_at = bytecode_stop(&code_span, position, code.as_str())?;
            let mut diagnostics: Vec<Diagnostic> = Vec::new();
            diagnostics.push(Diagnostic { code, severity, message, provenance: None });
            Ok(BytecodeInspection {
                selector,
                max_stack: code_layout.max_stack,
                max_locals: code_layout.max_locals,
                code_span,
                instructions,
                exception_handlers: handlers,
                exception_handler_count: code_layout.handler_count as u32,
                execution,
                diagnostics,
                verification: VerificationStatus::NotPerformed,
                stopped_at: Some(stopped_at),
            })
        },
    }
}

/// The class decodes to its last byte, its constant pool measures, and the declaration
/// structure after it reads.
pub open spec fn structure_readable(bytes: Seq<u8>) -> bool {
    &&& class_decode(bytes) matches Ok((_, _, size)) && size == bytes.len()
    &&& measure_pool(bytes) matches Ok(layout) && structure_ok(bytes, layout)
}

/// The header declares a `Code` shell whose content is this span.
pub open spec fn header_code_shell(method: MemberHeader, content: ByteSpan) -> bool {
    exists|i: int| 0 <= i < method.attributes@.len() && #[trigger] crate::attributes::is_code_shell(method.attributes@, i)
        && method.attributes@[i].content_span == content
}

/// What the facts of the method a header names state: the one method of the class with the
/// header's raw name and descriptor, whose one `Code` attribute is a shell of the header, and the
/// body read from that attribute's content.
pub open spec fn code_facts_of(bytes: Seq<u8>, method: MemberHeader, f: crate::bytecode::MethodCodeView) -> bool {
    measure_pool(bytes) matches Ok(layout) && exists|k: int, j: int|
        sole_method_named(bytes, layout, k, method.name.raw_bytes(), method.descriptor.raw_bytes())
        && #[trigger] sole_code(bytes, layout, k, j)
        && header_code_shell(method, method_attribute_content(bytes, layout, k, j))
        && crate::body::body_agrees(attribute_bytes(bytes, layout, k, j), method_attribute_content(bytes, layout, k, j).start as int,
            f.max_stack, f.max_locals, f.code_span, f.instructions, f.exception_handlers, f.exception_handler_count,
            f.execution, f.stopped_at)
        && crate::body::operands_decoded(crate::body::code_in(attribute_bytes(bytes, layout, k, j)), f.instructions, bytes, layout,
            f.operands)
}

/// Each operand record of a method's facts carries the constant-pool index of its own
/// instruction: the two lists are read from the same bytes of the same instruction.
pub proof fn law_operands_keep_pool_index(bytes: Seq<u8>, method: MemberHeader, f: crate::bytecode::MethodCodeView)
    requires
        code_facts_of(bytes, method, f),
    ensures
        forall|k: int| 0 <= k < f.instructions.len() && k < f.operands.len()
            ==> (#[trigger] f.operands[k]).constant_pool_index == f.instructions[k].constant_pool_index,
{
    let layout = measure_pool(bytes)->Ok_0;
    let (k0, j0) = choose|k: int, j: int|
        sole_method_named(bytes, layout, k, method.name.raw_bytes(), method.descriptor.raw_bytes())
        && #[trigger] sole_code(bytes, layout, k, j)
        && header_code_shell(method, method_attribute_content(bytes, layout, k, j))
        && crate::body::body_agrees(attribute_bytes(bytes, layout, k, j), method_attribute_content(bytes, layout, k, j).start as int,
            f.max_stack, f.max_locals, f.code_span, f.instructions, f.exception_handlers, f.exception_handler_count,
            f.execution, f.stopped_at)
        && crate::body::operands_decoded(crate::body::code_in(attribute_bytes(bytes, layout, k, j)), f.instructions, bytes, layout,
            f.operands);
    let c = attribute_bytes(bytes, layout, k0, j0);
    let code = crate::body::code_in(c);
    assert forall|k: int| 0 <= k < f.instructions.len() && k < f.operands.len()
        implies (#[trigger] f.operands[k]).constant_pool_index == f.instructions[k].constant_pool_index by {
        assert(crate::body::fact_of(code, method_attribute_content(bytes, layout, k0, j0).start + 8, f.instructions[k]));
        assert(crate::instruction::operands_agree(code, f.instructions[k].bci as int, f.instructions[k].width as int, bytes, layout,
            f.operands[k]));
    }
}

/// The value JVMS 6.5 gives a constant-pushing opcode: `iconst_m1` to `iconst_5` push the ints
/// -1 to 5, `lconst_0` and `lconst_1` the longs 0 and 1, `fconst_0` to `fconst_2` the floats
/// 0.0, 1.0 and 2.0, `dconst_0` and `dconst_1` the doubles 0.0 and 1.0 (floats and doubles by
/// their IEEE 754 bits).
pub open spec fn jvms_constant(op: u8) -> Option<crate::bytecode::ImmediateValue> {
    if op == 0x02 { Some(crate::bytecode::ImmediateValue::Int(-1i32)) }
    else if op == 0x03 { Some(crate::bytecode::ImmediateValue::Int(0)) }
    else if op == 0x04 { Some(crate::bytecode::ImmediateValue::Int(1)) }
    else if op == 0x05 { Some(crate::bytecode::ImmediateValue::Int(2)) }
    else if op == 0x06 { Some(crate::bytecode::ImmediateValue::Int(3)) }
    else if op == 0x07 { Some(crate::bytecode::ImmediateValue::Int(4)) }
    else if op == 0x08 { Some(crate::bytecode::ImmediateValue::Int(5)) }
    else if op == 0x09 { Some(crate::bytecode::ImmediateValue::Long(0)) }
    else if op == 0x0a { Some(crate::bytecode::ImmediateValue::Long(1)) }
    else if op == 0x0b { Some(crate::bytecode::ImmediateValue::Float(0x0000_0000)) }
    else if op == 0x0c { Some(crate::bytecode::ImmediateValue::Float(0x3f80_0000)) }
    else if op == 0x0d { Some(crate::bytecode::ImmediateValue::Float(0x4000_0000)) }
    else if op == 0x0e { Some(crate::bytecode::ImmediateValue::Double(0x0000_0000_0000_0000)) }
    else if op == 0x0f { Some(crate::bytecode::ImmediateValue::Double(0x3ff0_0000_0000_0000)) }
    else { None }
}

/// Every constant-pushing instruction of a method's facts carries, as its immediate, the value
/// JVMS 6.5 gives its opcode.
pub proof fn law_constant_opcodes_push_their_values(bytes: Seq<u8>, method: MemberHeader, f: crate::bytecode::MethodCodeView)
    requires
        code_facts_of(bytes, method, f),
    ensures
        forall|k: int| 0 <= k < f.instructions.len() && k < f.operands.len() && 0x02 <= f.instructions[k].opcode <= 0x0f
            ==> (#[trigger] f.operands[k]).immediate == jvms_constant(f.instructions[k].opcode),
{
    let layout = measure_pool(bytes)->Ok_0;
    let (k0, j0) = choose|k: int, j: int|
        sole_method_named(bytes, layout, k, method.name.raw_bytes(), method.descriptor.raw_bytes())
        && #[trigger] sole_code(bytes, layout, k, j)
        && header_code_shell(method, method_attribute_content(bytes, layout, k, j))
        && crate::body::body_agrees(attribute_bytes(bytes, layout, k, j), method_attribute_content(bytes, layout, k, j).start as int,
            f.max_stack, f.max_locals, f.code_span, f.instructions, f.exception_handlers, f.exception_handler_count,
            f.execution, f.stopped_at)
        && crate::body::operands_decoded(crate::body::code_in(attribute_bytes(bytes, layout, k, j)), f.instructions, bytes, layout,
            f.operands);
    let c = attribute_bytes(bytes, layout, k0, j0);
    let code = crate::body::code_in(c);
    assert forall|k: int| 0 <= k < f.instructions.len() && k < f.operands.len() && 0x02 <= f.instructions[k].opcode <= 0x0f
        implies (#[trigger] f.operands[k]).immediate == jvms_constant(f.instructions[k].opcode) by {
        assert(crate::body::fact_of(code, method_attribute_content(bytes, layout, k0, j0).start + 8, f.instructions[k]));
        assert(crate::instruction::operands_agree(code, f.instructions[k].bci as int, f.instructions[k].width as int, bytes, layout,
            f.operands[k]));
    }
}

/// Why a read of the facts of the method a header names can refuse a class whose structure
/// reads: the selection refuses it, the `Code` attribute found is not a shell of the header, or
/// its fixed fields and tables do not fit it.
pub open spec fn code_facts_refusal(bytes: Seq<u8>, method: MemberHeader, e: Error) -> bool {
    let name = method.name.raw_bytes();
    let descriptor = method.descriptor.raw_bytes();
    measure_pool(bytes) matches Ok(layout) && (selection_refusal(bytes, layout, name, descriptor, e)
        || exists|k: int, j: int| sole_method_named(bytes, layout, k, name, descriptor) && #[trigger] sole_code(bytes, layout, k, j)
            && ((is_invalid(e, "classfile_method_header_mismatch"@)
                && !header_code_shell(method, method_attribute_content(bytes, layout, k, j)))
            || code_refusal(bytes, layout, k, j, e)))
}

/// The bill of the facts of the method a header names: one `AttributeBytes` charge of the
/// whole `Code` entry (`6 + content length`), one `CodeBytes` charge per instruction width
/// returned, and nothing else.
pub open spec fn code_facts_billed(bytes: Seq<u8>, method: MemberHeader, before: crate::budget::UsageSnapshot,
    after: crate::budget::UsageSnapshot, f: crate::bytecode::MethodCodeView) -> bool {
    measure_pool(bytes) matches Ok(layout) && exists|k: int, j: int|
        sole_method_named(bytes, layout, k, method.name.raw_bytes(), method.descriptor.raw_bytes())
        && #[trigger] sole_code(bytes, layout, k, j)
        && after == crate::body::billed(before.with_counted(CountedBudgetDimension::AttributeBytes,
            (before.counted(CountedBudgetDimension::AttributeBytes) + method_attribute_content(bytes, layout, k, j).length + 6) as u64),
            crate::bytecode::prefix_end(f.instructions), 0)
}

/// `e` is the one counted refusal the facts of the method a header names can meet: the
/// `AttributeBytes` charge of its whole `Code` entry (`6 + content length`), on top of the usage
/// `before`, under `limits`.
pub open spec fn code_entry_refused(bytes: Seq<u8>, method: MemberHeader, before: crate::budget::UsageSnapshot,
    limits: crate::budget::Limits, e: Error) -> bool {
    measure_pool(bytes) matches Ok(layout) && exists|k: int, j: int|
        sole_method_named(bytes, layout, k, method.name.raw_bytes(), method.descriptor.raw_bytes())
        && #[trigger] sole_code(bytes, layout, k, j)
        && crate::budget::counted_refusal(e, CountedBudgetDimension::AttributeBytes,
            limits.counted(CountedBudgetDimension::AttributeBytes), before.counted(CountedBudgetDimension::AttributeBytes),
            (method_attribute_content(bytes, layout, k, j).length + 6) as u64)
}

/// A refusal of the `Code` entry of the one selected method is a refusal of that method's entry.
proof fn lemma_code_entry_refused(bytes: Seq<u8>, layout: Seq<CpSlotLayout>, method: MemberHeader, k: int, j: int,
    content: ByteSpan, before: crate::budget::UsageSnapshot, limits: crate::budget::Limits, e: Error)
    requires
        measure_pool(bytes) == Ok::<Seq<CpSlotLayout>, crate::cpool::PoolFail>(layout),
        sole_method_named(bytes, layout, k, method.name.raw_bytes(), method.descriptor.raw_bytes()),
        sole_code(bytes, layout, k, j),
        content == method_attribute_content(bytes, layout, k, j),
        crate::budget::counted_refusal(e, CountedBudgetDimension::AttributeBytes,
            limits.counted(CountedBudgetDimension::AttributeBytes), before.counted(CountedBudgetDimension::AttributeBytes),
            (content.length + 6) as u64),
    ensures
        code_entry_refused(bytes, method, before, limits, e),
{
    let l = measure_pool(bytes)->Ok_0;
    assert(exists|k2: int, j2: int|
        sole_method_named(bytes, l, k2, method.name.raw_bytes(), method.descriptor.raw_bytes())
        && #[trigger] sole_code(bytes, l, k2, j2)
        && crate::budget::counted_refusal(e, CountedBudgetDimension::AttributeBytes,
            limits.counted(CountedBudgetDimension::AttributeBytes), before.counted(CountedBudgetDimension::AttributeBytes),
            (method_attribute_content(bytes, l, k2, j2).length + 6) as u64)) by {
        assert(sole_code(bytes, l, k, j));
    }
}

/// The bill of facts read from the one `Code` shell of the one selected method.
proof fn lemma_code_facts_billed(bytes: Seq<u8>, layout: Seq<CpSlotLayout>, method: MemberHeader, k: int, j: int,
    content: ByteSpan, before: crate::budget::UsageSnapshot, after: crate::budget::UsageSnapshot, f: crate::bytecode::MethodCodeView)
    requires
        measure_pool(bytes) == Ok::<Seq<CpSlotLayout>, crate::cpool::PoolFail>(layout),
        sole_method_named(bytes, layout, k, method.name.raw_bytes(), method.descriptor.raw_bytes()),
        sole_code(bytes, layout, k, j),
        content == method_attribute_content(bytes, layout, k, j),
        after == crate::body::billed(before.with_counted(CountedBudgetDimension::AttributeBytes,
            (before.counted(CountedBudgetDimension::AttributeBytes) + content.length + 6) as u64),
            crate::bytecode::prefix_end(f.instructions), 0),
    ensures
        code_facts_billed(bytes, method, before, after, f),
{
    let l = measure_pool(bytes)->Ok_0;
    assert(exists|k2: int, j2: int|
        sole_method_named(bytes, l, k2, method.name.raw_bytes(), method.descriptor.raw_bytes())
        && #[trigger] sole_code(bytes, l, k2, j2)
        && after == crate::body::billed(before.with_counted(CountedBudgetDimension::AttributeBytes,
            (before.counted(CountedBudgetDimension::AttributeBytes) + method_attribute_content(bytes, l, k2, j2).length + 6) as u64),
            crate::bytecode::prefix_end(f.instructions), 0)) by {
        assert(sole_code(bytes, l, k, j));
    }
}

/// Facts read from the one `Code` shell of the one selected method are that method's facts.
proof fn lemma_code_facts_witness(bytes: Seq<u8>, layout: Seq<CpSlotLayout>, method: MemberHeader, k: int, j: int,
    content: ByteSpan, f: crate::bytecode::MethodCodeView)
    requires
        measure_pool(bytes) == Ok::<Seq<CpSlotLayout>, crate::cpool::PoolFail>(layout),
        sole_method_named(bytes, layout, k, method.name.raw_bytes(), method.descriptor.raw_bytes()),
        sole_code(bytes, layout, k, j),
        content == method_attribute_content(bytes, layout, k, j),
        attribute_bytes(bytes, layout, k, j) == crate::header::span_bytes(bytes, content),
        header_code_shell(method, content),
        crate::body::body_agrees(crate::header::span_bytes(bytes, content), content.start as int,
            f.max_stack, f.max_locals, f.code_span, f.instructions, f.exception_handlers, f.exception_handler_count,
            f.execution, f.stopped_at),
        crate::body::operands_decoded(crate::body::code_in(crate::header::span_bytes(bytes, content)), f.instructions, bytes,
            layout, f.operands),
    ensures
        code_facts_of(bytes, method, f),
{
    assert(header_code_shell(method, method_attribute_content(bytes, layout, k, j)));
    assert(crate::body::body_agrees(attribute_bytes(bytes, layout, k, j), method_attribute_content(bytes, layout, k, j).start as int,
            f.max_stack, f.max_locals, f.code_span, f.instructions, f.exception_handlers, f.exception_handler_count,
            f.execution, f.stopped_at));
    assert(crate::body::operands_decoded(crate::body::code_in(attribute_bytes(bytes, layout, k, j)), f.instructions, bytes, layout,
            f.operands));
    let l = measure_pool(bytes)->Ok_0;
    assert(exists|k2: int, j2: int|
        sole_method_named(bytes, l, k2, method.name.raw_bytes(), method.descriptor.raw_bytes())
        && #[trigger] sole_code(bytes, l, k2, j2)
        && header_code_shell(method, method_attribute_content(bytes, l, k2, j2))
        && crate::body::body_agrees(attribute_bytes(bytes, l, k2, j2), method_attribute_content(bytes, l, k2, j2).start as int,
            f.max_stack, f.max_locals, f.code_span, f.instructions, f.exception_handlers, f.exception_handler_count,
            f.execution, f.stopped_at)
        && crate::body::operands_decoded(crate::body::code_in(attribute_bytes(bytes, l, k2, j2)), f.instructions, bytes, l,
            f.operands)) by {
        assert(sole_code(bytes, l, k, j));
    }
}

/// Decodes the `Code` attribute of the method a member header describes, as reusable facts:
/// one `AttributeBytes` charge for the entry and one `CodeBytes` charge per instruction. A
/// body that stops returns its reliable prefix with where and why it stopped.
#[verifier::rlimit(100)]
#[verifier::spinoff_prover]
pub fn method_code_facts(bytes: &[u8], method: &MemberHeader, budget: &mut Budget) -> (r: Result<MethodCodeFacts>)
    ensures
        r matches Err(e) ==> crate::budget::honest_refusal(e, old(budget).limits_of()),
        final(budget).limits_of() == old(budget).limits_of(),
        final(budget).usage_of().counted(CountedBudgetDimension::ClassBytes)
            == old(budget).usage_of().counted(CountedBudgetDimension::ClassBytes),
        final(budget).usage_of().counted(CountedBudgetDimension::ResultItems)
            == old(budget).usage_of().counted(CountedBudgetDimension::ResultItems),
        r matches Ok(f) ==> code_facts_billed(bytes@, *method, old(budget).usage_of(), final(budget).usage_of(), f@),
        r matches Err(e) ==> is_stop(e) || !(e is BudgetExceeded)
            || code_entry_refused(bytes@, *method, old(budget).usage_of(), old(budget).limits_of(), e),
        !(class_decode(bytes@) matches Ok((_, _, size)) && size == bytes@.len()) ==> r is Err,
        r matches Ok(f) ==> f@.instructions.len() == f@.operands.len()
            && (f@.execution is Complete <==> f@.stopped_at is None)
            && crate::bytecode::prefix_end(f@.instructions) <= f@.code_span.length
            && (f@.execution is Complete ==> crate::bytecode::prefix_end(f@.instructions) == f@.code_span.length)
            && (f@.stopped_at matches Some(BytecodeStop::Instructions { bci, .. }) ==> bci == crate::bytecode::prefix_end(f@.instructions))
            && (f@.stopped_at is Some ==> f@.debug is Unstated)
            && code_facts_of(bytes@, *method, f@),
        r matches Err(e) ==> (structure_readable(bytes@) ==> is_stop(e) || e is BudgetExceeded
            || code_facts_refusal(bytes@, *method, e)),
{
    let layout = decoded_layout(bytes, budget)?;
    let (methods, m, a) = locate_in_class(bytes, layout.as_slice(), method.name.raw().0.as_slice(),
        method.descriptor.raw().0.as_slice(), budget)?;
    let shell = &methods[m].attributes[a];
    proof {
        assert(attribute_bytes(bytes@, layout@, m as int, a as int) == crate::header::span_bytes(bytes@, shell.content_span));
    }
    let content = match code_entry(bytes, shell, method, budget) {
        Ok(c) => c,
        Err(e) => {
            proof {
                assert(sole_code(bytes@, layout@, m as int, a as int));
                assert(shell.content_span == method_attribute_content(bytes@, layout@, m as int, a as int));
                if !is_stop(e) && e is BudgetExceeded {
                    lemma_code_entry_refused(bytes@, layout@, *method, m as int, a as int, shell.content_span,
                        old(budget).usage_of(), old(budget).limits_of(), e);
                }
            }
            return Err(e);
        },
    };
    let r = code_facts_in(bytes, layout.as_slice(), content, &shell.content_span, budget);
    proof {
        assert(sole_code(bytes@, layout@, m as int, a as int));
        assert(shell.content_span == method_attribute_content(bytes@, layout@, m as int, a as int));
        let u0 = old(budget).usage_of();
        let u1 = u0.with_counted(CountedBudgetDimension::AttributeBytes,
            (u0.counted(CountedBudgetDimension::AttributeBytes) + shell.content_span.length + 6) as u64);
        crate::budget::lemma_with_counted(u0, CountedBudgetDimension::AttributeBytes,
            (u0.counted(CountedBudgetDimension::AttributeBytes) + shell.content_span.length + 6) as u64, CountedBudgetDimension::ClassBytes);
        crate::budget::lemma_with_counted(u0, CountedBudgetDimension::AttributeBytes,
            (u0.counted(CountedBudgetDimension::AttributeBytes) + shell.content_span.length + 6) as u64, CountedBudgetDimension::ResultItems);
        if r is Ok {
            let end = crate::bytecode::prefix_end(r->Ok_0@.instructions);
            let u2 = u1.with_counted(CountedBudgetDimension::CodeBytes, (u1.counted(CountedBudgetDimension::CodeBytes) + end) as u64);
            crate::budget::lemma_with_counted(u1, CountedBudgetDimension::CodeBytes,
                (u1.counted(CountedBudgetDimension::CodeBytes) + end) as u64, CountedBudgetDimension::ClassBytes);
            crate::budget::lemma_with_counted(u1, CountedBudgetDimension::CodeBytes,
                (u1.counted(CountedBudgetDimension::CodeBytes) + end) as u64, CountedBudgetDimension::ResultItems);
            crate::budget::lemma_with_counted(u2, CountedBudgetDimension::ResultItems,
                (u2.counted(CountedBudgetDimension::ResultItems) + 0) as u64, CountedBudgetDimension::ClassBytes);
            crate::budget::lemma_with_counted(u2, CountedBudgetDimension::ResultItems,
                (u2.counted(CountedBudgetDimension::ResultItems) + 0) as u64, CountedBudgetDimension::ResultItems);
            lemma_code_facts_witness(bytes@, layout@, *method, m as int, a as int, shell.content_span, r->Ok_0@);
            lemma_code_facts_billed(bytes@, layout@, *method, m as int, a as int, shell.content_span,
                old(budget).usage_of(), budget.usage_of(), r->Ok_0@);
        }
    }
    r
}

/// The measured constant pool of bytes that decode to their last byte.
fn decoded_layout(bytes: &[u8], budget: &Budget) -> (r: Result<Vec<CpSlotLayout>>)
    ensures
        r matches Err(e) ==> crate::budget::honest_refusal(e, budget.limits_of()),
        r matches Ok(l) ==> (class_decode(bytes@) matches Ok((_, _, size)) && size == bytes@.len())
            && wf_layout(bytes@, l@) && measure_pool(bytes@) == Ok::<Seq<CpSlotLayout>, crate::cpool::PoolFail>(l@),
        !(class_decode(bytes@) matches Ok((_, _, size)) && size == bytes@.len()) ==> r is Err,
        r matches Err(e) ==> is_stop(e) || !structure_readable(bytes@),
        r matches Err(e) ==> is_stop(e) || !(e is BudgetExceeded),
{
    budget.poll()?;
    let shape = match decode_class(bytes) {
        Ok(s) => s,
        Err(f) => return Err(map_decode_error(&f)),
    };
    if shape.size != bytes.len() {
        return Err(Error::invalid_input("classfile_trailing_bytes", "class structure has trailing bytes"));
    }
    pool_layout(bytes, budget)
}

/// The content of the `Code` attribute `shell` of a class, billed: the header must declare the
/// shell, and the entry's whole length (`6 + content length`) is one `AttributeBytes` charge.
fn code_entry<'a>(bytes: &'a [u8], shell: &AttributeShell, method: &MemberHeader, budget: &mut Budget) -> (r: Result<&'a [u8]>)
    requires
        shell_matches(shell.span, shell.content_span),
        span_inside(bytes@, shell.content_span),
    ensures
        r matches Err(e) ==> crate::budget::honest_refusal(e, old(budget).limits_of()),
        final(budget).limits_of() == old(budget).limits_of(),
        r is Err ==> final(budget).usage_of() == old(budget).usage_of(),
        r matches Ok(c) ==> c@ == crate::header::span_bytes(bytes@, shell.content_span) && header_code_shell(*method, shell.content_span)
            && final(budget).usage_of() == old(budget).usage_of().with_counted(CountedBudgetDimension::AttributeBytes,
                (old(budget).usage_of().counted(CountedBudgetDimension::AttributeBytes) + shell.content_span.length + 6) as u64),
        r matches Err(e) ==> is_stop(e)
            || (is_invalid(e, "classfile_method_header_mismatch"@) && !header_code_shell(*method, shell.content_span))
            || crate::budget::counted_refusal(e, CountedBudgetDimension::AttributeBytes,
                old(budget).limits_of().counted(CountedBudgetDimension::AttributeBytes),
                old(budget).usage_of().counted(CountedBudgetDimension::AttributeBytes), (shell.content_span.length + 6) as u64),
{
    let n = bytes.len();
    if !member_has_code_shell(method, &shell.content_span) {
        return Err(Error::invalid_input("classfile_method_header_mismatch",
            "the Code attribute of this method does not match the member header's shells"));
    }
    let content = crate::header::attribute_slice(bytes, &shell.span, &shell.content_span)?;
    let shell_length = crate::header::attribute_shell_length(&shell.content_span)?;
    budget.charge(CountedBudgetDimension::AttributeBytes, shell_length)?;
    Ok(content)
}

/// The facts of one `Code` content of a class, found at `content_span`: its fixed fields and
/// tables must fit it, and its body is decoded with one `CodeBytes` charge per instruction.
#[verifier::rlimit(100)]
fn code_facts_in(bytes: &[u8], layout: &[CpSlotLayout], content: &[u8], content_span: &ByteSpan, budget: &mut Budget)
    -> (r: Result<MethodCodeFacts>)
    requires
        wf_layout(bytes@, layout@),
        span_inside(bytes@, *content_span),
        content@ == crate::header::span_bytes(bytes@, *content_span),
    ensures
        r matches Err(e) ==> crate::budget::honest_refusal(e, old(budget).limits_of()),
        final(budget).limits_of() == old(budget).limits_of(),
        r is Err ==> final(budget).usage_of() == old(budget).usage_of(),
        r matches Ok(f) ==> final(budget).usage_of() == crate::body::billed(old(budget).usage_of(),
            crate::bytecode::prefix_end(f@.instructions), 0),
        r matches Ok(f) ==> f@.instructions.len() == f@.operands.len()
            && (f@.execution is Complete <==> f@.stopped_at is None)
            && crate::bytecode::prefix_end(f@.instructions) <= f@.code_span.length
            && (f@.execution is Complete ==> crate::bytecode::prefix_end(f@.instructions) == f@.code_span.length)
            && (f@.stopped_at matches Some(BytecodeStop::Instructions { bci, .. }) ==> bci == crate::bytecode::prefix_end(f@.instructions))
            && (f@.stopped_at is Some ==> f@.debug is Unstated)
            && crate::body::body_agrees(content@, content_span.start as int,
                f@.max_stack, f@.max_locals, f@.code_span, f@.instructions, f@.exception_handlers, f@.exception_handler_count,
                f@.execution, f@.stopped_at)
            && crate::body::operands_decoded(crate::body::code_in(content@), f@.instructions, bytes@, layout@, f@.operands),
        r matches Err(e) ==> !crate::body::layout_fits(content@)
            && (is_invalid(e, "classfile_decode"@) || is_invalid(e, "classfile_code_out_of_bounds"@)
            || is_invalid(e, "classfile_span_overflow"@)),
{
    let n = bytes.len();
    let code_layout = read_code_layout(content)?;
    let code_span = ByteSpan::new(content_span.start + 8, code_layout.code_length as u64);
    let pool = crate::cpool::utf8_pool(bytes, layout);
    let debug = local_debug_table(content, &code_layout, pool.as_slice());
    let run = decode_body(content, &code_layout, code_span.start, bytes, layout, budget, false);
    let BodyRun { instructions, operands, handlers, stop } = run;
    match stop {
        None => Ok(MethodCodeFacts::assemble(code_layout.max_stack, code_layout.max_locals, code_span, instructions, operands,
            handlers, code_layout.handler_count as u32, ExecutionReport::Complete { usage: budget.usage() }, None, debug)),
        Some((position, failure)) => {
            let (execution, code, _severity, _message) = stop_report(&failure, &position, budget.usage());
            let stopped_at = bytecode_stop(&code_span, position, code.as_str())?;
            Ok(MethodCodeFacts::assemble(code_layout.max_stack, code_layout.max_locals, code_span, instructions, operands,
                handlers, code_layout.handler_count as u32, execution, Some(stopped_at), LocalDebugTable::Unstated))
        },
    }
}

/// The opcodes of the instructions decoded from `bci` on, in order, up to the end of the code or
/// the first instruction that does not decode.
pub open spec fn opcodes_from(code: Seq<u8>, bci: int) -> Seq<u8>
    decreases code.len() - bci,
{
    if 0 <= bci < code.len() {
        match step_at(code, bci) {
            Step::Width(w) => if w >= 1 {
                seq![code[bci]] + opcodes_from(code, bci + w)
            } else {
                Seq::empty()
            },
            _ => Seq::empty(),
        }
    } else {
        Seq::empty()
    }
}

/// Every instruction from `bci` to the end of the code decodes.
pub open spec fn decodes_from(code: Seq<u8>, bci: int) -> bool
    decreases code.len() - bci,
{
    if 0 <= bci < code.len() {
        match step_at(code, bci) {
            Step::Width(w) => w >= 1 && decodes_from(code, bci + w),
            _ => false,
        }
    } else {
        bci == code.len()
    }
}

/// The opcodes one method's attribute shells hold from shell `i` on: each `Code` shell's decoded
/// instructions in order, ending at a `Code` shell whose layout does not read or whose code does
/// not decode to its end.
pub open spec fn shell_opcodes(bytes: Seq<u8>, shells: Seq<AttributeShell>, i: int) -> Seq<u8>
    decreases shells.len() - i,
{
    if i < 0 || i >= shells.len() {
        Seq::empty()
    } else if shells[i].name.raw_bytes() != crate::names::code_name() {
        shell_opcodes(bytes, shells, i + 1)
    } else if !(shell_matches(shells[i].span, shells[i].content_span) && span_inside(bytes, shells[i].content_span)) {
        Seq::empty()
    } else {
        let c = crate::header::span_bytes(bytes, shells[i].content_span);
        if !crate::body::layout_fits(c) {
            Seq::empty()
        } else {
            let code = c.subrange(8, 8 + be32(c, 4));
            opcodes_from(code, 0) + if decodes_from(code, 0) {
                shell_opcodes(bytes, shells, i + 1)
            } else {
                Seq::empty()
            }
        }
    }
}

/// The opcodes of one code array, decoded from its start, and whether it decoded to its end.
fn code_opcodes(code: &[u8], budget: &Budget) -> (r: Result<(Vec<u8>, bool)>)
    requires
        code@.len() <= u32::MAX,
    ensures
        r matches Err(e) ==> crate::budget::honest_refusal(e, budget.limits_of()),
        r matches Ok((ops, complete)) ==> ops@ == opcodes_from(code@, 0) && complete == decodes_from(code@, 0),
        r matches Err(e) ==> is_stop(e),
{
    let no_class: Vec<u8> = Vec::new();
    let no_slots: Vec<CpSlotLayout> = Vec::new();
    let mut out: Vec<u8> = Vec::new();
    let mut bci: usize = 0;
    while bci < code.len()
        invariant
            bci <= code@.len(),
            code@.len() <= u32::MAX,
            out@ + opcodes_from(code@, bci as int) == opcodes_from(code@, 0),
            decodes_from(code@, bci as int) == decodes_from(code@, 0),
            wf_layout(no_class@, no_slots@),
        decreases code@.len() - bci,
    {
        budget.poll()?;
        match decode_instruction(code, bci, no_class.as_slice(), no_slots.as_slice()) {
            Decoded::Instruction { width, .. } => {
                proof {
                    crate::instruction::lemma_step_fits(code@, bci as int);
                    assert(out@.push(code@[bci as int]) + opcodes_from(code@, bci + width) =~= out@ + opcodes_from(code@, bci as int));
                }
                out.push(code[bci]);
                bci = bci + width as usize;
            },
            _ => {
                proof {
                    assert(opcodes_from(code@, bci as int) =~= Seq::<u8>::empty());
                    assert(out@ =~= out@ + opcodes_from(code@, bci as int));
                }
                return Ok((out, false));
            },
        }
    }
    proof {
        assert(opcodes_from(code@, bci as int) =~= Seq::<u8>::empty());
        assert(out@ =~= out@ + opcodes_from(code@, bci as int));
    }
    Ok((out, true))
}

/// The opcodes of every `Code` shell of one method, in shell order, with the stopping rule of
/// [`shell_opcodes`]; each code array read is charged as `CodeBytes`.
fn method_opcodes(bytes: &[u8], shells: &[AttributeShell], budget: &mut Budget) -> (r: Result<Vec<u8>>)
    ensures
        r matches Err(e) ==> crate::budget::honest_refusal(e, old(budget).limits_of()),
        final(budget).limits_of() == old(budget).limits_of(),
        r matches Ok(ops) ==> ops@ == shell_opcodes(bytes@, shells@, 0),
        r matches Err(e) ==> is_stop(e) || is_budget(e, CountedBudgetDimension::CodeBytes.dim()),
{
    let mut ops: Vec<u8> = Vec::new();
    let mut i: usize = 0;
    while i < shells.len()
        invariant
            i <= shells@.len(),
            ops@ + shell_opcodes(bytes@, shells@, i as int) == shell_opcodes(bytes@, shells@, 0),
            budget.limits_of() == old(budget).limits_of(),
        decreases shells@.len() - i,
    {
        budget.poll()?;
        let shell = &shells[i];
        if !crate::names::is_code(shell.name.raw().0.as_slice()) {
            i = i + 1;
            continue;
        }
        let content = match crate::header::attribute_slice(bytes, &shell.span, &shell.content_span) {
            Ok(c) => c,
            Err(_) => {
                assert(ops@ =~= ops@ + shell_opcodes(bytes@, shells@, i as int));
                return Ok(ops);
            },
        };
        let code_layout = match read_code_layout(content) {
            Ok(l) => l,
            Err(_) => {
                assert(ops@ =~= ops@ + shell_opcodes(bytes@, shells@, i as int));
                return Ok(ops);
            },
        };
        budget.charge(CountedBudgetDimension::CodeBytes, code_layout.code_length as u64)?;
        let code = vstd::slice::slice_subrange(content, 8, 8 + code_layout.code_length as usize);
        let (found, complete) = code_opcodes(code, budget)?;
        let ghost before = ops@;
        let mut k: usize = 0;
        while k < found.len()
            invariant
                k <= found@.len(),
                ops@ == before + found@.take(k as int),
            decreases found@.len() - k,
        {
            ops.push(found[k]);
            k = k + 1;
            assert(found@.take(k as int) =~= found@.take(k - 1).push(found@[k - 1]));
        }
        assert(found@.take(k as int) =~= found@);
        if !complete {
            assert(ops@ =~= before + shell_opcodes(bytes@, shells@, i as int));
            assert(ops@ =~= ops@ + Seq::<u8>::empty());
            return Ok(ops);
        }
        assert(before + shell_opcodes(bytes@, shells@, i as int) =~= ops@ + shell_opcodes(bytes@, shells@, i + 1));
        i = i + 1;
    }
    assert(ops@ =~= ops@ + shell_opcodes(bytes@, shells@, i as int));
    Ok(ops)
}

/// Every instruction opcode of every method body in one class, one list per method in
/// declaration order, decoded by the instruction rules the bytecode read uses.
///
/// A class whose declaration structure does not read states no body at all, and a method's list
/// ends at its first `Code` shell whose layout does not read or whose code does not decode to its
/// end, keeping the opcodes before it; neither is an error. Every code array read is charged as
/// `CodeBytes`; the class structure is not charged again.
pub fn method_body_opcodes(bytes: &[u8], budget: &mut Budget) -> (r: Result<Vec<Vec<u8>>>)
    ensures
        r matches Err(e) ==> crate::budget::honest_refusal(e, old(budget).limits_of()),
        final(budget).limits_of() == old(budget).limits_of(),
        r matches Err(e) ==> is_stop(e) || e is BudgetExceeded,
        r matches Ok(v) ==> if readable(bytes@) {
            measure_pool(bytes@) matches Ok(layout) && exists|methods: Seq<MemberHeader>|
                #[trigger] members_are(bytes@, layout, methods_at(bytes@, layout), methods)
                && v@.len() == methods.len()
                && forall|m: int| 0 <= m < v@.len() ==> (#[trigger] v@[m])@ == shell_opcodes(bytes@, methods[m].attributes@, 0)
        } else {
            v@.len() == 0
        },
{
    budget.poll()?;
    let empty: Vec<Vec<u8>> = Vec::new();
    if let Err(e) = precheck(bytes, budget) {
        return match e {
            Error::Cancelled { .. } | Error::BudgetExceeded { .. } => Err(e),
            _ => Ok(empty),
        };
    }
    let layout = match pool_layout(bytes, budget) {
        Ok(l) => l,
        Err(e) => {
            return match e {
                Error::Cancelled { .. } | Error::BudgetExceeded { .. } => Err(e),
                _ => Ok(empty),
            };
        },
    };
    let structure = match read_structure(bytes, layout.as_slice(), budget, Billing::Nothing) {
        Ok(s) => s,
        Err(e) => {
            return match e {
                Error::Cancelled { .. } | Error::BudgetExceeded { .. } => Err(e),
                _ => Ok(empty),
            };
        },
    };
    let mut bodies: Vec<Vec<u8>> = Vec::new();
    let mut m: usize = 0;
    while m < structure.methods.len()
        invariant
            m <= structure.methods@.len(),
            bodies@.len() == m,
            forall|k: int| 0 <= k < m ==> (#[trigger] bodies@[k])@ == shell_opcodes(bytes@, structure.methods@[k].attributes@, 0),
            budget.limits_of() == old(budget).limits_of(),
        decreases structure.methods@.len() - m,
    {
        let ops = method_opcodes(bytes, structure.methods[m].attributes.as_slice(), budget)?;
        bodies.push(ops);
        m = m + 1;
    }
    proof {
        assert(members_are(bytes@, layout@, methods_at(bytes@, layout@), structure.methods@));
    }
    Ok(bodies)
}

/// What a class declares itself to be: its version, access flags and name.
#[derive(Clone, Debug, PartialEq, Eq)]
pub struct MinimalHeaderFacts {
    pub major_version: u16,
    pub minor_version: u16,
    pub access_flags: u16,
    pub this_class: JvmString,
}

/// The bytes pass the pre-checks, their constant pool measures, and the class-information fields
/// after it read up to the name of the class.
pub open spec fn minimal_readable(bytes: Seq<u8>) -> bool {
    &&& accepted(bytes)
    &&& measure_pool(bytes) matches Ok(layout) && pool_end(layout) + 4 <= bytes.len()
        && class_name_ok(bytes, layout, be16(bytes, pool_end(layout) + 2))
}

/// `h` states the access flags and the class name the bytes hold after their measured pool.
pub open spec fn minimal_declared(bytes: Seq<u8>, h: MinimalHeaderFacts) -> bool {
    measure_pool(bytes) matches Ok(layout) && h.access_flags == be16(bytes, pool_end(layout))
        && names_class(bytes, layout, be16(bytes, pool_end(layout) + 2), h.this_class)
}

/// The version, access flags and name of a class, behind the same acceptance checks every read
/// runs; the class bytes are charged as `ClassBytes`.
pub fn probe_minimal_header(bytes: &[u8], budget: &mut Budget) -> (r: Result<MinimalHeaderFacts>)
    ensures
        r matches Err(e) ==> crate::budget::honest_refusal(e, old(budget).limits_of()),
        final(budget).limits_of() == old(budget).limits_of(),
        r matches Ok(h) ==> accepted(bytes@) && h.minor_version == be16(bytes@, 4) && h.major_version == be16(bytes@, 6)
            && minimal_declared(bytes@, h),
        !accepted(bytes@) ==> r is Err,
        r matches Err(e) ==> is_class_read_error(e) || is_budget(e, CountedBudgetDimension::ClassBytes.dim()),
        r matches Err(e) ==> (minimal_readable(bytes@) ==> is_stop(e) || e is BudgetExceeded),
{
    budget.poll()?;
    budget.charge(CountedBudgetDimension::ClassBytes, bytes.len() as u64)?;
    let shape = precheck(bytes, budget)?;
    let layout = pool_layout(bytes, budget)?;
    let start: usize = if layout.len() == 0 {
        10
    } else {
        let last = &layout[layout.len() - 1];
        assert(crate::cpool::wf_slot(bytes@, layout@[layout@.len() - 1]));
        last.start + last.length
    };
    assert(start == pool_end(layout@));
    let access_flags = field_u16(bytes, start, "class information")?;
    let this_index = field_u16(bytes, start + 2, "class information")?;
    let this_class = class_string(bytes, layout.as_slice(), this_index)?;
    Ok(MinimalHeaderFacts {
        major_version: shape.major,
        minor_version: shape.minor,
        access_flags,
        this_class,
    })
}

} // verus!
