//! The constant pool as facts: measured slot by slot with an explicit tag-width table, and
//! resolved into typed entries whose names are the raw bytes the class file holds.

use crate::budget::Budget;
use crate::bytes::{be16, be32, be64, cp_guard_eoi, cp_guard_overflow, is_eoi, is_offset_overflow, read_u16, read_u32, read_u64};
use crate::error::{Error, Result, is_invalid, is_stop};
use crate::model::{ByteSpan, JvmBytes};
use crate::text::prefixed_number;
use vstd::prelude::*;

verus! {


pub const CP_TAG_UTF8: u8 = 1;
pub const CP_TAG_INTEGER: u8 = 3;
pub const CP_TAG_FLOAT: u8 = 4;
pub const CP_TAG_LONG: u8 = 5;
pub const CP_TAG_DOUBLE: u8 = 6;
pub const CP_TAG_CLASS: u8 = 7;
pub const CP_TAG_STRING: u8 = 8;
pub const CP_TAG_FIELD_REF: u8 = 9;
pub const CP_TAG_METHOD_REF: u8 = 10;
pub const CP_TAG_INTERFACE_METHOD_REF: u8 = 11;
pub const CP_TAG_NAME_AND_TYPE: u8 = 12;
pub const CP_TAG_METHOD_HANDLE: u8 = 15;
pub const CP_TAG_METHOD_TYPE: u8 = 16;
pub const CP_TAG_DYNAMIC: u8 = 17;
pub const CP_TAG_INVOKE_DYNAMIC: u8 = 18;
pub const CP_TAG_MODULE: u8 = 19;
pub const CP_TAG_PACKAGE: u8 = 20;

/// A recorded constant-pool index whose entry is resolved by the consumer.
#[derive(Clone, Copy, Debug, Eq, Hash, Ord, PartialEq, PartialOrd)]
pub struct CpIndexOf(pub u16);

/// One measured constant-pool slot: enough to slice the entry and to read its payload.
#[derive(Clone, Copy, Debug, PartialEq, Eq)]
pub struct CpSlotLayout {
    pub index: u16,
    pub start: usize,
    pub length: usize,
    pub tag: u8,
    pub payload_start: usize,
}

/// Why the constant pool could not be measured.
pub enum PoolFail {
    /// A read ran past the end of the bytes at this position.
    Eoi(nat),
    /// An offset or a slot number left its address space.
    Overflow,
    /// A tag with no known width, at this slot.
    UnknownTag(u8, nat),
    /// The walk did not end on the declared slot count.
    Slots(u16, nat),
}

/// The payload width of a tag whose width does not depend on the bytes.
pub open spec fn fixed_payload(tag: u8) -> Option<nat> {
    if tag == 3 || tag == 4 {
        Some(4)
    } else if tag == 5 || tag == 6 {
        Some(8)
    } else if tag == 7 || tag == 8 || tag == 16 || tag == 19 || tag == 20 {
        Some(2)
    } else if tag == 9 || tag == 10 || tag == 11 || tag == 12 || tag == 17 || tag == 18 {
        Some(4)
    } else if tag == 15 {
        Some(3)
    } else {
        None
    }
}

/// The payload width of the entry whose tag is at `offset`, when it can be measured.
pub open spec fn payload_width(bytes: Seq<u8>, slot: nat, offset: nat) -> core::result::Result<nat, PoolFail> {
    let tag = bytes[offset as int];
    let ps = offset + 1;
    if tag == 1 {
        if ps + 2 > usize::MAX {
            Err(PoolFail::Overflow)
        } else if ps + 2 > bytes.len() {
            Err(PoolFail::Eoi(ps))
        } else {
            Ok((be16(bytes, ps as int) + 2) as nat)
        }
    } else {
        match fixed_payload(tag) {
            Some(w) => Ok(w),
            None => Err(PoolFail::UnknownTag(tag, slot)),
        }
    }
}

/// One step of the walk: the slot at `offset`, and the offset after it.
pub open spec fn measure_step(bytes: Seq<u8>, slot: nat, offset: nat) -> core::result::Result<(CpSlotLayout, nat), PoolFail> {
    if offset >= bytes.len() {
        Err(PoolFail::Eoi(offset))
    } else {
        match payload_width(bytes, slot, offset) {
            Err(f) => Err(f),
            Ok(payload) => {
                let end = offset + 1 + payload;
                if end > usize::MAX {
                    Err(PoolFail::Overflow)
                } else if end > bytes.len() {
                    Err(PoolFail::Eoi(offset))
                } else {
                    Ok((CpSlotLayout {
                        index: slot as u16,
                        start: offset as usize,
                        length: (end - offset) as usize,
                        tag: bytes[offset as int],
                        payload_start: (offset + 1) as usize,
                    }, end))
                }
            },
        }
    }
}

/// How many slots an entry of this tag takes.
pub open spec fn slot_width(tag: u8) -> nat {
    if tag == 5 || tag == 6 {
        2
    } else {
        1
    }
}

/// The slots from `slot` on, starting at `offset`, until the declared count.
pub open spec fn measure_from(bytes: Seq<u8>, count: u16, slot: nat, offset: nat) -> core::result::Result<Seq<CpSlotLayout>, PoolFail>
    decreases count as int + 2 - slot,
{
    if slot >= count {
        if slot != count {
            Err(PoolFail::Slots(count, slot))
        } else {
            Ok(Seq::empty())
        }
    } else {
        match measure_step(bytes, slot, offset) {
            Err(f) => Err(f),
            Ok((layout, next)) => {
                let after = slot + slot_width(layout.tag);
                if after > 65535 {
                    Err(PoolFail::Overflow)
                } else {
                    match measure_from(bytes, count, after, next) {
                        Err(f) => Err(f),
                        Ok(rest) => Ok(seq![layout] + rest),
                    }
                }
            },
        }
    }
}

/// Whether the bytes start like a class file (magic and room for the pool count).
pub open spec fn has_class_prefix(bytes: Seq<u8>) -> bool {
    bytes.len() >= 10 && bytes[0] == 0xca && bytes[1] == 0xfe && bytes[2] == 0xba && bytes[3]
        == 0xbe
}

/// The measured constant pool. Bytes that do not start like a class file, and a pool count of
/// zero, measure to no slot: the class decoder owns those diagnostics.
pub open spec fn measure_pool(bytes: Seq<u8>) -> core::result::Result<Seq<CpSlotLayout>, PoolFail> {
    if !has_class_prefix(bytes) {
        Ok(Seq::empty())
    } else if be16(bytes, 8) == 0 {
        Ok(Seq::empty())
    } else {
        measure_from(bytes, be16(bytes, 8), 1, 10)
    }
}

pub open spec fn prepend_slots(prefix: Seq<CpSlotLayout>, rest: core::result::Result<Seq<CpSlotLayout>, PoolFail>) -> core::result::Result<Seq<CpSlotLayout>, PoolFail> {
    match rest {
        Err(f) => Err(f),
        Ok(r) => Ok(prefix + r),
    }
}

/// The error a measuring failure is reported as.
pub open spec fn pool_error(e: Error, f: PoolFail) -> bool {
    match f {
        PoolFail::Eoi(p) => is_eoi(e, p),
        PoolFail::Overflow => is_offset_overflow(e),
        PoolFail::UnknownTag(_, _) => is_invalid(e, "classfile_unknown_constant_pool_tag"@),
        PoolFail::Slots(_, _) => is_invalid(e, "classfile_invalid_constant_pool_slots"@),
    }
}

/// A measured slot that lies inside the bytes and whose width is its tag's.
pub open spec fn wf_slot(bytes: Seq<u8>, s: CpSlotLayout) -> bool {
    &&& s.start + s.length <= bytes.len()
    &&& s.payload_start == s.start + 1
    &&& s.tag == bytes[s.start as int]
    &&& s.tag == 1 ==> s.payload_start + 2 <= bytes.len() && s.length == 3 + be16(bytes, s.payload_start as int)
    &&& s.tag != 1 ==> (fixed_payload(s.tag) matches Some(w) && s.length == 1 + w)
    &&& s.index >= 1
}

/// Slots in strictly increasing index order, each well formed.
pub open spec fn wf_layout(bytes: Seq<u8>, layout: Seq<CpSlotLayout>) -> bool {
    &&& forall|i: int| 0 <= i < layout.len() ==> wf_slot(bytes, #[trigger] layout[i])
    &&& forall|i: int, j: int| 0 <= i < j < layout.len() ==> layout[i].index < layout[j].index
}

proof fn lemma_measure_from_wf(bytes: Seq<u8>, count: u16, slot: nat, offset: nat)
    requires
        slot >= 1,
    ensures
        measure_from(bytes, count, slot, offset) matches Ok(s) ==> wf_layout(bytes, s) && (forall|i: int| 0 <= i < s.len() ==> #[trigger] s[i].index >= slot),
    decreases count as int + 2 - slot,
{
    if slot < count {
        match measure_step(bytes, slot, offset) {
            Err(_) => {},
            Ok((layout, next)) => {
                let after = slot + slot_width(layout.tag);
                if after <= 65535 {
                    lemma_measure_from_wf(bytes, count, after, next);
                    match measure_from(bytes, count, after, next) {
                        Err(_) => {},
                        Ok(rest) => {
                            let s = seq![layout] + rest;
                            assert(forall|i: int| 0 < i < s.len() ==> s[i] == rest[i - 1]);
                        },
                    }
                }
            },
        }
    }
}

/// The measured pool's slots are well formed.
pub proof fn lemma_measure_pool_wf(bytes: Seq<u8>)
    ensures
        measure_pool(bytes) matches Ok(s) ==> wf_layout(bytes, s),
{
    if has_class_prefix(bytes) && be16(bytes, 8) != 0 {
        lemma_measure_from_wf(bytes, be16(bytes, 8), 1, 10);
    }
}

/// Walks the constant pool with an explicit tag-width table (see [`measure_pool`]).
///
/// A tag this table cannot measure stops the walk (`classfile_unknown_constant_pool_tag`)
/// instead of guessing a width, and a walk that does not end on the declared count is
/// `classfile_invalid_constant_pool_slots`. The request is polled before every entry.
pub fn measure_constant_pool(bytes: &[u8], budget: &Budget) -> (r: Result<Vec<CpSlotLayout>>)
    ensures
        r matches Err(e) ==> crate::budget::honest_refusal(e, budget.limits_of()),
        r matches Ok(s) ==> measure_pool(bytes@) == Ok::<Seq<CpSlotLayout>, PoolFail>(s@),
        r matches Err(e) ==> is_stop(e) || (measure_pool(bytes@) matches Err(f) && pool_error(e, f)),
        measure_pool(bytes@) is Err ==> r is Err,
{
    let n = bytes.len();
    if n < 10 || bytes[0] != 0xca || bytes[1] != 0xfe || bytes[2] != 0xba || bytes[3] != 0xbe {
        return Ok(Vec::new());
    }
    let count = read_u16(bytes, 8)?;
    if count == 0 {
        return Ok(Vec::new());
    }
    let mut slots: Vec<CpSlotLayout> = Vec::new();
    let mut slot: u16 = 1;
    let mut offset: usize = 10;
    assert(slots@ + Seq::<CpSlotLayout>::empty() =~= slots@);
    while slot < count
        invariant
            n == bytes@.len(),
            has_class_prefix(bytes@),
            count == be16(bytes@, 8),
            count != 0,
            1 <= slot,
            offset <= n,
            measure_pool(bytes@) == prepend_slots(slots@, measure_from(bytes@, count, slot as nat, offset as nat)),
        decreases count as int + 2 - slot,
    {
        budget.poll()?;
        if offset >= n {
            return Err(cp_guard_eoi(offset));
        }
        let entry_start = offset;
        let tag = bytes[offset];
        let payload_start = offset + 1;
        let payload_length: usize;
        if tag == CP_TAG_UTF8 {
            let length = read_u16(bytes, payload_start)?;
            payload_length = length as usize + 2;
        } else if tag == 3 || tag == 4 {
            payload_length = 4;
        } else if tag == 5 || tag == 6 {
            payload_length = 8;
        } else if tag == 7 || tag == 8 || tag == 16 || tag == 19 || tag == 20 {
            payload_length = 2;
        } else if tag == 9 || tag == 10 || tag == 11 || tag == 12 || tag == 17 || tag == 18 {
            payload_length = 4;
        } else if tag == 15 {
            payload_length = 3;
        } else {
            return Err(unknown_tag_error(tag, slot));
        }
        assert(payload_width(bytes@, slot as nat, offset as nat) == Ok::<nat, PoolFail>(payload_length as nat));
        if payload_start > usize::MAX - payload_length {
            return Err(cp_guard_overflow());
        }
        let end = payload_start + payload_length;
        if end > n {
            return Err(cp_guard_eoi(entry_start));
        }
        let layout = CpSlotLayout {
            index: slot,
            start: entry_start,
            length: end - entry_start,
            tag,
            payload_start,
        };
        assert(measure_step(bytes@, slot as nat, offset as nat) == Ok::<(CpSlotLayout, nat), PoolFail>((layout, end as nat)));
        let width: u16 = if tag == CP_TAG_LONG || tag == CP_TAG_DOUBLE { 2 } else { 1 };
        if slot > 65535 - width {
            return Err(cp_guard_overflow());
        }
        let ghost before = slots@;
        slots.push(layout);
        proof {
            match measure_from(bytes@, count, (slot + width) as nat, end as nat) {
                Err(_) => {},
                Ok(rest) => {
                    assert(before + (seq![layout] + rest) =~= slots@ + rest);
                },
            }
        }
        offset = end;
        slot = slot + width;
    }
    if slot != count {
        return Err(Error::invalid_input_owned(
            "classfile_invalid_constant_pool_slots",
            prefixed_number("constant pool declares a slot count the walk did not end on: ", count as u64),
        ));
    }
    assert(slots@ + Seq::<CpSlotLayout>::empty() =~= slots@);
    Ok(slots)
}

fn unknown_tag_error(tag: u8, slot: u16) -> (e: Error)
    ensures
        is_invalid(e, "classfile_unknown_constant_pool_tag"@),
{
    let mut message = prefixed_number("constant-pool tag ", tag as u64);
    message.append(" at slot ");
    crate::text::push_decimal(&mut message, slot as u64);
    message.append(" has no known width, so sequential parsing stops here");
    Error::invalid_input_owned("classfile_unknown_constant_pool_tag", message)
}

} // verus!

verus! {

/// Payload of one constant-pool entry. Resolved values (`owner`, `name`, `descriptor`, …) are
/// the raw Modified UTF-8 bytes the class file holds, never text-decoded or normalised.
#[derive(Clone, Debug, Eq, PartialEq)]
pub enum CpEntryKind {
    Utf8 { bytes: JvmBytes },
    Integer { value: i32 },
    Float { bits: u32 },
    Long { value: i64 },
    Double { bits: u64 },
    Class { name_index: u16, name: JvmBytes },
    String { utf8_index: u16, value: JvmBytes },
    FieldRef { class_index: u16, name_and_type_index: u16, owner: JvmBytes, name: JvmBytes, descriptor: JvmBytes },
    MethodRef { class_index: u16, name_and_type_index: u16, owner: JvmBytes, name: JvmBytes, descriptor: JvmBytes },
    InterfaceMethodRef { class_index: u16, name_and_type_index: u16, owner: JvmBytes, name: JvmBytes, descriptor: JvmBytes },
    NameAndType { name_index: u16, descriptor_index: u16, name: JvmBytes, descriptor: JvmBytes },
    MethodHandle { reference_kind: u8, reference_index: u16 },
    MethodType { descriptor_index: u16, descriptor: JvmBytes },
    Dynamic { bootstrap_method_attr_index: u16, name_and_type_index: u16, name: JvmBytes, descriptor: JvmBytes },
    InvokeDynamic { bootstrap_method_attr_index: u16, name_and_type_index: u16, name: JvmBytes, descriptor: JvmBytes },
    Module { name_index: u16, name: JvmBytes },
    Package { name_index: u16, name: JvmBytes },
}

/// The value of a [`CpEntryKind`], with every byte string as a sequence.
pub enum CpKind {
    Utf8 { bytes: Seq<u8> },
    Integer { value: i32 },
    Float { bits: u32 },
    Long { value: i64 },
    Double { bits: u64 },
    Class { name_index: u16, name: Seq<u8> },
    String { utf8_index: u16, value: Seq<u8> },
    FieldRef { class_index: u16, name_and_type_index: u16, owner: Seq<u8>, name: Seq<u8>, descriptor: Seq<u8> },
    MethodRef { class_index: u16, name_and_type_index: u16, owner: Seq<u8>, name: Seq<u8>, descriptor: Seq<u8> },
    InterfaceMethodRef { class_index: u16, name_and_type_index: u16, owner: Seq<u8>, name: Seq<u8>, descriptor: Seq<u8> },
    NameAndType { name_index: u16, descriptor_index: u16, name: Seq<u8>, descriptor: Seq<u8> },
    MethodHandle { reference_kind: u8, reference_index: u16 },
    MethodType { descriptor_index: u16, descriptor: Seq<u8> },
    Dynamic { bootstrap_method_attr_index: u16, name_and_type_index: u16, name: Seq<u8>, descriptor: Seq<u8> },
    InvokeDynamic { bootstrap_method_attr_index: u16, name_and_type_index: u16, name: Seq<u8>, descriptor: Seq<u8> },
    Module { name_index: u16, name: Seq<u8> },
    Package { name_index: u16, name: Seq<u8> },
}

impl View for CpEntryKind {
    type V = CpKind;

    open spec fn view(&self) -> CpKind {
        match self {
            CpEntryKind::Utf8 { bytes } => CpKind::Utf8 { bytes: bytes.0@ },
            CpEntryKind::Integer { value } => CpKind::Integer { value: *value },
            CpEntryKind::Float { bits } => CpKind::Float { bits: *bits },
            CpEntryKind::Long { value } => CpKind::Long { value: *value },
            CpEntryKind::Double { bits } => CpKind::Double { bits: *bits },
            CpEntryKind::Class { name_index, name } => CpKind::Class { name_index: *name_index, name: name.0@ },
            CpEntryKind::String { utf8_index, value } => CpKind::String { utf8_index: *utf8_index, value: value.0@ },
            CpEntryKind::FieldRef { class_index, name_and_type_index, owner, name, descriptor } => CpKind::FieldRef {
                class_index: *class_index,
                name_and_type_index: *name_and_type_index,
                owner: owner.0@,
                name: name.0@,
                descriptor: descriptor.0@,
            },
            CpEntryKind::MethodRef { class_index, name_and_type_index, owner, name, descriptor } => CpKind::MethodRef {
                class_index: *class_index,
                name_and_type_index: *name_and_type_index,
                owner: owner.0@,
                name: name.0@,
                descriptor: descriptor.0@,
            },
            CpEntryKind::InterfaceMethodRef { class_index, name_and_type_index, owner, name, descriptor } => CpKind::InterfaceMethodRef {
                class_index: *class_index,
                name_and_type_index: *name_and_type_index,
                owner: owner.0@,
                name: name.0@,
                descriptor: descriptor.0@,
            },
            CpEntryKind::NameAndType { name_index, descriptor_index, name, descriptor } => CpKind::NameAndType {
                name_index: *name_index,
                descriptor_index: *descriptor_index,
                name: name.0@,
                descriptor: descriptor.0@,
            },
            CpEntryKind::MethodHandle { reference_kind, reference_index } => CpKind::MethodHandle {
                reference_kind: *reference_kind,
                reference_index: *reference_index,
            },
            CpEntryKind::MethodType { descriptor_index, descriptor } => CpKind::MethodType {
                descriptor_index: *descriptor_index,
                descriptor: descriptor.0@,
            },
            CpEntryKind::Dynamic { bootstrap_method_attr_index, name_and_type_index, name, descriptor } => CpKind::Dynamic {
                bootstrap_method_attr_index: *bootstrap_method_attr_index,
                name_and_type_index: *name_and_type_index,
                name: name.0@,
                descriptor: descriptor.0@,
            },
            CpEntryKind::InvokeDynamic { bootstrap_method_attr_index, name_and_type_index, name, descriptor } => CpKind::InvokeDynamic {
                bootstrap_method_attr_index: *bootstrap_method_attr_index,
                name_and_type_index: *name_and_type_index,
                name: name.0@,
                descriptor: descriptor.0@,
            },
            CpEntryKind::Module { name_index, name } => CpKind::Module { name_index: *name_index, name: name.0@ },
            CpEntryKind::Package { name_index, name } => CpKind::Package { name_index: *name_index, name: name.0@ },
        }
    }
}

/// One constant-pool entry with its class-file byte range.
#[derive(Clone, Debug, Eq, PartialEq)]
pub struct CpEntryFacts {
    /// 1-based constant-pool index, as used by instructions and attributes.
    pub index: u16,
    /// Byte range of the whole entry, tag byte plus payload, in class-file coordinates.
    pub span: ByteSpan,
    pub kind: CpEntryKind,
}

/// Why a measured entry could not be resolved.
pub enum ResolveFail {
    /// The index holds no entry.
    Index(u16),
    /// The index holds an entry of another tag.
    Tag(u16),
}

/// The error a resolution failure is reported as.
pub open spec fn resolve_error(e: Error, f: ResolveFail) -> bool {
    match f {
        ResolveFail::Index(_) => is_invalid(e, "classfile_invalid_constant_pool_index"@),
        ResolveFail::Tag(_) => is_invalid(e, "classfile_constant_pool_tag_mismatch"@),
    }
}

/// The slot of a measured layout that holds `index`.
pub open spec fn slot_at(layout: Seq<CpSlotLayout>, index: u16) -> Option<CpSlotLayout> {
    if index != 0 && exists|i: int| 0 <= i < layout.len() && #[trigger] layout[i].index == index {
        Some(layout[choose|i: int| 0 <= i < layout.len() && #[trigger] layout[i].index == index])
    } else {
        None
    }
}

/// The bytes of a `CONSTANT_Utf8` slot's payload.
pub open spec fn utf8_value(bytes: Seq<u8>, s: CpSlotLayout) -> Seq<u8> {
    bytes.subrange(s.payload_start + 2, s.payload_start + 2 + be16(bytes, s.payload_start as int))
}

pub open spec fn utf8_at(bytes: Seq<u8>, layout: Seq<CpSlotLayout>, index: u16) -> core::result::Result<Seq<u8>, ResolveFail> {
    match slot_at(layout, index) {
        None => Err(ResolveFail::Index(index)),
        Some(s) => if s.tag != 1 {
            Err(ResolveFail::Tag(index))
        } else {
            Ok(utf8_value(bytes, s))
        },
    }
}

pub open spec fn class_at(bytes: Seq<u8>, layout: Seq<CpSlotLayout>, index: u16) -> core::result::Result<Seq<u8>, ResolveFail> {
    match slot_at(layout, index) {
        None => Err(ResolveFail::Index(index)),
        Some(s) => if s.tag != 7 {
            Err(ResolveFail::Tag(index))
        } else {
            utf8_at(bytes, layout, be16(bytes, s.payload_start as int))
        },
    }
}

pub open spec fn name_and_type_at(bytes: Seq<u8>, layout: Seq<CpSlotLayout>, index: u16) -> core::result::Result<(Seq<u8>, Seq<u8>), ResolveFail> {
    match slot_at(layout, index) {
        None => Err(ResolveFail::Index(index)),
        Some(s) => if s.tag != 12 {
            Err(ResolveFail::Tag(index))
        } else {
            match utf8_at(bytes, layout, be16(bytes, s.payload_start as int)) {
                Err(f) => Err(f),
                Ok(name) => match utf8_at(bytes, layout, be16(bytes, s.payload_start + 2)) {
                    Err(f) => Err(f),
                    Ok(descriptor) => Ok((name, descriptor)),
                },
            }
        },
    }
}

/// A member reference: the owner's name first, then the name and type.
pub open spec fn member_ref_at(bytes: Seq<u8>, layout: Seq<CpSlotLayout>, s: CpSlotLayout) -> core::result::Result<(u16, u16, Seq<u8>, Seq<u8>, Seq<u8>), ResolveFail> {
    let class_index = be16(bytes, s.payload_start as int);
    let nat_index = be16(bytes, s.payload_start + 2);
    match class_at(bytes, layout, class_index) {
        Err(f) => Err(f),
        Ok(owner) => match name_and_type_at(bytes, layout, nat_index) {
            Err(f) => Err(f),
            Ok((name, descriptor)) => Ok((class_index, nat_index, owner, name, descriptor)),
        },
    }
}

/// The resolved value of one measured slot.
#[verifier::opaque]
pub open spec fn entry_kind(bytes: Seq<u8>, layout: Seq<CpSlotLayout>, s: CpSlotLayout) -> core::result::Result<CpKind, ResolveFail> {
    let ps = s.payload_start as int;
    if s.tag == 1 {
        Ok(CpKind::Utf8 { bytes: utf8_value(bytes, s) })
    } else if s.tag == 3 {
        Ok(CpKind::Integer { value: be32(bytes, ps) as i32 })
    } else if s.tag == 4 {
        Ok(CpKind::Float { bits: be32(bytes, ps) })
    } else if s.tag == 5 {
        Ok(CpKind::Long { value: be64(bytes, ps) as i64 })
    } else if s.tag == 6 {
        Ok(CpKind::Double { bits: be64(bytes, ps) })
    } else if s.tag == 7 {
        match utf8_at(bytes, layout, be16(bytes, ps)) {
            Err(f) => Err(f),
            Ok(name) => Ok(CpKind::Class { name_index: be16(bytes, ps), name }),
        }
    } else if s.tag == 8 {
        match utf8_at(bytes, layout, be16(bytes, ps)) {
            Err(f) => Err(f),
            Ok(value) => Ok(CpKind::String { utf8_index: be16(bytes, ps), value }),
        }
    } else if s.tag == 9 || s.tag == 10 || s.tag == 11 {
        match member_ref_at(bytes, layout, s) {
            Err(f) => Err(f),
            Ok((class_index, name_and_type_index, owner, name, descriptor)) => if s.tag == 9 {
                Ok(CpKind::FieldRef { class_index, name_and_type_index, owner, name, descriptor })
            } else if s.tag == 10 {
                Ok(CpKind::MethodRef { class_index, name_and_type_index, owner, name, descriptor })
            } else {
                Ok(CpKind::InterfaceMethodRef { class_index, name_and_type_index, owner, name, descriptor })
            },
        }
    } else if s.tag == 12 {
        match utf8_at(bytes, layout, be16(bytes, ps)) {
            Err(f) => Err(f),
            Ok(name) => match utf8_at(bytes, layout, be16(bytes, ps + 2)) {
                Err(f) => Err(f),
                Ok(descriptor) => Ok(CpKind::NameAndType {
                    name_index: be16(bytes, ps),
                    descriptor_index: be16(bytes, ps + 2),
                    name,
                    descriptor,
                }),
            },
        }
    } else if s.tag == 15 {
        Ok(CpKind::MethodHandle { reference_kind: bytes[ps], reference_index: be16(bytes, ps + 1) })
    } else if s.tag == 16 {
        match utf8_at(bytes, layout, be16(bytes, ps)) {
            Err(f) => Err(f),
            Ok(descriptor) => Ok(CpKind::MethodType { descriptor_index: be16(bytes, ps), descriptor }),
        }
    } else if s.tag == 17 || s.tag == 18 {
        match name_and_type_at(bytes, layout, be16(bytes, ps + 2)) {
            Err(f) => Err(f),
            Ok((name, descriptor)) => if s.tag == 17 {
                Ok(CpKind::Dynamic {
                    bootstrap_method_attr_index: be16(bytes, ps),
                    name_and_type_index: be16(bytes, ps + 2),
                    name,
                    descriptor,
                })
            } else {
                Ok(CpKind::InvokeDynamic {
                    bootstrap_method_attr_index: be16(bytes, ps),
                    name_and_type_index: be16(bytes, ps + 2),
                    name,
                    descriptor,
                })
            },
        }
    } else {
        match utf8_at(bytes, layout, be16(bytes, ps)) {
            Err(f) => Err(f),
            Ok(name) => if s.tag == 19 {
                Ok(CpKind::Module { name_index: be16(bytes, ps), name })
            } else {
                Ok(CpKind::Package { name_index: be16(bytes, ps), name })
            },
        }
    }
}

/// The facts of one slot, as a value.
pub open spec fn entry_facts_match(e: CpEntryFacts, s: CpSlotLayout, kind: CpKind) -> bool {
    &&& e.index == s.index
    &&& e.span == (ByteSpan { start: s.start as u64, length: s.length as u64 })
    &&& e.kind@ == kind
}

/// The first `n` slots resolved, in order, or the first failure.
pub open spec fn resolve_prefix(bytes: Seq<u8>, layout: Seq<CpSlotLayout>, n: nat) -> core::result::Result<Seq<CpKind>, ResolveFail>
    decreases n,
{
    if n == 0 {
        Ok(Seq::empty())
    } else {
        match resolve_prefix(bytes, layout, (n - 1) as nat) {
            Err(f) => Err(f),
            Ok(prefix) => match entry_kind(bytes, layout, layout[n - 1]) {
                Err(f) => Err(f),
                Ok(kind) => Ok(prefix.push(kind)),
            },
        }
    }
}

/// The resolved pool: every slot's kind, or the first slot that does not resolve.
pub open spec fn resolve_pool(bytes: Seq<u8>, layout: Seq<CpSlotLayout>) -> core::result::Result<Seq<CpKind>, ResolveFail> {
    resolve_prefix(bytes, layout, layout.len())
}

/// Finds the position of the slot holding `index` by binary search over the ordered layout.
pub fn find_slot(layout: &[CpSlotLayout], index: u16) -> (r: Option<usize>)
    requires
        forall|i: int, j: int| 0 <= i < j < layout@.len() ==> layout@[i].index < layout@[j].index,
    ensures
        r matches Some(p) ==> p < layout@.len() && layout@[p as int].index == index,
        r is None ==> forall|i: int| 0 <= i < layout@.len() ==> layout@[i].index != index,
{
    let mut low: usize = 0;
    let mut high: usize = layout.len();
    while low < high
        invariant
            low <= high <= layout@.len(),
            forall|i: int, j: int| 0 <= i < j < layout@.len() ==> layout@[i].index < layout@[j].index,
            forall|i: int| 0 <= i < low ==> layout@[i].index < index,
            forall|i: int| high <= i < layout@.len() ==> layout@[i].index > index,
        decreases high - low,
    {
        let mid = low + (high - low) / 2;
        let at = layout[mid].index;
        if at == index {
            return Some(mid);
        } else if at < index {
            low = mid + 1;
        } else {
            high = mid;
        }
    }
    None
}

proof fn lemma_slot_at(layout: Seq<CpSlotLayout>, index: u16, p: int)
    requires
        forall|i: int, j: int| 0 <= i < j < layout.len() ==> layout[i].index < layout[j].index,
        0 <= p < layout.len(),
        layout[p].index == index,
        index != 0,
    ensures
        slot_at(layout, index) == Some(layout[p]),
{
    let q = choose|i: int| 0 <= i < layout.len() && #[trigger] layout[i].index == index;
    assert(layout[p].index == index);
    if q < p {
        assert(layout[q].index < layout[p].index);
    } else if p < q {
        assert(layout[p].index < layout[q].index);
    }
}

pub fn cp_index_error(index: u16) -> (e: Error)
    ensures
        is_invalid(e, "classfile_invalid_constant_pool_index"@),
{
    let mut message = prefixed_number("constant-pool index ", index as u64);
    message.append(" does not hold an entry");
    Error::invalid_input_owned("classfile_invalid_constant_pool_index", message)
}

fn cp_tag_mismatch_error(required: &str, index: u16, actual: u8) -> (e: Error)
    ensures
        is_invalid(e, "classfile_constant_pool_tag_mismatch"@),
{
    let mut message = prefixed_number("constant-pool index ", index as u64);
    message.append(" holds tag ");
    crate::text::push_decimal(&mut message, actual as u64);
    message.append(", expected ");
    message.append(required);
    Error::invalid_input_owned("classfile_constant_pool_tag_mismatch", message)
}

/// The slot of a measured layout that holds `index`, if one does.
pub fn slot_of(layout: &[CpSlotLayout], index: u16) -> (r: Option<CpSlotLayout>)
    requires
        forall|i: int, j: int| 0 <= i < j < layout@.len() ==> layout@[i].index < layout@[j].index,
    ensures
        r == slot_at(layout@, index),
{
    match layout_entry(layout, index) {
        Ok(s) => Some(s),
        Err(_) => None,
    }
}

/// Finds the slot of `index` (`classfile_invalid_constant_pool_index` when none holds it).
fn layout_entry(layout: &[CpSlotLayout], index: u16) -> (r: Result<CpSlotLayout>)
    requires
        forall|i: int, j: int| 0 <= i < j < layout@.len() ==> layout@[i].index < layout@[j].index,
    ensures
        r matches Ok(s) ==> slot_at(layout@, index) == Some(s),
        r matches Err(e) ==> slot_at(layout@, index) is None && is_invalid(e, "classfile_invalid_constant_pool_index"@),
        slot_at(layout@, index) is None ==> r is Err,
{
    if index == 0 {
        return Err(cp_index_error(index));
    }
    match find_slot(layout, index) {
        Some(p) => {
            proof {
                lemma_slot_at(layout@, index, p as int);
            }
            Ok(layout[p])
        },
        None => Err(cp_index_error(index)),
    }
}

fn utf8_payload(bytes: &[u8], slot: &CpSlotLayout) -> (r: JvmBytes)
    requires
        wf_slot(bytes@, *slot),
        slot.tag == 1,
    ensures
        r.0@ == utf8_value(bytes@, *slot),
{
    let length = ((bytes[slot.payload_start] as u32) * 256 + bytes[slot.payload_start + 1] as u32) as usize;
    assert(length == be16(bytes@, slot.payload_start as int));
    let start = slot.payload_start + 2;
    let piece = vstd::slice::slice_subrange(bytes, start, start + length);
    JvmBytes(vstd::slice::slice_to_vec(piece))
}

fn u16_at(bytes: &[u8], at: usize) -> (v: u16)
    requires
        at + 2 <= bytes@.len(),
    ensures
        v == be16(bytes@, at as int),
{
    ((bytes[at] as u32) * 256 + bytes[at + 1] as u32) as u16
}

/// Resolves the `CONSTANT_Utf8` at `index`, or says why it does not resolve.
pub(crate) fn utf8_lookup(bytes: &[u8], layout: &[CpSlotLayout], index: u16) -> (r: core::result::Result<JvmBytes, ResolveFail>)
    requires
        wf_layout(bytes@, layout@),
    ensures
        match r {
            Ok(b) => utf8_at(bytes@, layout@, index) == Ok::<Seq<u8>, ResolveFail>(b.0@),
            Err(f) => utf8_at(bytes@, layout@, index) == Err::<Seq<u8>, ResolveFail>(f),
        },
{
    let slot = match layout_entry(layout, index) {
        Ok(s) => s,
        Err(_) => return Err(ResolveFail::Index(index)),
    };
    if slot.tag != CP_TAG_UTF8 {
        return Err(ResolveFail::Tag(index));
    }
    proof {
        let p = choose|i: int| 0 <= i < layout@.len() && #[trigger] layout@[i].index == index;
        assert(wf_slot(bytes@, layout@[p]));
    }
    Ok(utf8_payload(bytes, &slot))
}

/// Resolves the name of the `CONSTANT_Class` at `index`, or says why it does not resolve.
pub(crate) fn class_lookup(bytes: &[u8], layout: &[CpSlotLayout], index: u16) -> (r: core::result::Result<JvmBytes, ResolveFail>)
    requires
        wf_layout(bytes@, layout@),
    ensures
        match r {
            Ok(b) => class_at(bytes@, layout@, index) == Ok::<Seq<u8>, ResolveFail>(b.0@),
            Err(f) => class_at(bytes@, layout@, index) == Err::<Seq<u8>, ResolveFail>(f),
        },
{
    let slot = match layout_entry(layout, index) {
        Ok(s) => s,
        Err(_) => return Err(ResolveFail::Index(index)),
    };
    if slot.tag != CP_TAG_CLASS {
        return Err(ResolveFail::Tag(index));
    }
    proof {
        let p = choose|i: int| 0 <= i < layout@.len() && #[trigger] layout@[i].index == index;
        assert(wf_slot(bytes@, layout@[p]));
    }
    let name_index = u16_at(bytes, slot.payload_start);
    utf8_lookup(bytes, layout, name_index)
}

pub(crate) fn utf8_index(bytes: &[u8], layout: &[CpSlotLayout], index: u16) -> (r: Result<JvmBytes>)
    requires
        wf_layout(bytes@, layout@),
    ensures
        r matches Ok(b) ==> utf8_at(bytes@, layout@, index) == Ok::<Seq<u8>, ResolveFail>(b.0@),
        r matches Err(e) ==> (utf8_at(bytes@, layout@, index) matches Err(f) && resolve_error(e, f)),
        utf8_at(bytes@, layout@, index) is Err ==> r is Err,
{
    let slot = layout_entry(layout, index)?;
    if slot.tag != CP_TAG_UTF8 {
        return Err(cp_tag_mismatch_error("CONSTANT_Utf8", index, slot.tag));
    }
    proof {
        let p = choose|i: int| 0 <= i < layout@.len() && #[trigger] layout@[i].index == index;
        assert(wf_slot(bytes@, layout@[p]));
    }
    Ok(utf8_payload(bytes, &slot))
}

pub(crate) fn class_name(bytes: &[u8], layout: &[CpSlotLayout], index: u16) -> (r: Result<JvmBytes>)
    requires
        wf_layout(bytes@, layout@),
    ensures
        r matches Ok(b) ==> class_at(bytes@, layout@, index) == Ok::<Seq<u8>, ResolveFail>(b.0@),
        r matches Err(e) ==> (class_at(bytes@, layout@, index) matches Err(f) && resolve_error(e, f)),
        class_at(bytes@, layout@, index) is Err ==> r is Err,
{
    let slot = layout_entry(layout, index)?;
    if slot.tag != CP_TAG_CLASS {
        return Err(cp_tag_mismatch_error("CONSTANT_Class", index, slot.tag));
    }
    proof {
        let p = choose|i: int| 0 <= i < layout@.len() && #[trigger] layout@[i].index == index;
        assert(wf_slot(bytes@, layout@[p]));
    }
    let name_index = u16_at(bytes, slot.payload_start);
    utf8_index(bytes, layout, name_index)
}

fn name_and_type(bytes: &[u8], layout: &[CpSlotLayout], index: u16) -> (r: Result<(JvmBytes, JvmBytes)>)
    requires
        wf_layout(bytes@, layout@),
    ensures
        r matches Ok((n, d)) ==> name_and_type_at(bytes@, layout@, index) == Ok::<(Seq<u8>, Seq<u8>), ResolveFail>((n.0@, d.0@)),
        r matches Err(e) ==> (name_and_type_at(bytes@, layout@, index) matches Err(f) && resolve_error(e, f)),
        name_and_type_at(bytes@, layout@, index) is Err ==> r is Err,
{
    let slot = layout_entry(layout, index)?;
    if slot.tag != CP_TAG_NAME_AND_TYPE {
        return Err(cp_tag_mismatch_error("CONSTANT_NameAndType", index, slot.tag));
    }
    proof {
        let p = choose|i: int| 0 <= i < layout@.len() && #[trigger] layout@[i].index == index;
        assert(wf_slot(bytes@, layout@[p]));
    }
    let n = bytes.len();
    assert(slot.payload_start + 4 <= n);
    let name_index = u16_at(bytes, slot.payload_start);
    let descriptor_index = u16_at(bytes, slot.payload_start + 2);
    let name = utf8_index(bytes, layout, name_index)?;
    let descriptor = utf8_index(bytes, layout, descriptor_index)?;
    Ok((name, descriptor))
}


/// The kind of the measured slot `slot` (one that `layout` holds), resolved against the pool.
fn resolve_entry(bytes: &[u8], layout: &[CpSlotLayout], slot: &CpSlotLayout) -> (r: Result<CpEntryKind>)
    requires
        wf_layout(bytes@, layout@),
        wf_slot(bytes@, *slot),
    ensures
        r matches Ok(k) ==> entry_kind(bytes@, layout@, *slot) == Ok::<CpKind, ResolveFail>(k@),
        r matches Err(e) ==> (entry_kind(bytes@, layout@, *slot) matches Err(f) && resolve_error(e, f)),
        entry_kind(bytes@, layout@, *slot) is Err ==> r is Err,
{
    reveal(entry_kind);
    let n = bytes.len();
    let ps = slot.payload_start;
    let tag = slot.tag;
    assert(ps + slot.length <= n + 1);
    if tag == CP_TAG_UTF8 {
        Ok(CpEntryKind::Utf8 { bytes: utf8_payload(bytes, slot) })
    } else if tag == CP_TAG_INTEGER {
        let v = read_u32(bytes, ps)?;
        Ok(CpEntryKind::Integer { value: v as i32 })
    } else if tag == CP_TAG_FLOAT {
        let v = read_u32(bytes, ps)?;
        Ok(CpEntryKind::Float { bits: v })
    } else if tag == CP_TAG_LONG {
        let v = read_u64(bytes, ps)?;
        Ok(CpEntryKind::Long { value: v as i64 })
    } else if tag == CP_TAG_DOUBLE {
        let v = read_u64(bytes, ps)?;
        Ok(CpEntryKind::Double { bits: v })
    } else if tag == CP_TAG_CLASS {
        let name_index = u16_at(bytes, ps);
        let name = utf8_index(bytes, layout, name_index)?;
        Ok(CpEntryKind::Class { name_index, name })
    } else if tag == CP_TAG_STRING {
        let utf8_index_value = u16_at(bytes, ps);
        let value = utf8_index(bytes, layout, utf8_index_value)?;
        Ok(CpEntryKind::String { utf8_index: utf8_index_value, value })
    } else if tag == CP_TAG_FIELD_REF || tag == CP_TAG_METHOD_REF || tag == CP_TAG_INTERFACE_METHOD_REF {
        let class_index = u16_at(bytes, ps);
        let name_and_type_index = u16_at(bytes, ps + 2);
        let owner = class_name(bytes, layout, class_index)?;
        let (name, descriptor) = name_and_type(bytes, layout, name_and_type_index)?;
        if tag == CP_TAG_FIELD_REF {
            Ok(CpEntryKind::FieldRef { class_index, name_and_type_index, owner, name, descriptor })
        } else if tag == CP_TAG_METHOD_REF {
            Ok(CpEntryKind::MethodRef { class_index, name_and_type_index, owner, name, descriptor })
        } else {
            Ok(CpEntryKind::InterfaceMethodRef { class_index, name_and_type_index, owner, name, descriptor })
        }
    } else if tag == CP_TAG_NAME_AND_TYPE {
        let name_index = u16_at(bytes, ps);
        let descriptor_index = u16_at(bytes, ps + 2);
        let name = utf8_index(bytes, layout, name_index)?;
        let descriptor = utf8_index(bytes, layout, descriptor_index)?;
        Ok(CpEntryKind::NameAndType { name_index, descriptor_index, name, descriptor })
    } else if tag == CP_TAG_METHOD_HANDLE {
        let reference_kind = bytes[ps];
        let reference_index = u16_at(bytes, ps + 1);
        Ok(CpEntryKind::MethodHandle { reference_kind, reference_index })
    } else if tag == CP_TAG_METHOD_TYPE {
        let descriptor_index = u16_at(bytes, ps);
        let descriptor = utf8_index(bytes, layout, descriptor_index)?;
        Ok(CpEntryKind::MethodType { descriptor_index, descriptor })
    } else if tag == CP_TAG_DYNAMIC || tag == CP_TAG_INVOKE_DYNAMIC {
        let bootstrap_method_attr_index = u16_at(bytes, ps);
        let name_and_type_index = u16_at(bytes, ps + 2);
        let (name, descriptor) = name_and_type(bytes, layout, name_and_type_index)?;
        if tag == CP_TAG_DYNAMIC {
            Ok(CpEntryKind::Dynamic { bootstrap_method_attr_index, name_and_type_index, name, descriptor })
        } else {
            Ok(CpEntryKind::InvokeDynamic { bootstrap_method_attr_index, name_and_type_index, name, descriptor })
        }
    } else {
        let name_index = u16_at(bytes, ps);
        let name = utf8_index(bytes, layout, name_index)?;
        if tag == CP_TAG_MODULE {
            Ok(CpEntryKind::Module { name_index, name })
        } else {
            Ok(CpEntryKind::Package { name_index, name })
        }
    }
}

proof fn lemma_resolve_prefix_err(bytes: Seq<u8>, layout: Seq<CpSlotLayout>, n: nat)
    ensures
        forall|k: nat| k <= n && #[trigger] resolve_prefix(bytes, layout, k) is Err ==> resolve_prefix(bytes, layout, n) == resolve_prefix(bytes, layout, k),
    decreases n,
{
    if n > 0 {
        lemma_resolve_prefix_err(bytes, layout, (n - 1) as nat);
    }
}

/// Builds the resolved fact view of a measured layout: one entry per slot, in slot order, each
/// carrying its index and its class-file span. The request is polled before every entry.
pub fn resolve_constant_pool(bytes: &[u8], layout: &[CpSlotLayout], budget: &Budget) -> (r: Result<Vec<CpEntryFacts>>)
    requires
        wf_layout(bytes@, layout@),
    ensures
        r matches Err(e) ==> crate::budget::honest_refusal(e, budget.limits_of()),
        r matches Ok(v) ==> resolve_pool(bytes@, layout@) matches Ok(kinds) && v@.len() == layout@.len()
            && forall|i: int| 0 <= i < v@.len() ==> entry_facts_match(#[trigger] v@[i], layout@[i], kinds[i]),
        r matches Err(e) ==> is_stop(e) || (resolve_pool(bytes@, layout@) matches Err(f) && resolve_error(e, f)),
        resolve_pool(bytes@, layout@) is Err ==> r is Err,
{
    let mut entries: Vec<CpEntryFacts> = Vec::new();
    let mut i: usize = 0;
    proof {
        lemma_resolve_prefix_err(bytes@, layout@, layout@.len());
    }
    let ghost mut kinds: Seq<CpKind> = Seq::empty();
    while i < layout.len()
        invariant
            i <= layout@.len(),
            wf_layout(bytes@, layout@),
            resolve_prefix(bytes@, layout@, i as nat) == Ok::<Seq<CpKind>, ResolveFail>(kinds),
            entries@.len() == i,
            kinds.len() == i,
            forall|j: int| 0 <= j < i ==> entry_facts_match(#[trigger] entries@[j], layout@[j], kinds[j]),
            forall|k: nat| k <= layout@.len() && #[trigger] resolve_prefix(bytes@, layout@, k) is Err ==> resolve_pool(bytes@, layout@) == resolve_prefix(bytes@, layout@, k),
        decreases layout@.len() - i,
    {
        budget.poll()?;
        let slot = layout[i];
        assert(wf_slot(bytes@, layout@[i as int]));
        let kind = match resolve_entry(bytes, layout, &slot) {
            Ok(k) => k,
            Err(e) => {
                assert(resolve_prefix(bytes@, layout@, (i + 1) as nat) is Err);
                return Err(e);
            },
        };
        let facts = CpEntryFacts {
            index: slot.index,
            span: ByteSpan::new(slot.start as u64, slot.length as u64),
            kind,
        };
        entries.push(facts);
        proof {
            kinds = kinds.push(kind@);
        }
        i = i + 1;
    }
    Ok(entries)
}


/// Fact entries in strictly increasing index order, as [`resolve_constant_pool`] returns them.
pub open spec fn facts_sorted(pool: Seq<CpEntryFacts>) -> bool {
    forall|i: int, j: int| 0 <= i < j < pool.len() ==> pool[i].index < pool[j].index
}

/// The `CONSTANT_Utf8` slots among the first `n` slots of a layout, in order.
pub open spec fn utf8_slots(layout: Seq<CpSlotLayout>, n: int) -> Seq<CpSlotLayout>
    decreases n,
{
    if n <= 0 {
        Seq::empty()
    } else if layout[n - 1].tag == 1 {
        utf8_slots(layout, n - 1).push(layout[n - 1])
    } else {
        utf8_slots(layout, n - 1)
    }
}

/// The `CONSTANT_Utf8` entries of a measured pool, in index order; the other slots are not
/// resolved, so an unresolvable entry elsewhere in the pool leaves these readable.
#[verifier::rlimit(30)]
pub fn utf8_pool(bytes: &[u8], layout: &[CpSlotLayout]) -> (r: Vec<CpEntryFacts>)
    requires
        wf_layout(bytes@, layout@),
    ensures
        facts_sorted(r@),
        r@.len() == utf8_slots(layout@, layout@.len() as int).len(),
        forall|k: int| 0 <= k < r@.len() ==> entry_facts_match(#[trigger] r@[k], utf8_slots(layout@, layout@.len() as int)[k],
            CpKind::Utf8 { bytes: utf8_value(bytes@, utf8_slots(layout@, layout@.len() as int)[k]) }),
{
    let mut out: Vec<CpEntryFacts> = Vec::new();
    let mut i: usize = 0;
    while i < layout.len()
        invariant
            i <= layout@.len(),
            wf_layout(bytes@, layout@),
            facts_sorted(out@),
            out@.len() > 0 ==> i > 0 && out@.last().index <= layout@[i - 1].index,
            out@.len() == utf8_slots(layout@, i as int).len(),
            forall|k: int| 0 <= k < out@.len() ==> entry_facts_match(#[trigger] out@[k], utf8_slots(layout@, i as int)[k],
                CpKind::Utf8 { bytes: utf8_value(bytes@, utf8_slots(layout@, i as int)[k]) }),
        decreases layout@.len() - i,
    {
        let slot = layout[i];
        let ghost slots = utf8_slots(layout@, i as int);
        if slot.tag == 1 {
            let value = utf8_payload(bytes, &slot);
            let entry = CpEntryFacts {
                index: slot.index,
                span: ByteSpan::new(slot.start as u64, slot.length as u64),
                kind: CpEntryKind::Utf8 { bytes: value },
            };
            let ghost before = out@;
            out.push(entry);
            proof {
                assert(utf8_slots(layout@, i + 1) == slots.push(slot));
                assert forall|x: int, y: int| 0 <= x < y < out@.len() implies out@[x].index < out@[y].index by {
                    if y == out@.len() - 1 && x < before.len() {
                        assert(before[x].index <= before.last().index);
                    }
                }
                assert forall|k: int| 0 <= k < out@.len() implies entry_facts_match(#[trigger] out@[k], utf8_slots(layout@, i + 1)[k],
                    CpKind::Utf8 { bytes: utf8_value(bytes@, utf8_slots(layout@, i + 1)[k]) }) by {
                    if k < before.len() {
                        assert(out@[k] == before[k]);
                    }
                }
            }
        } else {
            proof {
                assert(utf8_slots(layout@, i + 1) == slots);
            }
        }
        i = i + 1;
    }
    out
}

/// Whether the table holds an entry for `index`.
pub open spec fn holds_index(pool: Seq<CpEntryFacts>, index: u16) -> bool {
    exists|i: int| 0 <= i < pool.len() && #[trigger] pool[i].index == index
}

fn find_fact(pool: &[CpEntryFacts], index: u16) -> (r: Option<usize>)
    ensures
        r matches Some(p) ==> p < pool@.len() && pool@[p as int].index == index,
        r is None && facts_sorted(pool@) ==> !holds_index(pool@, index),
{
    let mut low: usize = 0;
    let mut high: usize = pool.len();
    while low < high
        invariant
            low <= high <= pool@.len(),
            facts_sorted(pool@) ==> forall|i: int| 0 <= i < low ==> pool@[i].index < index,
            facts_sorted(pool@) ==> forall|i: int| high <= i < pool@.len() ==> pool@[i].index > index,
        decreases high - low,
    {
        let mid = low + (high - low) / 2;
        let at = pool[mid].index;
        if at == index {
            return Some(mid);
        } else if at < index {
            low = mid + 1;
        } else {
            high = mid;
        }
    }
    None
}

/// Resolves one 1-based constant-pool index inside a fact table.
///
/// Index 0 never holds an entry. On a table in index order (what [`resolve_constant_pool`]
/// builds) the lookup succeeds exactly when an entry carries the index.
pub fn cp_entry(pool: &[CpEntryFacts], index: u16) -> (r: Result<&CpEntryFacts>)
    ensures
        r matches Ok(e) ==> e.index == index && index != 0 && pool@.contains(*e),
        r matches Err(e) ==> is_invalid(e, "classfile_invalid_constant_pool_index"@),
        facts_sorted(pool@) ==> (r is Ok <==> index != 0 && holds_index(pool@, index)),
        facts_sorted(pool@) && r is Ok ==> *r->Ok_0 == fact_at(pool@, index),
{
    if index == 0 {
        return Err(cp_index_error(index));
    }
    match find_fact(pool, index) {
        Some(p) => {
            assert(pool@.contains(pool@[p as int]));
            proof {
                if facts_sorted(pool@) {
                    lemma_fact_at(pool@, pool@[p as int]);
                }
            }
            Ok(&pool[p])
        },
        None => Err(cp_index_error(index)),
    }
}

/// The entry a sorted table holds for `index`.
pub open spec fn fact_at(pool: Seq<CpEntryFacts>, index: u16) -> CpEntryFacts {
    pool[choose|i: int| 0 <= i < pool.len() && #[trigger] pool[i].index == index]
}

/// In a sorted table, the entry held for an index is the one entry with that index.
pub proof fn lemma_fact_at(pool: Seq<CpEntryFacts>, e: CpEntryFacts)
    requires
        facts_sorted(pool),
        pool.contains(e),
    ensures
        fact_at(pool, e.index) == e,
{
    let p = choose|i: int| 0 <= i < pool.len() && pool[i] == e;
    assert(pool[p].index == e.index);
    let q = choose|i: int| 0 <= i < pool.len() && #[trigger] pool[i].index == e.index;
    if q < p {
        assert(pool[q].index < pool[p].index);
    } else if p < q {
        assert(pool[p].index < pool[q].index);
    }
}

pub fn cp_fact_tag_mismatch(required: &str, index: u16) -> (e: Error)
    ensures
        is_invalid(e, "classfile_constant_pool_tag_mismatch"@),
{
    let mut message = prefixed_number("constant-pool index ", index as u64);
    message.append(" is not ");
    message.append(required);
    Error::invalid_input_owned("classfile_constant_pool_tag_mismatch", message)
}

/// Resolves a `CONSTANT_Utf8` index to its raw Modified UTF-8 bytes.
pub fn cp_utf8(pool: &[CpEntryFacts], index: u16) -> (r: Result<JvmBytes>)
    ensures
        r matches Ok(b) ==> exists|e: CpEntryFacts| pool@.contains(e) && e.index == index && index != 0
            && e.kind@ == (CpKind::Utf8 { bytes: b.0@ }),
        r matches Err(e) ==> is_invalid(e, "classfile_invalid_constant_pool_index"@)
            || is_invalid(e, "classfile_constant_pool_tag_mismatch"@),
        facts_sorted(pool@) ==> (r is Ok <==> index != 0 && holds_index(pool@, index)
            && fact_at(pool@, index).kind is Utf8),
        facts_sorted(pool@) && !(index != 0 && holds_index(pool@, index))
            ==> (r matches Err(e) && is_invalid(e, "classfile_invalid_constant_pool_index"@)),
        facts_sorted(pool@) && index != 0 && holds_index(pool@, index) && !(fact_at(pool@, index).kind is Utf8)
            ==> (r matches Err(e) && is_invalid(e, "classfile_constant_pool_tag_mismatch"@)),
        facts_sorted(pool@) && r is Ok ==> (CpKind::Utf8 { bytes: r->Ok_0.0@ }) == fact_at(pool@, index).kind@,
{
    let entry = cp_entry(pool, index)?;
    proof {
        if facts_sorted(pool@) {
            lemma_fact_at(pool@, *entry);
        }
    }
    match &entry.kind {
        CpEntryKind::Utf8 { bytes } => Ok(bytes.duplicate()),
        _ => Err(cp_fact_tag_mismatch("CONSTANT_Utf8", index)),
    }
}

/// Resolves a `CONSTANT_Class` index to its internal-name bytes.
pub fn cp_class_name(pool: &[CpEntryFacts], index: u16) -> (r: Result<JvmBytes>)
    ensures
        r matches Ok(b) ==> exists|e: CpEntryFacts| pool@.contains(e) && e.index == index && index != 0
            && (e.kind@ matches CpKind::Class { name, .. } && name == b.0@),
        r matches Err(e) ==> is_invalid(e, "classfile_invalid_constant_pool_index"@)
            || is_invalid(e, "classfile_constant_pool_tag_mismatch"@),
        facts_sorted(pool@) ==> (r is Ok <==> index != 0 && holds_index(pool@, index)
            && fact_at(pool@, index).kind is Class),
        facts_sorted(pool@) && !(index != 0 && holds_index(pool@, index))
            ==> (r matches Err(e) && is_invalid(e, "classfile_invalid_constant_pool_index"@)),
        facts_sorted(pool@) && index != 0 && holds_index(pool@, index) && !(fact_at(pool@, index).kind is Class)
            ==> (r matches Err(e) && is_invalid(e, "classfile_constant_pool_tag_mismatch"@)),
        facts_sorted(pool@) && r is Ok ==> (fact_at(pool@, index).kind@ matches CpKind::Class { name, .. } && name == r->Ok_0.0@),
{
    let entry = cp_entry(pool, index)?;
    proof {
        if facts_sorted(pool@) {
            lemma_fact_at(pool@, *entry);
        }
    }
    match &entry.kind {
        CpEntryKind::Class { name, .. } => Ok(name.duplicate()),
        _ => Err(cp_fact_tag_mismatch("CONSTANT_Class", index)),
    }
}


/// What the slot-reservation pre-check concludes.
pub enum SlotsCheck {
    /// Nothing this check owns is wrong: every other diagnostic belongs to the class decoder.
    Accept,
    /// A read ran past the end of the bytes at this position.
    Eoi(nat),
    /// An offset left its address space.
    Overflow,
    /// A `Long` or `Double` at this slot has no reserved following slot.
    Unreserved(u8, nat),
}

/// The pre-check over the slots from `slot` on: it walks entry widths like the pool measure,
/// but leaves unknown tags and truncated entries to the class decoder.
pub open spec fn slots_from(bytes: Seq<u8>, count: nat, slot: nat, offset: nat) -> SlotsCheck
    decreases count + 1 - slot,
{
    if slot >= count {
        SlotsCheck::Accept
    } else if offset >= bytes.len() {
        SlotsCheck::Eoi(offset)
    } else {
        let tag = bytes[offset as int];
        let at = offset + 1;
        let payload: Option<(nat, nat)> = if tag == 1 {
            if at + 2 > usize::MAX {
                None
            } else if at + 2 > bytes.len() {
                None
            } else {
                Some((be16(bytes, at as int) as nat, at + 2))
            }
        } else {
            match fixed_payload(tag) {
                Some(w) => Some((w, at)),
                None => None,
            }
        };
        if tag == 1 && at + 2 > usize::MAX {
            SlotsCheck::Overflow
        } else if tag == 1 && at + 2 > bytes.len() {
            SlotsCheck::Eoi(at)
        } else if payload is None {
            SlotsCheck::Accept
        } else if (tag == 5 || tag == 6) && slot + 1 >= count {
            SlotsCheck::Unreserved(tag, slot)
        } else {
            let (width, from) = payload->0;
            let end = from + width;
            if end > usize::MAX {
                SlotsCheck::Overflow
            } else if end > bytes.len() {
                SlotsCheck::Accept
            } else {
                slots_from(bytes, count, slot + slot_width(tag), end)
            }
        }
    }
}

/// The slot-reservation pre-check of a whole class.
pub open spec fn slots_check(bytes: Seq<u8>) -> SlotsCheck {
    if !has_class_prefix(bytes) || be16(bytes, 8) == 0 {
        SlotsCheck::Accept
    } else {
        slots_from(bytes, be16(bytes, 8) as nat, 1, 10)
    }
}

/// The error the pre-check's conclusion is reported as.
pub open spec fn slots_error(e: Error, c: SlotsCheck) -> bool {
    match c {
        SlotsCheck::Accept => false,
        SlotsCheck::Eoi(p) => is_eoi(e, p),
        SlotsCheck::Overflow => is_offset_overflow(e),
        SlotsCheck::Unreserved(_, _) => is_invalid(e, "classfile_invalid_constant_pool_slots"@),
    }
}

/// Rejects a `Long` or `Double` in the final declared constant-pool slot, the one malformed
/// two-slot entry the class decoder accepts, before anything relies on the decoder's pool.
/// Bad magic, a zero count, unknown tags and truncated entries are left to the decoder.
pub fn validate_constant_pool_slots(bytes: &[u8], budget: &Budget) -> (r: Result<()>)
    ensures
        r matches Err(e) ==> crate::budget::honest_refusal(e, budget.limits_of()),
        r is Ok ==> slots_check(bytes@) is Accept,
        r matches Err(e) ==> is_stop(e) || slots_error(e, slots_check(bytes@)),
        !(slots_check(bytes@) is Accept) ==> r is Err,
{
    let n = bytes.len();
    if n < 10 || bytes[0] != 0xca || bytes[1] != 0xfe || bytes[2] != 0xba || bytes[3] != 0xbe {
        return Ok(());
    }
    let count = read_u16(bytes, 8)?;
    if count == 0 {
        return Ok(());
    }
    let mut slot: u16 = 1;
    let mut offset: usize = 10;
    while slot < count
        invariant
            n == bytes@.len(),
            has_class_prefix(bytes@),
            count == be16(bytes@, 8),
            count != 0,
            1 <= slot,
            slots_check(bytes@) == slots_from(bytes@, count as nat, slot as nat, offset as nat),
        decreases count as int + 1 - slot,
    {
        budget.poll()?;
        if offset >= n {
            return Err(cp_guard_eoi(offset));
        }
        let tag = bytes[offset];
        let at = offset + 1;
        let width: usize;
        let mut from: usize = at;
        if tag == CP_TAG_UTF8 {
            let length = read_u16(bytes, at)?;
            width = length as usize;
            from = at + 2;
        } else if tag == 3 || tag == 4 {
            width = 4;
        } else if tag == 5 || tag == 6 {
            if slot >= count - 1 {
                let mut message = prefixed_number("constant-pool tag ", tag as u64);
                message.append(" at slot ");
                crate::text::push_decimal(&mut message, slot as u64);
                message.append(" has no reserved following slot");
                return Err(Error::invalid_input_owned("classfile_invalid_constant_pool_slots", message));
            }
            width = 8;
        } else if tag == 7 || tag == 8 || tag == 16 || tag == 19 || tag == 20 {
            width = 2;
        } else if tag == 9 || tag == 10 || tag == 11 || tag == 12 || tag == 17 || tag == 18 {
            width = 4;
        } else if tag == 15 {
            width = 3;
        } else {
            return Ok(());
        }
        if from > usize::MAX - width {
            return Err(cp_guard_overflow());
        }
        let end = from + width;
        if end > n {
            return Ok(());
        }
        offset = end;
        slot = if tag == CP_TAG_LONG || tag == CP_TAG_DOUBLE { slot + 2 } else { slot + 1 };
    }
    Ok(())
}

} // verus!
