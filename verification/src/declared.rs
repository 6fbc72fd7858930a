//! The declaration structure a class file lays out after its constant pool (JVMS 4.1): where each
//! interface, field, method and attribute sits, which of them a walk can read, and what it reads.

use crate::bytes::{be16, be32};
use crate::cpool::{CpSlotLayout, class_at, utf8_at};
use crate::header::{AttributeShell, MemberHeader};
use crate::model::{ByteSpan, JvmString, mutf8_decode};
use vstd::prelude::*;

verus! {


/// `s` is the JVM string of `raw`: those bytes, and the units they decode to.
pub open spec fn is_jvm_string(s: JvmString, raw: Seq<u8>) -> bool {
    &&& s.raw_bytes() == raw
    &&& mutf8_decode(raw) == Some(s.units())
}

/// The `CONSTANT_Utf8` at `index` holds legal Modified UTF-8.
pub open spec fn utf8_name_ok(b: Seq<u8>, layout: Seq<CpSlotLayout>, index: u16) -> bool {
    utf8_at(b, layout, index) matches Ok(raw) && mutf8_decode(raw) is Some
}

/// The `CONSTANT_Class` at `index` names legal Modified UTF-8.
pub open spec fn class_name_ok(b: Seq<u8>, layout: Seq<CpSlotLayout>, index: u16) -> bool {
    class_at(b, layout, index) matches Ok(raw) && mutf8_decode(raw) is Some
}

/// `s` is the value of the `CONSTANT_Utf8` at `index`.
pub open spec fn names_utf8(b: Seq<u8>, layout: Seq<CpSlotLayout>, index: u16, s: JvmString) -> bool {
    utf8_at(b, layout, index) matches Ok(raw) && is_jvm_string(s, raw)
}

/// `s` is the name of the `CONSTANT_Class` at `index`.
pub open spec fn names_class(b: Seq<u8>, layout: Seq<CpSlotLayout>, index: u16, s: JvmString) -> bool {
    class_at(b, layout, index) matches Ok(raw) && is_jvm_string(s, raw)
}

/// Where attribute `k` of the list whose count field sits at `at` starts: each attribute is a
/// two-byte name index, a four-byte length and that many content bytes.
pub open spec fn attribute_at(b: Seq<u8>, at: int, k: int) -> int
    decreases k,
{
    if k <= 0 {
        at + 2
    } else {
        let p = attribute_at(b, at, k - 1);
        p + 6 + be32(b, p + 2)
    }
}

/// Where the attribute list whose count field sits at `at` ends.
pub open spec fn attributes_end(b: Seq<u8>, at: int) -> int {
    attribute_at(b, at, be16(b, at) as int)
}

/// Attribute `k` of the list at `at` lies inside the bytes and its name resolves.
pub open spec fn attribute_ok(b: Seq<u8>, layout: Seq<CpSlotLayout>, at: int, k: int) -> bool {
    let p = attribute_at(b, at, k);
    &&& p + 6 <= b.len()
    &&& p + 6 + be32(b, p + 2) <= b.len()
    &&& utf8_name_ok(b, layout, be16(b, p))
}

/// The attribute list at `at` reads: its count field and every attribute it declares.
pub open spec fn attributes_ok(b: Seq<u8>, layout: Seq<CpSlotLayout>, at: int) -> bool {
    &&& 0 <= at
    &&& at + 2 <= b.len()
    &&& forall|k: int| 0 <= k < be16(b, at) ==> #[trigger] attribute_ok(b, layout, at, k)
}

/// `s` is the shell of attribute `k` of the list at `at`.
pub open spec fn is_attribute(b: Seq<u8>, layout: Seq<CpSlotLayout>, at: int, k: int, s: AttributeShell) -> bool {
    let p = attribute_at(b, at, k);
    &&& names_utf8(b, layout, be16(b, p), s.name)
    &&& s.span == (ByteSpan { start: p as u64, length: (6 + be32(b, p + 2)) as u64 })
    &&& s.content_span == (ByteSpan { start: (p + 6) as u64, length: be32(b, p + 2) as u64 })
}

/// `shells` are the attributes of the list at `at`, in order.
pub open spec fn attributes_are(b: Seq<u8>, layout: Seq<CpSlotLayout>, at: int, shells: Seq<AttributeShell>) -> bool {
    &&& shells.len() == be16(b, at)
    &&& forall|k: int| 0 <= k < shells.len() ==> #[trigger] is_attribute(b, layout, at, k, shells[k])
}

/// Where member `k` of the list whose count field sits at `at` starts: each member is its access
/// flags, name index and descriptor index, then an attribute list.
pub open spec fn member_at(b: Seq<u8>, at: int, k: int) -> int
    decreases k,
{
    if k <= 0 {
        at + 2
    } else {
        attributes_end(b, member_at(b, at, k - 1) + 6)
    }
}

/// Where the member list whose count field sits at `at` ends.
pub open spec fn members_end(b: Seq<u8>, at: int) -> int {
    member_at(b, at, be16(b, at) as int)
}

/// Member `k` of the list at `at` reads: its fixed fields, its names and its attributes.
pub open spec fn member_ok(b: Seq<u8>, layout: Seq<CpSlotLayout>, at: int, k: int) -> bool {
    let p = member_at(b, at, k);
    &&& p + 6 <= b.len()
    &&& attributes_ok(b, layout, p + 6)
    &&& utf8_name_ok(b, layout, be16(b, p + 2))
    &&& utf8_name_ok(b, layout, be16(b, p + 4))
}

/// The member list at `at` reads: its count field and every member it declares.
pub open spec fn members_ok(b: Seq<u8>, layout: Seq<CpSlotLayout>, at: int) -> bool {
    &&& 0 <= at
    &&& at + 2 <= b.len()
    &&& forall|k: int| 0 <= k < be16(b, at) ==> #[trigger] member_ok(b, layout, at, k)
}

/// `m` is member `k` of the list at `at`.
pub open spec fn is_member(b: Seq<u8>, layout: Seq<CpSlotLayout>, at: int, k: int, m: MemberHeader) -> bool {
    let p = member_at(b, at, k);
    &&& m.access_flags == be16(b, p)
    &&& names_utf8(b, layout, be16(b, p + 2), m.name)
    &&& names_utf8(b, layout, be16(b, p + 4), m.descriptor)
    &&& attributes_are(b, layout, p + 6, m.attributes@)
}

/// `members` are the members of the list at `at`, in order.
pub open spec fn members_are(b: Seq<u8>, layout: Seq<CpSlotLayout>, at: int, members: Seq<MemberHeader>) -> bool {
    &&& members.len() == be16(b, at)
    &&& forall|k: int| 0 <= k < members.len() ==> #[trigger] is_member(b, layout, at, k, members[k])
}

/// Where the class-information fields start: right after the constant pool of a measured layout.
pub open spec fn pool_end(layout: Seq<CpSlotLayout>) -> int {
    if layout.len() == 0 {
        10
    } else {
        layout.last().start + layout.last().length
    }
}

/// Where the interface table of a class starts (its count field is the two bytes before).
pub open spec fn interfaces_at(layout: Seq<CpSlotLayout>) -> int {
    pool_end(layout) + 8
}

/// Where the field list's count field sits.
pub open spec fn fields_at(b: Seq<u8>, layout: Seq<CpSlotLayout>) -> int {
    interfaces_at(layout) + 2 * be16(b, pool_end(layout) + 6)
}

/// Where the method list's count field sits.
pub open spec fn methods_at(b: Seq<u8>, layout: Seq<CpSlotLayout>) -> int {
    members_end(b, fields_at(b, layout))
}

/// Where the class attribute list's count field sits.
pub open spec fn class_attributes_at(b: Seq<u8>, layout: Seq<CpSlotLayout>) -> int {
    members_end(b, methods_at(b, layout))
}

/// The declaration structure after the constant pool reads: the class-information fields, every
/// interface name, the field and method lists and the class attribute list.
pub open spec fn structure_ok(b: Seq<u8>, layout: Seq<CpSlotLayout>) -> bool {
    let s = pool_end(layout);
    &&& 0 <= s
    &&& s + 8 <= b.len()
    &&& class_name_ok(b, layout, be16(b, s + 2))
    &&& (be16(b, s + 4) == 0 || class_name_ok(b, layout, be16(b, s + 4)))
    &&& fields_at(b, layout) <= b.len()
    &&& forall|k: int| 0 <= k < be16(b, s + 6) ==> #[trigger] class_name_ok(b, layout, be16(b, interfaces_at(layout) + 2 * k))
    &&& members_ok(b, layout, fields_at(b, layout))
    &&& members_ok(b, layout, methods_at(b, layout))
    &&& attributes_ok(b, layout, class_attributes_at(b, layout))
}

/// `names` are the interface names of the class, in order.
pub open spec fn interfaces_are(b: Seq<u8>, layout: Seq<CpSlotLayout>, names: Seq<JvmString>) -> bool {
    &&& names.len() == be16(b, pool_end(layout) + 6)
    &&& forall|k: int| 0 <= k < names.len() ==> #[trigger] names_class(b, layout, be16(b, interfaces_at(layout) + 2 * k), names[k])
}

/// `super_class` is what the class states of its superclass: none for index 0.
pub open spec fn super_is(b: Seq<u8>, layout: Seq<CpSlotLayout>, super_class: Option<JvmString>) -> bool {
    let index = be16(b, pool_end(layout) + 4);
    if index == 0 {
        super_class is None
    } else {
        super_class matches Some(n) && names_class(b, layout, index, n)
    }
}

/// The declaration a class states after its constant pool: access flags, this and super class,
/// interfaces, fields, methods and class attributes, each exactly where the bytes hold it.
pub open spec fn declares(
    b: Seq<u8>,
    layout: Seq<CpSlotLayout>,
    access_flags: u16,
    this_class: JvmString,
    super_class: Option<JvmString>,
    interfaces: Seq<JvmString>,
    fields: Seq<MemberHeader>,
    methods: Seq<MemberHeader>,
    attributes: Seq<AttributeShell>,
) -> bool {
    let s = pool_end(layout);
    &&& access_flags == be16(b, s)
    &&& names_class(b, layout, be16(b, s + 2), this_class)
    &&& super_is(b, layout, super_class)
    &&& interfaces_are(b, layout, interfaces)
    &&& members_are(b, layout, fields_at(b, layout), fields)
    &&& members_are(b, layout, methods_at(b, layout), methods)
    &&& attributes_are(b, layout, class_attributes_at(b, layout), attributes)
}

/// The raw bytes of the `CONSTANT_Utf8` at `index`; empty when it does not resolve.
pub open spec fn utf8_or_empty(b: Seq<u8>, layout: Seq<CpSlotLayout>, index: u16) -> Seq<u8> {
    match utf8_at(b, layout, index) {
        Ok(raw) => raw,
        Err(_) => Seq::empty(),
    }
}

/// How many methods the class declares.
pub open spec fn method_count(b: Seq<u8>, layout: Seq<CpSlotLayout>) -> int {
    be16(b, methods_at(b, layout)) as int
}

/// Where method `k` starts.
pub open spec fn method_at(b: Seq<u8>, layout: Seq<CpSlotLayout>, k: int) -> int {
    member_at(b, methods_at(b, layout), k)
}

/// Method `k` has this raw name and this raw descriptor.
pub open spec fn method_named(b: Seq<u8>, layout: Seq<CpSlotLayout>, k: int, name: Seq<u8>, descriptor: Seq<u8>) -> bool {
    let p = method_at(b, layout, k);
    &&& utf8_or_empty(b, layout, be16(b, p + 2)) == name
    &&& utf8_or_empty(b, layout, be16(b, p + 4)) == descriptor
}

/// No method of the class has this raw name and descriptor.
pub open spec fn no_method_named(b: Seq<u8>, layout: Seq<CpSlotLayout>, name: Seq<u8>, descriptor: Seq<u8>) -> bool {
    forall|k: int| 0 <= k < method_count(b, layout) ==> !#[trigger] method_named(b, layout, k, name, descriptor)
}

/// Two methods of the class have this raw name and descriptor.
pub open spec fn methods_named_twice(b: Seq<u8>, layout: Seq<CpSlotLayout>, name: Seq<u8>, descriptor: Seq<u8>) -> bool {
    exists|i: int, j: int| 0 <= i < j < method_count(b, layout) && #[trigger] method_named(b, layout, i, name, descriptor)
        && #[trigger] method_named(b, layout, j, name, descriptor)
}

/// Method `k` is the one method of the class with this raw name and descriptor.
pub open spec fn sole_method_named(b: Seq<u8>, layout: Seq<CpSlotLayout>, k: int, name: Seq<u8>, descriptor: Seq<u8>) -> bool {
    &&& 0 <= k < method_count(b, layout)
    &&& method_named(b, layout, k, name, descriptor)
    &&& forall|j: int| 0 <= j < method_count(b, layout) && j != k ==> !#[trigger] method_named(b, layout, j, name, descriptor)
}

/// Where attribute `j` of method `k` starts.
pub open spec fn method_attribute_at(b: Seq<u8>, layout: Seq<CpSlotLayout>, k: int, j: int) -> int {
    attribute_at(b, method_at(b, layout, k) + 6, j)
}

/// How many attributes method `k` declares.
pub open spec fn method_attribute_count(b: Seq<u8>, layout: Seq<CpSlotLayout>, k: int) -> int {
    be16(b, method_at(b, layout, k) + 6) as int
}

/// Attribute `j` of method `k` is named `Code`.
pub open spec fn is_code_attribute(b: Seq<u8>, layout: Seq<CpSlotLayout>, k: int, j: int) -> bool {
    utf8_or_empty(b, layout, be16(b, method_attribute_at(b, layout, k, j))) == crate::names::code_name()
}

/// The content of attribute `j` of method `k`.
pub open spec fn method_attribute_content(b: Seq<u8>, layout: Seq<CpSlotLayout>, k: int, j: int) -> ByteSpan {
    let p = method_attribute_at(b, layout, k, j);
    ByteSpan { start: (p + 6) as u64, length: be32(b, p + 2) as u64 }
}

/// Method `k` declares no `Code` attribute.
pub open spec fn no_code(b: Seq<u8>, layout: Seq<CpSlotLayout>, k: int) -> bool {
    forall|j: int| 0 <= j < method_attribute_count(b, layout, k) ==> !#[trigger] is_code_attribute(b, layout, k, j)
}

/// Method `k` declares two `Code` attributes.
pub open spec fn code_twice(b: Seq<u8>, layout: Seq<CpSlotLayout>, k: int) -> bool {
    exists|i: int, j: int| 0 <= i < j < method_attribute_count(b, layout, k) && #[trigger] is_code_attribute(b, layout, k, i)
        && #[trigger] is_code_attribute(b, layout, k, j)
}

/// Attribute `j` is the one `Code` attribute of method `k`.
pub open spec fn sole_code(b: Seq<u8>, layout: Seq<CpSlotLayout>, k: int, j: int) -> bool {
    &&& 0 <= j < method_attribute_count(b, layout, k)
    &&& is_code_attribute(b, layout, k, j)
    &&& forall|i: int| 0 <= i < method_attribute_count(b, layout, k) && i != j ==> !#[trigger] is_code_attribute(b, layout, k, i)
}

} // verus!
