//! The raw attribute names this reader recognises, as the Modified UTF-8 bytes a class file
//! spells them with, and the exact comparisons against them.

use vstd::prelude::*;

verus! {


/// Whether two byte strings are equal.
pub fn same_bytes(a: &[u8], b: &[u8]) -> (r: bool)
    ensures
        r == (a@ == b@),
{
    if a.len() != b.len() {
        return false;
    }
    let mut i: usize = 0;
    while i < a.len()
        invariant
            i <= a@.len() == b@.len(),
            forall|j: int| 0 <= j < i ==> a@[j] == b@[j],
        decreases a@.len() - i,
    {
        if a[i] != b[i] {
            return false;
        }
        i = i + 1;
    }
    assert(a@ =~= b@);
    true
}

/// `Code`.
pub open spec fn code_name() -> Seq<u8> {
    seq![67u8, 111, 100, 101]
}

/// Whether `raw` spells `Code`.
pub fn is_code(raw: &[u8]) -> (r: bool)
    ensures
        r == (raw@ == code_name()),
{
    let name: [u8; 4] = [67u8, 111, 100, 101];
    assert(name@ =~= code_name());
    same_bytes(raw, &name)
}

/// `Signature`.
pub open spec fn signature_name() -> Seq<u8> {
    seq![83u8, 105, 103, 110, 97, 116, 117, 114, 101]
}

/// Whether `raw` spells `Signature`.
pub fn is_signature(raw: &[u8]) -> (r: bool)
    ensures
        r == (raw@ == signature_name()),
{
    let name: [u8; 9] = [83u8, 105, 103, 110, 97, 116, 117, 114, 101];
    assert(name@ =~= signature_name());
    same_bytes(raw, &name)
}

/// `Exceptions`.
pub open spec fn exceptions_name() -> Seq<u8> {
    seq![69u8, 120, 99, 101, 112, 116, 105, 111, 110, 115]
}

/// Whether `raw` spells `Exceptions`.
pub fn is_exceptions(raw: &[u8]) -> (r: bool)
    ensures
        r == (raw@ == exceptions_name()),
{
    let name: [u8; 10] = [69u8, 120, 99, 101, 112, 116, 105, 111, 110, 115];
    assert(name@ =~= exceptions_name());
    same_bytes(raw, &name)
}

/// `InnerClasses`.
pub open spec fn inner_classes_name() -> Seq<u8> {
    seq![73u8, 110, 110, 101, 114, 67, 108, 97, 115, 115, 101, 115]
}

/// Whether `raw` spells `InnerClasses`.
pub fn is_inner_classes(raw: &[u8]) -> (r: bool)
    ensures
        r == (raw@ == inner_classes_name()),
{
    let name: [u8; 12] = [73u8, 110, 110, 101, 114, 67, 108, 97, 115, 115, 101, 115];
    assert(name@ =~= inner_classes_name());
    same_bytes(raw, &name)
}

/// `EnclosingMethod`.
pub open spec fn enclosing_method_name() -> Seq<u8> {
    seq![69u8, 110, 99, 108, 111, 115, 105, 110, 103, 77, 101, 116, 104, 111, 100]
}

/// Whether `raw` spells `EnclosingMethod`.
pub fn is_enclosing_method(raw: &[u8]) -> (r: bool)
    ensures
        r == (raw@ == enclosing_method_name()),
{
    let name: [u8; 15] = [69u8, 110, 99, 108, 111, 115, 105, 110, 103, 77, 101, 116, 104, 111, 100];
    assert(name@ =~= enclosing_method_name());
    same_bytes(raw, &name)
}

/// `NestHost`.
pub open spec fn nest_host_name() -> Seq<u8> {
    seq![78u8, 101, 115, 116, 72, 111, 115, 116]
}

/// Whether `raw` spells `NestHost`.
pub fn is_nest_host(raw: &[u8]) -> (r: bool)
    ensures
        r == (raw@ == nest_host_name()),
{
    let name: [u8; 8] = [78u8, 101, 115, 116, 72, 111, 115, 116];
    assert(name@ =~= nest_host_name());
    same_bytes(raw, &name)
}

/// `NestMembers`.
pub open spec fn nest_members_name() -> Seq<u8> {
    seq![78u8, 101, 115, 116, 77, 101, 109, 98, 101, 114, 115]
}

/// Whether `raw` spells `NestMembers`.
pub fn is_nest_members(raw: &[u8]) -> (r: bool)
    ensures
        r == (raw@ == nest_members_name()),
{
    let name: [u8; 11] = [78u8, 101, 115, 116, 77, 101, 109, 98, 101, 114, 115];
    assert(name@ =~= nest_members_name());
    same_bytes(raw, &name)
}

/// `PermittedSubclasses`.
pub open spec fn permitted_subclasses_name() -> Seq<u8> {
    seq![80u8, 101, 114, 109, 105, 116, 116, 101, 100, 83, 117, 98, 99, 108, 97, 115, 115, 101, 115]
}

/// Whether `raw` spells `PermittedSubclasses`.
pub fn is_permitted_subclasses(raw: &[u8]) -> (r: bool)
    ensures
        r == (raw@ == permitted_subclasses_name()),
{
    let name: [u8; 19] = [80u8, 101, 114, 109, 105, 116, 116, 101, 100, 83, 117, 98, 99, 108, 97, 115, 115, 101, 115];
    assert(name@ =~= permitted_subclasses_name());
    same_bytes(raw, &name)
}

/// `ConstantValue`.
pub open spec fn constant_value_name() -> Seq<u8> {
    seq![67u8, 111, 110, 115, 116, 97, 110, 116, 86, 97, 108, 117, 101]
}

/// Whether `raw` spells `ConstantValue`.
pub fn is_constant_value(raw: &[u8]) -> (r: bool)
    ensures
        r == (raw@ == constant_value_name()),
{
    let name: [u8; 13] = [67u8, 111, 110, 115, 116, 97, 110, 116, 86, 97, 108, 117, 101];
    assert(name@ =~= constant_value_name());
    same_bytes(raw, &name)
}

/// `Module`.
pub open spec fn module_name() -> Seq<u8> {
    seq![77u8, 111, 100, 117, 108, 101]
}

/// Whether `raw` spells `Module`.
pub fn is_module(raw: &[u8]) -> (r: bool)
    ensures
        r == (raw@ == module_name()),
{
    let name: [u8; 6] = [77u8, 111, 100, 117, 108, 101];
    assert(name@ =~= module_name());
    same_bytes(raw, &name)
}

/// `BootstrapMethods`.
pub open spec fn bootstrap_methods_name() -> Seq<u8> {
    seq![66u8, 111, 111, 116, 115, 116, 114, 97, 112, 77, 101, 116, 104, 111, 100, 115]
}

/// Whether `raw` spells `BootstrapMethods`.
pub fn is_bootstrap_methods(raw: &[u8]) -> (r: bool)
    ensures
        r == (raw@ == bootstrap_methods_name()),
{
    let name: [u8; 16] = [66u8, 111, 111, 116, 115, 116, 114, 97, 112, 77, 101, 116, 104, 111, 100, 115];
    assert(name@ =~= bootstrap_methods_name());
    same_bytes(raw, &name)
}

/// `Record`.
pub open spec fn record_name() -> Seq<u8> {
    seq![82u8, 101, 99, 111, 114, 100]
}

/// Whether `raw` spells `Record`.
pub fn is_record(raw: &[u8]) -> (r: bool)
    ensures
        r == (raw@ == record_name()),
{
    let name: [u8; 6] = [82u8, 101, 99, 111, 114, 100];
    assert(name@ =~= record_name());
    same_bytes(raw, &name)
}

/// `LocalVariableTable`.
pub open spec fn local_variable_table_name() -> Seq<u8> {
    seq![76u8, 111, 99, 97, 108, 86, 97, 114, 105, 97, 98, 108, 101, 84, 97, 98, 108, 101]
}

/// Whether `raw` spells `LocalVariableTable`.
pub fn is_local_variable_table(raw: &[u8]) -> (r: bool)
    ensures
        r == (raw@ == local_variable_table_name()),
{
    let name: [u8; 18] = [76u8, 111, 99, 97, 108, 86, 97, 114, 105, 97, 98, 108, 101, 84, 97, 98, 108, 101];
    assert(name@ =~= local_variable_table_name());
    same_bytes(raw, &name)
}

/// `LocalVariableTypeTable`.
pub open spec fn local_variable_type_table_name() -> Seq<u8> {
    seq![76u8, 111, 99, 97, 108, 86, 97, 114, 105, 97, 98, 108, 101, 84, 121, 112, 101, 84, 97, 98, 108, 101]
}

/// Whether `raw` spells `LocalVariableTypeTable`.
pub fn is_local_variable_type_table(raw: &[u8]) -> (r: bool)
    ensures
        r == (raw@ == local_variable_type_table_name()),
{
    let name: [u8; 22] = [76u8, 111, 99, 97, 108, 86, 97, 114, 105, 97, 98, 108, 101, 84, 121, 112, 101, 84, 97, 98, 108, 101];
    assert(name@ =~= local_variable_type_table_name());
    same_bytes(raw, &name)
}


/// `java/lang/invoke/StringConcatFactory`.
pub open spec fn string_concat_factory_name() -> Seq<u8> {
    seq![106u8, 97, 118, 97, 47, 108, 97, 110, 103, 47, 105, 110, 118, 111, 107, 101, 47, 83, 116, 114, 105, 110, 103, 67, 111, 110, 99, 97, 116, 70, 97, 99, 116, 111, 114, 121]
}

/// Whether `raw` spells `java/lang/invoke/StringConcatFactory`.
pub fn is_string_concat_factory(raw: &[u8]) -> (r: bool)
    ensures
        r == (raw@ == string_concat_factory_name()),
{
    let name: [u8; 36] = [106u8, 97, 118, 97, 47, 108, 97, 110, 103, 47, 105, 110, 118, 111, 107, 101, 47, 83, 116, 114, 105, 110, 103, 67, 111, 110, 99, 97, 116, 70, 97, 99, 116, 111, 114, 121];
    assert(name@ =~= string_concat_factory_name());
    same_bytes(raw, &name)
}

/// `makeConcat`.
pub open spec fn make_concat_name() -> Seq<u8> {
    seq![109u8, 97, 107, 101, 67, 111, 110, 99, 97, 116]
}

/// Whether `raw` spells `makeConcat`.
pub fn is_make_concat(raw: &[u8]) -> (r: bool)
    ensures
        r == (raw@ == make_concat_name()),
{
    let name: [u8; 10] = [109u8, 97, 107, 101, 67, 111, 110, 99, 97, 116];
    assert(name@ =~= make_concat_name());
    same_bytes(raw, &name)
}

/// `makeConcatWithConstants`.
pub open spec fn make_concat_with_constants_name() -> Seq<u8> {
    seq![109u8, 97, 107, 101, 67, 111, 110, 99, 97, 116, 87, 105, 116, 104, 67, 111, 110, 115, 116, 97, 110, 116, 115]
}

/// Whether `raw` spells `makeConcatWithConstants`.
pub fn is_make_concat_with_constants(raw: &[u8]) -> (r: bool)
    ensures
        r == (raw@ == make_concat_with_constants_name()),
{
    let name: [u8; 23] = [109u8, 97, 107, 101, 67, 111, 110, 99, 97, 116, 87, 105, 116, 104, 67, 111, 110, 115, 116, 97, 110, 116, 115];
    assert(name@ =~= make_concat_with_constants_name());
    same_bytes(raw, &name)
}

} // verus!
