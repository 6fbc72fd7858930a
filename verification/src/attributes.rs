//! Typed facts of the simple class-level and member-level attributes, read through a bounded
//! cursor that refuses a read past the content and unread trailing bytes.

use crate::budget::{Budget, CountedBudgetDimension};
use crate::bytes::{be16, be32};
use crate::cpool::{CpEntryFacts, CpEntryKind, CpIndexOf, CpKind, cp_class_name, cp_entry, cp_utf8};
use crate::error::{Error, Result, is_budget, is_invalid, is_stop};
use crate::header::{AttributeShell, NestedAttributeFact, attribute_content, is_bad_span, is_span_overflow, span_overflow};
use crate::model::ByteSpan;
use crate::model::JvmBytes;
use crate::names::{
    is_constant_value, is_enclosing_method, is_exceptions, is_inner_classes, is_module, is_nest_host,
    is_nest_members, is_permitted_subclasses, is_signature,
};
use crate::text::{prefixed_number, with_number};
use vstd::prelude::*;

verus! {


/// `classfile_invalid_attribute_content`: the declared structure does not match the content.
pub open spec fn is_content_error(e: Error) -> bool {
    is_invalid(e, "classfile_invalid_attribute_content"@) || is_invalid(e, "classfile_span_overflow"@)
}

/// A bounded cursor over one attribute's content.
pub struct AttributeReader<'a> {
    pub content: &'a [u8],
    pub position: usize,
}

fn attribute_eoi(position: usize) -> (e: Error)
    ensures
        is_invalid(e, "classfile_invalid_attribute_content"@),
{
    Error::invalid_input_owned(
        "classfile_invalid_attribute_content",
        prefixed_number("attribute content ends before its declared structure at offset ", position as u64),
    )
}

impl<'a> AttributeReader<'a> {
    /// The cursor has not moved past its content.
    pub open spec fn wf(&self) -> bool {
        self.position <= self.content@.len()
    }

    pub fn new(content: &'a [u8]) -> (r: AttributeReader<'a>)
        ensures
            r.content@ == content@,
            r.position == 0,
            r.wf(),
    {
        AttributeReader { content, position: 0 }
    }

    /// Bytes read so far, in attribute-content coordinates.
    pub fn position(&self) -> (p: usize)
        ensures
            p == self.position,
    {
        self.position
    }

    /// The big-endian `u16` at the cursor; the cursor moves past it.
    pub fn u16(&mut self) -> (r: Result<u16>)
        requires
            old(self).wf(),
        ensures
            final(self).wf(),
            final(self).content@ == old(self).content@,
            old(self).position + 2 <= old(self).content@.len() ==> r == Ok::<u16, Error>(be16(old(self).content@, old(self).position as int))
                && final(self).position == old(self).position + 2,
            old(self).position + 2 > old(self).content@.len() ==> r is Err,
            r matches Err(e) ==> is_content_error(e) && is_invalid(e, "classfile_invalid_attribute_content"@),
    {
        let n = self.content.len();
        let start = self.position;
        if start > n || n - start < 2 {
            return Err(attribute_eoi(start));
        }
        let v = ((self.content[start] as u32) * 256 + self.content[start + 1] as u32) as u16;
        self.position = start + 2;
        Ok(v)
    }

    /// The big-endian `u32` at the cursor; the cursor moves past it.
    pub fn u32(&mut self) -> (r: Result<u32>)
        requires
            old(self).wf(),
        ensures
            final(self).wf(),
            final(self).content@ == old(self).content@,
            old(self).position + 4 <= old(self).content@.len() ==> r == Ok::<u32, Error>(crate::bytes::be32(old(self).content@, old(self).position as int))
                && final(self).position == old(self).position + 4,
            old(self).position + 4 > old(self).content@.len() ==> r is Err,
            r matches Err(e) ==> is_content_error(e) && is_invalid(e, "classfile_invalid_attribute_content"@),
    {
        let n = self.content.len();
        let start = self.position;
        if start > n || n - start < 4 {
            return Err(attribute_eoi(start));
        }
        let c = self.content;
        let v: u64 = (c[start] as u64) * 0x100_0000 + (c[start + 1] as u64) * 0x1_0000 + (c[start + 2] as u64) * 0x100 + c[start + 3] as u64;
        self.position = start + 4;
        Ok(v as u32)
    }

    /// Moves the cursor `length` bytes on, when the content holds them.
    pub fn skip(&mut self, length: usize) -> (r: Result<()>)
        requires
            old(self).wf(),
        ensures
            final(self).wf(),
            final(self).content@ == old(self).content@,
            old(self).position + length <= old(self).content@.len() <==> r is Ok,
            r is Ok ==> final(self).position == old(self).position + length,
            r matches Err(e) ==> is_content_error(e),
    {
        let n = self.content.len();
        if self.position > usize::MAX - length {
            return Err(span_overflow("class-file offset"));
        }
        let end = self.position + length;
        if end > n {
            return Err(attribute_eoi(self.position));
        }
        self.position = end;
        Ok(())
    }

    /// The content was read to its end.
    pub fn expect_end(&self) -> (r: Result<()>)
        requires
            self.wf(),
        ensures
            r is Ok <==> self.position == self.content@.len(),
            r matches Err(e) ==> is_invalid(e, "classfile_invalid_attribute_content"@),
    {
        if self.position != self.content.len() {
            return Err(Error::invalid_input_owned(
                "classfile_invalid_attribute_content",
                with_number("attribute content has ", (self.content.len() - self.position) as u64, " unread trailing byte(s)"),
            ));
        }
        Ok(())
    }
}

/// The single-valued attributes a list may declare at most once.
#[derive(Clone, Copy, Debug, PartialEq, Eq)]
pub enum UniqueAttribute {
    Signature,
    Exceptions,
    InnerClasses,
    EnclosingMethod,
    NestHost,
    NestMembers,
    PermittedSubclasses,
    ConstantValue,
    Module,
    Record,
    BootstrapMethods,
}

/// The name a single-valued attribute is spelled with.
pub open spec fn unique_attribute_spelling(a: UniqueAttribute) -> Seq<char> {
    match a {
        UniqueAttribute::Signature => "Signature"@,
        UniqueAttribute::Exceptions => "Exceptions"@,
        UniqueAttribute::InnerClasses => "InnerClasses"@,
        UniqueAttribute::EnclosingMethod => "EnclosingMethod"@,
        UniqueAttribute::NestHost => "NestHost"@,
        UniqueAttribute::NestMembers => "NestMembers"@,
        UniqueAttribute::PermittedSubclasses => "PermittedSubclasses"@,
        UniqueAttribute::ConstantValue => "ConstantValue"@,
        UniqueAttribute::Module => "Module"@,
        UniqueAttribute::Record => "Record"@,
        UniqueAttribute::BootstrapMethods => "BootstrapMethods"@,
    }
}

pub fn unique_attribute_name(a: UniqueAttribute) -> (s: &'static str)
    ensures
        s@ == unique_attribute_spelling(a),
{
    match a {
        UniqueAttribute::Signature => "Signature",
        UniqueAttribute::Exceptions => "Exceptions",
        UniqueAttribute::InnerClasses => "InnerClasses",
        UniqueAttribute::EnclosingMethod => "EnclosingMethod",
        UniqueAttribute::NestHost => "NestHost",
        UniqueAttribute::NestMembers => "NestMembers",
        UniqueAttribute::PermittedSubclasses => "PermittedSubclasses",
        UniqueAttribute::ConstantValue => "ConstantValue",
        UniqueAttribute::Module => "Module",
        UniqueAttribute::Record => "Record",
        UniqueAttribute::BootstrapMethods => "BootstrapMethods",
    }
}

fn same_attribute(a: UniqueAttribute, b: UniqueAttribute) -> (r: bool)
    ensures
        r == (a == b),
{
    match (a, b) {
        (UniqueAttribute::Signature, UniqueAttribute::Signature) => true,
        (UniqueAttribute::Exceptions, UniqueAttribute::Exceptions) => true,
        (UniqueAttribute::InnerClasses, UniqueAttribute::InnerClasses) => true,
        (UniqueAttribute::EnclosingMethod, UniqueAttribute::EnclosingMethod) => true,
        (UniqueAttribute::NestHost, UniqueAttribute::NestHost) => true,
        (UniqueAttribute::NestMembers, UniqueAttribute::NestMembers) => true,
        (UniqueAttribute::PermittedSubclasses, UniqueAttribute::PermittedSubclasses) => true,
        (UniqueAttribute::ConstantValue, UniqueAttribute::ConstantValue) => true,
        (UniqueAttribute::Module, UniqueAttribute::Module) => true,
        (UniqueAttribute::Record, UniqueAttribute::Record) => true,
        (UniqueAttribute::BootstrapMethods, UniqueAttribute::BootstrapMethods) => true,
        _ => false,
    }
}

/// Records that `name` was seen; `classfile_duplicate_attribute` when it already was.
pub fn ensure_unique(seen: &mut Vec<UniqueAttribute>, name: UniqueAttribute) -> (r: Result<()>)
    ensures
        r is Ok <==> !old(seen)@.contains(name),
        r is Ok ==> final(seen)@ == old(seen)@.push(name),
        r is Err ==> final(seen)@ == old(seen)@,
        r matches Err(e) ==> is_invalid(e, "classfile_duplicate_attribute"@),
{
    let mut i: usize = 0;
    while i < seen.len()
        invariant
            i <= seen@.len(),
            forall|j: int| 0 <= j < i ==> seen@[j] != name,
        decreases seen@.len() - i,
    {
        if same_attribute(seen[i], name) {
            assert(seen@[i as int] == name);
            let mut m = String::from_str("class or member declares more than one ");
            m.append(unique_attribute_name(name));
            m.append(" attribute");
            return Err(Error::invalid_input_owned("classfile_duplicate_attribute", m));
        }
        i = i + 1;
    }
    seen.push(name);
    Ok(())
}

/// The table holds a `CONSTANT_Class` entry for `index` that names `name`.
pub open spec fn class_named(pool: Seq<CpEntryFacts>, index: u16, name: Seq<u8>) -> bool {
    exists|e: CpEntryFacts| pool.contains(e) && e.index == index && index != 0
        && (e.kind@ matches CpKind::Class { name: n, .. } && n == name)
}

/// The table holds a `CONSTANT_Utf8` entry for `index` with these bytes.
pub open spec fn utf8_named(pool: Seq<CpEntryFacts>, index: u16, bytes: Seq<u8>) -> bool {
    exists|e: CpEntryFacts| pool.contains(e) && e.index == index && index != 0
        && e.kind@ == (CpKind::Utf8 { bytes })
}

/// An error of an attribute read: content structure, a constant-pool lookup, or a checkpoint.
pub open spec fn is_read_error(e: Error) -> bool {
    ||| is_stop(e)
    ||| is_content_error(e)
    ||| is_invalid(e, "classfile_invalid_constant_pool_index"@)
    ||| is_invalid(e, "classfile_constant_pool_tag_mismatch"@)
}

/// A run at `at`: a `u16` count and that many indexes of `CONSTANT_Class` entries, all inside `c`.
pub open spec fn class_run_ok(pool: Seq<CpEntryFacts>, c: Seq<u8>, at: int) -> bool {
    &&& 0 <= at
    &&& at + 2 <= c.len()
    &&& at + 2 + 2 * be16(c, at) <= c.len()
    &&& forall|k: int| 0 <= k < be16(c, at) ==> entry_with(pool, #[trigger] be16(c, at + 2 + 2 * k), |q: CpKind| q is Class)
}

/// `names` are the internal names of the run at `at`, in order.
pub open spec fn class_run_names(pool: Seq<CpEntryFacts>, c: Seq<u8>, at: int, names: Seq<JvmBytes>) -> bool {
    &&& names.len() == be16(c, at)
    &&& forall|k: int| 0 <= k < names.len() ==> class_named(pool, be16(c, at + 2 + 2 * k), #[trigger] names[k].0@)
}

proof fn lemma_sorted_entry_unique(pool: Seq<CpEntryFacts>, e: CpEntryFacts, p: spec_fn(CpKind) -> bool)
    requires
        crate::cpool::facts_sorted(pool),
        pool.contains(e),
        !p(e.kind@),
    ensures
        !entry_with(pool, e.index, p),
{
    if entry_with(pool, e.index, p) {
        let f = choose|f: CpEntryFacts| pool.contains(f) && f.index == e.index && e.index != 0 && p(f.kind@);
        let i = choose|i: int| 0 <= i < pool.len() && pool[i] == e;
        let j = choose|j: int| 0 <= j < pool.len() && pool[j] == f;
        assert(i != j);
    }
}

proof fn lemma_absent_entry(pool: Seq<CpEntryFacts>, index: u16, p: spec_fn(CpKind) -> bool)
    requires
        !(index != 0 && crate::cpool::holds_index(pool, index)),
    ensures
        !entry_with(pool, index, p),
{
    if entry_with(pool, index, p) {
        let f = choose|f: CpEntryFacts| pool.contains(f) && f.index == index && index != 0 && p(f.kind@);
        let j = choose|j: int| 0 <= j < pool.len() && pool[j] == f;
        assert(pool[j].index == index);
    }
}

pub proof fn lemma_refused(pool: Seq<CpEntryFacts>, index: u16, p: spec_fn(CpKind) -> bool)
    requires
        crate::cpool::facts_sorted(pool),
        !(index != 0 && crate::cpool::holds_index(pool, index) && p(crate::cpool::fact_at(pool, index).kind@)),
    ensures
        !entry_with(pool, index, p),
{
    if index != 0 && crate::cpool::holds_index(pool, index) {
        let w = choose|w: int| 0 <= w < pool.len() && #[trigger] pool[w].index == index;
        assert(pool.contains(pool[w]));
        let f = crate::cpool::fact_at(pool, index);
        assert(pool.contains(f));
        lemma_sorted_entry_unique(pool, f, p);
    } else {
        lemma_absent_entry(pool, index, p);
    }
}

proof fn lemma_class_entry(pool: Seq<CpEntryFacts>, index: u16, name: Seq<u8>)
    requires
        class_named(pool, index, name),
    ensures
        entry_with(pool, index, |q: CpKind| q is Class),
{
    let e = choose|e: CpEntryFacts| pool.contains(e) && e.index == index && index != 0
        && (e.kind@ matches CpKind::Class { name: n, .. } && n == name);
    assert(pool.contains(e) && e.index == index && index != 0 && e.kind@ is Class);
}

pub proof fn lemma_utf8_entry(pool: Seq<CpEntryFacts>, index: u16, bytes: Seq<u8>)
    requires
        utf8_named(pool, index, bytes),
    ensures
        entry_with(pool, index, |q: CpKind| q is Utf8),
{
    let e = choose|e: CpEntryFacts| pool.contains(e) && e.index == index && index != 0
        && e.kind@ == (CpKind::Utf8 { bytes });
    assert(pool.contains(e) && e.index == index && index != 0 && e.kind@ is Utf8);
}

/// A run of class indexes at `at` that ends early: the content cannot hold its count, or
/// holds fewer indexes than the count declares, every index it holds naming a class.
pub open spec fn class_run_short(pool: Seq<CpEntryFacts>, c: Seq<u8>, at: int) -> bool {
    &&& 0 <= at
    &&& (at + 2 > c.len() || (at + 2 + 2 * be16(c, at) > c.len()
        && forall|k: int| 0 <= k < be16(c, at) && at + 2 + 2 * k + 2 <= c.len()
            ==> entry_with(pool, #[trigger] be16(c, at + 2 + 2 * k), |q: CpKind| q is Class)))
}

/// Reads a `u16` count and that many class indexes, each resolved to its internal name.
pub fn read_class_name_list(reader: &mut AttributeReader, pool: &[CpEntryFacts], budget: &Budget) -> (r: Result<Vec<JvmBytes>>)
    requires
        old(reader).wf(),
    ensures
        r matches Err(e) ==> crate::budget::honest_refusal(e, budget.limits_of()),
        final(reader).wf(),
        final(reader).content@ == old(reader).content@,
        r matches Ok(names) ==> old(reader).position + 2 + 2 * names@.len() == final(reader).position
            && class_run_ok(pool@, old(reader).content@, old(reader).position as int)
            && class_run_names(pool@, old(reader).content@, old(reader).position as int, names@),
        r matches Err(e) ==> is_read_error(e),
        r matches Err(e) ==> (!is_stop(e) && crate::cpool::facts_sorted(pool@)
            ==> !class_run_ok(pool@, old(reader).content@, old(reader).position as int)),
        class_run_short(pool@, old(reader).content@, old(reader).position as int) && crate::cpool::facts_sorted(pool@)
            ==> (r matches Err(e) && (is_stop(e) || is_invalid(e, "classfile_invalid_attribute_content"@))),
{
    let ghost start = old(reader).position as int;
    let ghost c = old(reader).content@;
    let count = reader.u16()?;
    let mut names: Vec<JvmBytes> = Vec::new();
    let mut i: u16 = 0;
    while i < count
        invariant
            reader.wf(),
            reader.content@ == c,
            c == old(reader).content@,
            start == old(reader).position,
            0 <= start,
            start + 2 <= c.len(),
            count == be16(c, start),
            i <= count,
            names@.len() == i,
            reader.position == start + 2 + 2 * i,
            forall|j: int| 0 <= j < names@.len() ==> class_named(pool@, be16(c, start + 2 + 2 * j), #[trigger] names@[j].0@),
        decreases count - i,
    {
        budget.poll()?;
        let index = reader.u16()?;
        let name = match cp_class_name(pool, index) {
            Ok(n) => n,
            Err(e) => {
                proof {
                    if crate::cpool::facts_sorted(pool@) {
                        lemma_refused(pool@, index, |q: CpKind| q is Class);
                        if class_run_short(pool@, c, start) {
                            assert(entry_with(pool@, be16(c, start + 2 + 2 * i), |q: CpKind| q is Class));
                        }
                    }
                }
                return Err(e);
            },
        };
        names.push(name);
        i = i + 1;
    }
    proof {
        assert forall|k: int| 0 <= k < be16(c, start) implies entry_with(pool@, #[trigger] be16(c, start + 2 + 2 * k), |q: CpKind| q is Class) by {
            lemma_class_entry(pool@, be16(c, start + 2 + 2 * k), names@[k].0@);
        }
    }
    Ok(names)
}

/// One `InnerClasses` entry.
#[derive(Clone, Debug, Eq, PartialEq)]
pub struct InnerClassFacts {
    pub class_index: u16,
    /// 0 when the class is not a member.
    pub outer_class_index: u16,
    /// `None` when `inner_name_index` is 0: the anonymous-class case, not a missing fact.
    pub inner_name: Option<JvmBytes>,
    pub access_flags: u16,
}

/// One `EnclosingMethod` attribute.
#[derive(Clone, Debug, Eq, PartialEq)]
pub struct EnclosingMethodFacts {
    pub class_index: u16,
    /// 0 when the class is not immediately enclosed by a method or constructor.
    pub method_index: u16,
}

/// One `Module` `provides` entry.
#[derive(Clone, Debug, Eq, PartialEq)]
pub struct ProvidesFacts {
    pub service: JvmBytes,
    pub implementations: Vec<JvmBytes>,
}

/// `Module` uses/provides facts.
#[derive(Clone, Debug, Eq, PartialEq)]
pub struct ModuleFacts {
    pub uses: Vec<JvmBytes>,
    pub provides: Vec<ProvidesFacts>,
}

/// Typed facts of the simple attributes of one shell list. `None` or empty means the attribute
/// was absent, never "unknown".
#[derive(Clone, Debug, Eq, PartialEq)]
pub struct AttributeFacts {
    pub signature: Option<JvmBytes>,
    pub exceptions: Vec<JvmBytes>,
    pub inner_classes: Vec<InnerClassFacts>,
    pub enclosing_method: Option<EnclosingMethodFacts>,
    pub nest_host: Option<JvmBytes>,
    pub nest_members: Vec<JvmBytes>,
    pub permitted_subclasses: Vec<JvmBytes>,
    pub constant_value: Option<CpIndexOf>,
    pub module: Option<ModuleFacts>,
}

impl AttributeFacts {
    /// The facts of a list that declares none of the recognised attributes.
    pub open spec fn is_empty_facts(&self) -> bool {
        &&& self.signature is None
        &&& self.exceptions@.len() == 0
        &&& self.inner_classes@.len() == 0
        &&& self.enclosing_method is None
        &&& self.nest_host is None
        &&& self.nest_members@.len() == 0
        &&& self.permitted_subclasses@.len() == 0
        &&& self.constant_value is None
        &&& self.module is None
    }
}

impl Default for AttributeFacts {
    fn default() -> (f: AttributeFacts)
        ensures
            f.is_empty_facts(),
    {
        AttributeFacts {
            signature: None,
            exceptions: Vec::new(),
            inner_classes: Vec::new(),
            enclosing_method: None,
            nest_host: None,
            nest_members: Vec::new(),
            permitted_subclasses: Vec::new(),
            constant_value: None,
            module: None,
        }
    }
}

/// Where the `k`-th entry of an `exports` or `opens` section starting at `s` lies: after the
/// `u16` count, each entry is an index, flags, a `u16` count and that many indexes.
pub open spec fn qualified_at(c: Seq<u8>, s: int, k: nat) -> int
    decreases k,
{
    if k == 0 {
        s + 2
    } else {
        let q = qualified_at(c, s, (k - 1) as nat);
        q + 6 + 2 * be16(c, q + 4)
    }
}

/// The `exports` or `opens` entry at `q` lies inside `c`.
pub open spec fn qualified_entry_ok(c: Seq<u8>, q: int) -> bool {
    q + 6 <= c.len() && q + 6 + 2 * be16(c, q + 4) <= c.len()
}

/// The section starting at `s` lies inside `c`.
pub open spec fn qualified_ok(c: Seq<u8>, s: int) -> bool {
    &&& 0 <= s
    &&& s + 2 <= c.len()
    &&& forall|k: nat| k < be16(c, s) ==> qualified_entry_ok(c, #[trigger] qualified_at(c, s, k))
}

/// Where the section starting at `s` ends.
pub open spec fn qualified_end(c: Seq<u8>, s: int) -> int {
    qualified_at(c, s, be16(c, s) as nat)
}

/// Where the `exports` section starts: after the module's name, flags and version indexes and
/// the `requires` entries of six bytes each.
pub open spec fn module_requires_end(c: Seq<u8>) -> int {
    8 + 6 * be16(c, 6)
}

pub open spec fn module_opens_start(c: Seq<u8>) -> int {
    qualified_end(c, module_requires_end(c))
}

pub open spec fn module_uses_start(c: Seq<u8>) -> int {
    qualified_end(c, module_opens_start(c))
}

pub open spec fn module_provides_start(c: Seq<u8>) -> int {
    let u = module_uses_start(c);
    u + 2 + 2 * be16(c, u)
}

/// Where the `k`-th `provides` entry of the section starting at `s` lies: a service index,
/// then a run of implementation indexes.
pub open spec fn provides_at(c: Seq<u8>, s: int, k: nat) -> int
    decreases k,
{
    if k == 0 {
        s + 2
    } else {
        let q = provides_at(c, s, (k - 1) as nat);
        q + 4 + 2 * be16(c, q + 2)
    }
}

/// The `provides` entry at `q` names classes only and lies inside `c`.
pub open spec fn provides_entry_ok(pool: Seq<CpEntryFacts>, c: Seq<u8>, q: int) -> bool {
    &&& q + 2 <= c.len()
    &&& entry_with(pool, be16(c, q), |k: CpKind| k is Class)
    &&& class_run_ok(pool, c, q + 2)
}

/// Every section of a `Module` content up to its last `provides` entry is whole, and every
/// `uses` and `provides` index names a class.
pub open spec fn module_prefix_ok(pool: Seq<CpEntryFacts>, c: Seq<u8>) -> bool {
    &&& 8 <= c.len()
    &&& module_requires_end(c) <= c.len()
    &&& qualified_ok(c, module_requires_end(c))
    &&& qualified_ok(c, module_opens_start(c))
    &&& class_run_ok(pool, c, module_uses_start(c))
    &&& module_provides_start(c) + 2 <= c.len()
    &&& forall|k: nat| k < be16(c, module_provides_start(c))
        ==> provides_entry_ok(pool, c, #[trigger] provides_at(c, module_provides_start(c), k))
}

/// Where the last `provides` entry of a `Module` content ends.
pub open spec fn module_end(c: Seq<u8>) -> int {
    let ps = module_provides_start(c);
    provides_at(c, ps, be16(c, ps) as nat)
}

/// `f` states the `provides` entry at `q`.
pub open spec fn provides_states(pool: Seq<CpEntryFacts>, c: Seq<u8>, q: int, f: ProvidesFacts) -> bool {
    class_named(pool, be16(c, q), f.service.0@) && class_run_names(pool, c, q + 2, f.implementations@)
}

/// `m` states the `uses` and `provides` sections of a `Module` content, in order.
pub open spec fn module_states(pool: Seq<CpEntryFacts>, c: Seq<u8>, m: ModuleFacts) -> bool {
    &&& class_run_names(pool, c, module_uses_start(c), m.uses@)
    &&& m.provides@.len() == be16(c, module_provides_start(c))
    &&& forall|k: int| 0 <= k < m.provides@.len()
        ==> provides_states(pool, c, provides_at(c, module_provides_start(c), k as nat), #[trigger] m.provides@[k])
}

/// Skips one `exports` or `opens` section of a `Module` attribute.
fn skip_qualified_module_section(reader: &mut AttributeReader, budget: &Budget) -> (r: Result<()>)
    requires
        old(reader).wf(),
    ensures
        r matches Err(e) ==> crate::budget::honest_refusal(e, budget.limits_of()),
        final(reader).wf(),
        final(reader).content@ == old(reader).content@,
        r is Ok ==> qualified_ok(old(reader).content@, old(reader).position as int)
            && final(reader).position == qualified_end(old(reader).content@, old(reader).position as int),
        r matches Err(e) ==> is_read_error(e),
        r matches Err(e) ==> (!is_stop(e) ==> !qualified_ok(old(reader).content@, old(reader).position as int)),
{
    let ghost c = old(reader).content@;
    let ghost s0 = old(reader).position as int;
    let count = reader.u16()?;
    let mut i: u16 = 0;
    while i < count
        invariant
            reader.wf(),
            reader.content@ == c,
            c == old(reader).content@,
            s0 == old(reader).position,
            0 <= s0,
            s0 + 2 <= c.len(),
            count == be16(c, s0),
            i <= count,
            reader.position == qualified_at(c, s0, i as nat),
            forall|k: nat| k < i ==> qualified_entry_ok(c, #[trigger] qualified_at(c, s0, k)),
        decreases count - i,
    {
        let ghost q = reader.position as int;
        assert(qualified_at(c, s0, (i + 1) as nat) == q + 6 + 2 * be16(c, q + 4));
        budget.poll()?;
        reader.skip(4)?;
        let to_count = reader.u16()? as usize;
        reader.skip(to_count * 2)?;
        assert(qualified_entry_ok(c, q));
        i = i + 1;
    }
    Ok(())
}

/// Reads the `Module` attribute up to `uses` and `provides`; requires, exports and opens are
/// measured so the cursor reaches those sections, and never retained.
#[verifier::rlimit(40)]
fn read_module_facts(reader: &mut AttributeReader, pool: &[CpEntryFacts], budget: &Budget) -> (r: Result<ModuleFacts>)
    requires
        old(reader).wf(),
        old(reader).position == 0,
    ensures
        r matches Err(e) ==> crate::budget::honest_refusal(e, budget.limits_of()),
        final(reader).wf(),
        final(reader).content@ == old(reader).content@,
        r matches Ok(m) ==> module_prefix_ok(pool@, old(reader).content@)
            && final(reader).position == module_end(old(reader).content@)
            && module_states(pool@, old(reader).content@, m),
        r matches Err(e) ==> is_read_error(e),
        r matches Err(e) ==> (!is_stop(e) && crate::cpool::facts_sorted(pool@) ==> !module_prefix_ok(pool@, old(reader).content@)),
{
    let ghost c = old(reader).content@;
    reader.skip(6)?;
    let requires_count = reader.u16()?;
    let mut i: u16 = 0;
    while i < requires_count
        invariant
            reader.wf(),
            reader.content@ == c,
            c == old(reader).content@,
            8 <= c.len(),
            requires_count == be16(c, 6),
            i <= requires_count,
            reader.position == 8 + 6 * i,
        decreases requires_count - i,
    {
        budget.poll()?;
        reader.skip(6)?;
        i = i + 1;
    }
    assert(reader.position == module_requires_end(c));
    skip_qualified_module_section(reader, budget)?;
    assert(reader.position == module_opens_start(c));
    skip_qualified_module_section(reader, budget)?;
    assert(reader.position == module_uses_start(c));
    let uses = read_class_name_list(reader, pool, budget)?;
    assert(reader.position == module_provides_start(c));
    let ghost ps = module_provides_start(c);
    let provides_count = reader.u16()?;
    let mut provides: Vec<ProvidesFacts> = Vec::new();
    let mut p: u16 = 0;
    while p < provides_count
        invariant
            reader.wf(),
            reader.content@ == c,
            c == old(reader).content@,
            8 <= c.len(),
            module_requires_end(c) <= c.len(),
            qualified_ok(c, module_requires_end(c)),
            qualified_ok(c, module_opens_start(c)),
            class_run_ok(pool@, c, module_uses_start(c)),
            class_run_names(pool@, c, module_uses_start(c), uses@),
            ps == module_provides_start(c),
            ps + 2 <= c.len(),
            provides_count == be16(c, ps),
            p <= provides_count,
            provides@.len() == p,
            reader.position == provides_at(c, ps, p as nat),
            forall|k: nat| k < p ==> provides_entry_ok(pool@, c, #[trigger] provides_at(c, ps, k)),
            forall|k: int| 0 <= k < provides@.len() ==> provides_states(pool@, c, provides_at(c, ps, k as nat), #[trigger] provides@[k]),
        decreases provides_count - p,
    {
        let ghost q = reader.position as int;
        assert(provides_at(c, ps, (p + 1) as nat) == q + 4 + 2 * be16(c, q + 2));
        budget.poll()?;
        let service_index = reader.u16()?;
        let service = match cp_class_name(pool, service_index) {
            Ok(n) => n,
            Err(e) => {
                proof {
                    if crate::cpool::facts_sorted(pool@) {
                        lemma_refused(pool@, service_index, |k: CpKind| k is Class);
                        assert(!provides_entry_ok(pool@, c, provides_at(c, ps, p as nat)));
                    }
                }
                return Err(e);
            },
        };
        let implementations = match read_class_name_list(reader, pool, budget) {
            Ok(v) => v,
            Err(e) => {
                proof {
                    assert(!is_stop(e) && crate::cpool::facts_sorted(pool@) ==> !provides_entry_ok(pool@, c, provides_at(c, ps, p as nat)));
                }
                return Err(e);
            },
        };
        proof {
            lemma_class_entry(pool@, service_index, service.0@);
        }
        let f = ProvidesFacts { service, implementations };
        assert(provides_states(pool@, c, q, f));
        assert(provides_entry_ok(pool@, c, q));
        provides.push(f);
        p = p + 1;
    }
    Ok(ModuleFacts { uses, provides })
}

/// The content bytes a shell's content span covers.
pub open spec fn content_of(bytes: Seq<u8>, s: AttributeShell) -> Seq<u8> {
    crate::header::span_bytes(bytes, s.content_span)
}

/// The recognised single-valued attribute a raw name spells, if any.
pub open spec fn kind_of(raw: Seq<u8>) -> Option<UniqueAttribute> {
    if raw == crate::names::signature_name() {
        Some(UniqueAttribute::Signature)
    } else if raw == crate::names::exceptions_name() {
        Some(UniqueAttribute::Exceptions)
    } else if raw == crate::names::inner_classes_name() {
        Some(UniqueAttribute::InnerClasses)
    } else if raw == crate::names::enclosing_method_name() {
        Some(UniqueAttribute::EnclosingMethod)
    } else if raw == crate::names::nest_host_name() {
        Some(UniqueAttribute::NestHost)
    } else if raw == crate::names::nest_members_name() {
        Some(UniqueAttribute::NestMembers)
    } else if raw == crate::names::permitted_subclasses_name() {
        Some(UniqueAttribute::PermittedSubclasses)
    } else if raw == crate::names::constant_value_name() {
        Some(UniqueAttribute::ConstantValue)
    } else if raw == crate::names::module_name() {
        Some(UniqueAttribute::Module)
    } else {
        None
    }
}

/// The shell at `j` is a `kind` attribute.
pub open spec fn shell_is(shells: Seq<AttributeShell>, j: int, kind: UniqueAttribute) -> bool {
    kind_of(shells[j].name.raw_bytes()) == Some(kind)
}

/// Some shell of the list is a `kind` attribute whose content satisfies `p`.
pub open spec fn declared_with(bytes: Seq<u8>, shells: Seq<AttributeShell>, kind: UniqueAttribute, p: spec_fn(Seq<u8>) -> bool) -> bool {
    exists|j: int| 0 <= j < shells.len() && #[trigger] shell_is(shells, j, kind) && p(content_of(bytes, shells[j]))
}

/// No shell among the first `n` is a `kind` attribute.
pub open spec fn undeclared(shells: Seq<AttributeShell>, n: int, kind: UniqueAttribute) -> bool {
    forall|j: int| 0 <= j < n ==> !#[trigger] shell_is(shells, j, kind)
}

/// A content that is exactly one `u16`.
pub open spec fn one_u16(c: Seq<u8>, v: u16) -> bool {
    c.len() == 2 && be16(c, 0) == v
}

/// A content that is a `u16` count of class indexes naming `names`, in order.
pub open spec fn class_list(pool: Seq<CpEntryFacts>, c: Seq<u8>, names: Seq<JvmBytes>) -> bool {
    &&& c.len() == 2 + 2 * names.len()
    &&& be16(c, 0) == names.len()
    &&& forall|k: int| 0 <= k < names.len() ==> class_named(pool, be16(c, 2 + 2 * k), #[trigger] names[k].0@)
}

/// A content that is a `u16` count of `InnerClasses` records stating `entries`, in order.
pub open spec fn inner_list(pool: Seq<CpEntryFacts>, c: Seq<u8>, entries: Seq<InnerClassFacts>) -> bool {
    &&& c.len() == 2 + 8 * entries.len()
    &&& be16(c, 0) == entries.len()
    &&& forall|k: int| 0 <= k < entries.len() ==> inner_entry(pool, c, 2 + 8 * k, #[trigger] entries[k])
}

pub open spec fn inner_entry(pool: Seq<CpEntryFacts>, c: Seq<u8>, at: int, e: InnerClassFacts) -> bool {
    &&& e.class_index == be16(c, at)
    &&& e.outer_class_index == be16(c, at + 2)
    &&& e.access_flags == be16(c, at + 6)
    &&& (be16(c, at + 4) == 0 ==> e.inner_name is None)
    &&& (be16(c, at + 4) != 0 ==> (e.inner_name matches Some(n) && utf8_named(pool, be16(c, at + 4), n.0@)))
}

/// What the field of `f` for `k` states of the `k` attribute content `c`.
pub open spec fn field_states(pool: Seq<CpEntryFacts>, k: UniqueAttribute, c: Seq<u8>, f: AttributeFacts) -> bool {
    match k {
        UniqueAttribute::Signature => f.signature matches Some(b) && c.len() == 2 && utf8_named(pool, be16(c, 0), b.0@),
        UniqueAttribute::Exceptions => class_list(pool, c, f.exceptions@),
        UniqueAttribute::InnerClasses => inner_list(pool, c, f.inner_classes@),
        UniqueAttribute::EnclosingMethod => f.enclosing_method matches Some(m) && c.len() == 4
            && be16(c, 0) == m.class_index && be16(c, 2) == m.method_index,
        UniqueAttribute::NestHost => f.nest_host matches Some(b) && c.len() == 2 && class_named(pool, be16(c, 0), b.0@),
        UniqueAttribute::NestMembers => class_list(pool, c, f.nest_members@),
        UniqueAttribute::PermittedSubclasses => class_list(pool, c, f.permitted_subclasses@),
        UniqueAttribute::ConstantValue => f.constant_value matches Some(CpIndexOf(v)) && one_u16(c, v),
        UniqueAttribute::Module => f.module matches Some(m) && module_end(c) == c.len() && module_states(pool, c, m),
        _ => true,
    }
}

/// The field of `f` for `k` states that no `k` attribute was read.
pub open spec fn field_absent(k: UniqueAttribute, f: AttributeFacts) -> bool {
    match k {
        UniqueAttribute::Signature => f.signature is None,
        UniqueAttribute::Exceptions => f.exceptions@.len() == 0,
        UniqueAttribute::InnerClasses => f.inner_classes@.len() == 0,
        UniqueAttribute::EnclosingMethod => f.enclosing_method is None,
        UniqueAttribute::NestHost => f.nest_host is None,
        UniqueAttribute::NestMembers => f.nest_members@.len() == 0,
        UniqueAttribute::PermittedSubclasses => f.permitted_subclasses@.len() == 0,
        UniqueAttribute::ConstantValue => f.constant_value is None,
        UniqueAttribute::Module => f.module is None,
        _ => true,
    }
}

/// The fields of `a` and `b` other than the one for `k` are the same.
pub open spec fn others_kept(k: UniqueAttribute, a: AttributeFacts, b: AttributeFacts) -> bool {
    &&& (k != UniqueAttribute::Signature ==> a.signature == b.signature)
    &&& (k != UniqueAttribute::Exceptions ==> a.exceptions@ == b.exceptions@)
    &&& (k != UniqueAttribute::InnerClasses ==> a.inner_classes@ == b.inner_classes@)
    &&& (k != UniqueAttribute::EnclosingMethod ==> a.enclosing_method == b.enclosing_method)
    &&& (k != UniqueAttribute::NestHost ==> a.nest_host == b.nest_host)
    &&& (k != UniqueAttribute::NestMembers ==> a.nest_members@ == b.nest_members@)
    &&& (k != UniqueAttribute::PermittedSubclasses ==> a.permitted_subclasses@ == b.permitted_subclasses@)
    &&& (k != UniqueAttribute::ConstantValue ==> a.constant_value == b.constant_value)
    &&& (k != UniqueAttribute::Module ==> a.module == b.module)
}

/// Either a `k` attribute of the list is stated by `f`, or no `k` attribute is among the
/// first `n` shells and `f` states none.
pub open spec fn kind_agrees(bytes: Seq<u8>, shells: Seq<AttributeShell>, pool: Seq<CpEntryFacts>, n: int, k: UniqueAttribute, f: AttributeFacts) -> bool {
    ||| declared_with(bytes, shells, k, |c: Seq<u8>| field_states(pool, k, c, f))
    ||| field_absent(k, f) && undeclared(shells, n, k)
}

/// What the facts of the first `n` shells state, attribute by attribute.
pub open spec fn facts_agree(bytes: Seq<u8>, shells: Seq<AttributeShell>, pool: Seq<CpEntryFacts>, n: int, f: AttributeFacts) -> bool {
    forall|k: UniqueAttribute| #[trigger] kind_agrees(bytes, shells, pool, n, k, f)
}

/// A `k` attribute content that is whole, ends where its structure ends, and names entries of
/// the kinds its structure asks for.
pub open spec fn content_ok(pool: Seq<CpEntryFacts>, k: UniqueAttribute, c: Seq<u8>) -> bool {
    match k {
        UniqueAttribute::Signature => c.len() == 2 && entry_with(pool, be16(c, 0), |q: CpKind| q is Utf8),
        UniqueAttribute::Exceptions | UniqueAttribute::NestMembers | UniqueAttribute::PermittedSubclasses =>
            class_run_ok(pool, c, 0) && c.len() == 2 + 2 * be16(c, 0),
        UniqueAttribute::InnerClasses => inner_ok(pool, c) && c.len() == 2 + 8 * be16(c, 0),
        UniqueAttribute::EnclosingMethod => c.len() == 4,
        UniqueAttribute::NestHost => c.len() == 2 && entry_with(pool, be16(c, 0), |q: CpKind| q is Class),
        UniqueAttribute::ConstantValue => c.len() == 2,
        UniqueAttribute::Module => module_prefix_ok(pool, c) && module_end(c) == c.len(),
        _ => true,
    }
}

/// The shell at `j`, when it is a recognised attribute, lies inside the bytes with a sound content.
pub open spec fn shell_readable(bytes: Seq<u8>, shells: Seq<AttributeShell>, pool: Seq<CpEntryFacts>, j: int) -> bool {
    match kind_of(shells[j].name.raw_bytes()) {
        None => true,
        Some(k) => shell_matches_inside(bytes, shells[j]) && content_ok(pool, k, content_of(bytes, shells[j])),
    }
}

/// A shell list whose recognised attributes all read: none twice, each one sound.
pub open spec fn attributes_readable(bytes: Seq<u8>, shells: Seq<AttributeShell>, pool: Seq<CpEntryFacts>) -> bool {
    &&& no_duplicates(shells, shells.len() as int)
    &&& forall|j: int| 0 <= j < shells.len() ==> #[trigger] shell_readable(bytes, shells, pool, j)
}

/// No recognised single-valued attribute occurs twice among the first `n` shells.
pub open spec fn no_duplicates(shells: Seq<AttributeShell>, n: int) -> bool {
    forall|j1: int, j2: int, k: UniqueAttribute| 0 <= j1 < j2 < n && #[trigger] shell_is(shells, j1, k)
        ==> !#[trigger] shell_is(shells, j2, k)
}

/// Shell `i` is a single-valued attribute that an earlier shell of the list already declared.
pub open spec fn repeats_earlier(shells: Seq<AttributeShell>, i: int) -> bool {
    exists|j: int, k: UniqueAttribute| 0 <= j < i && #[trigger] shell_is(shells, j, k) && shell_is(shells, i, k)
}

/// The first shell a read of the list stops at repeats an earlier single-valued attribute:
/// every shell before it reads.
pub open spec fn stops_at_repeat(bytes: Seq<u8>, shells: Seq<AttributeShell>, pool: Seq<CpEntryFacts>) -> bool {
    exists|i: int| 0 <= i < shells.len() && #[trigger] repeats_earlier(shells, i)
        && forall|j: int| 0 <= j < i ==> #[trigger] shell_readable(bytes, shells, pool, j)
}

/// A read that stops at a shell which repeats nothing and does not read has not stopped at a
/// repeat.
proof fn lemma_no_repeat_stop(bytes: Seq<u8>, shells: Seq<AttributeShell>, pool: Seq<CpEntryFacts>, i: int)
    requires
        0 <= i < shells.len(),
        no_duplicates(shells, i + 1),
        !shell_readable(bytes, shells, pool, i),
    ensures
        !stops_at_repeat(bytes, shells, pool),
{
    if stops_at_repeat(bytes, shells, pool) {
        let i2 = choose|i2: int| 0 <= i2 < shells.len() && #[trigger] repeats_earlier(shells, i2)
            && forall|j: int| 0 <= j < i2 ==> #[trigger] shell_readable(bytes, shells, pool, j);
        if i2 <= i {
            let (j, k) = choose|j: int, k: UniqueAttribute| 0 <= j < i2 && #[trigger] shell_is(shells, j, k) && shell_is(shells, i2, k);
            assert(shell_is(shells, j, k) && shell_is(shells, i2, k));
        } else {
            assert(shell_readable(bytes, shells, pool, i));
        }
    }
}

/// The read of a shell list stops at shell `i` on a content of the wrong size: every shell
/// before it reads, it repeats no earlier attribute, it lies inside the bytes, and its content
/// does not have the size its declared structure gives.
pub open spec fn misfit_at(bytes: Seq<u8>, shells: Seq<AttributeShell>, pool: Seq<CpEntryFacts>, i: int) -> bool {
    &&& 0 <= i < shells.len()
    &&& no_duplicates(shells, i + 1)
    &&& forall|j: int| 0 <= j < i ==> #[trigger] shell_readable(bytes, shells, pool, j)
    &&& (kind_of(shells[i].name.raw_bytes()) matches Some(k) && shell_matches_inside(bytes, shells[i])
        && shape_misfit(pool, k, content_of(bytes, shells[i])))
}

/// Some shell of the list is where its read stops on a content of the wrong size.
pub open spec fn stops_at_misfit(bytes: Seq<u8>, shells: Seq<AttributeShell>, pool: Seq<CpEntryFacts>) -> bool {
    exists|i: int| #[trigger] misfit_at(bytes, shells, pool, i)
}

/// A read that reaches shell `i2` with every earlier shell read, and cannot pass it, stops on a
/// misfit only at `i2`.
proof fn lemma_misfit_is_at(bytes: Seq<u8>, shells: Seq<AttributeShell>, pool: Seq<CpEntryFacts>, i2: int)
    requires
        0 <= i2 < shells.len(),
        forall|j: int| 0 <= j < i2 ==> #[trigger] shell_readable(bytes, shells, pool, j),
        !shell_readable(bytes, shells, pool, i2) || repeats_earlier(shells, i2),
        stops_at_misfit(bytes, shells, pool),
    ensures
        misfit_at(bytes, shells, pool, i2),
{
    let i = choose|i: int| #[trigger] misfit_at(bytes, shells, pool, i);
    assert(!shell_readable(bytes, shells, pool, i));
    if i < i2 {
        assert(shell_readable(bytes, shells, pool, i));
    } else if i > i2 {
        assert(shell_readable(bytes, shells, pool, i2));
        let (j, k) = choose|j: int, k: UniqueAttribute| 0 <= j < i2 && #[trigger] shell_is(shells, j, k) && shell_is(shells, i2, k);
        assert(shell_is(shells, j, k) && shell_is(shells, i2, k));
    }
}

/// A read, span or budget error is no duplicate-attribute refusal.
proof fn lemma_not_duplicate(e: Error)
    requires
        is_read_error(e) || is_bad_span(e) || is_span_overflow(e)
            || is_budget(e, CountedBudgetDimension::AttributeBytes.dim()),
    ensures
        !is_invalid(e, "classfile_duplicate_attribute"@),
{
    reveal_strlit("classfile_duplicate_attribute");
    reveal_strlit("classfile_invalid_attribute_content");
    reveal_strlit("classfile_span_overflow");
    reveal_strlit("classfile_invalid_constant_pool_index");
    reveal_strlit("classfile_constant_pool_tag_mismatch");
    reveal_strlit("classfile_invalid_attribute_span");
    if e is InvalidInput {
        let code = e->InvalidInput_code@;
        if code == "classfile_duplicate_attribute"@ {
            assert(code[10] == 'd');
            assert("classfile_invalid_attribute_content"@[10] == 'i');
            assert("classfile_span_overflow"@[10] == 's');
            assert("classfile_constant_pool_tag_mismatch"@[10] == 'c');
        }
    }
}

/// No shell of the list has a name the attribute-fact read recognises.
pub open spec fn none_recognized(shells: Seq<AttributeShell>) -> bool {
    forall|j: int| 0 <= j < shells.len() ==> kind_of(#[trigger] shells[j].name.raw_bytes()) is None
}

/// An error an attribute-fact read stops with.
pub open spec fn is_attribute_error(e: Error) -> bool {
    ||| is_read_error(e)
    ||| is_bad_span(e)
    ||| is_span_overflow(e)
    ||| is_budget(e, CountedBudgetDimension::AttributeBytes.dim())
    ||| is_invalid(e, "classfile_duplicate_attribute"@)
}

fn shell_kind(raw: &[u8]) -> (k: Option<UniqueAttribute>)
    ensures
        k == kind_of(raw@),
{
    if is_signature(raw) {
        Some(UniqueAttribute::Signature)
    } else if is_exceptions(raw) {
        Some(UniqueAttribute::Exceptions)
    } else if is_inner_classes(raw) {
        Some(UniqueAttribute::InnerClasses)
    } else if is_enclosing_method(raw) {
        Some(UniqueAttribute::EnclosingMethod)
    } else if is_nest_host(raw) {
        Some(UniqueAttribute::NestHost)
    } else if is_nest_members(raw) {
        Some(UniqueAttribute::NestMembers)
    } else if is_permitted_subclasses(raw) {
        Some(UniqueAttribute::PermittedSubclasses)
    } else if is_constant_value(raw) {
        Some(UniqueAttribute::ConstantValue)
    } else if is_module(raw) {
        Some(UniqueAttribute::Module)
    } else {
        None
    }
}

/// An `InnerClasses` content whose records all lie inside it and whose non-zero inner name
/// indexes are `CONSTANT_Utf8` entries.
pub open spec fn inner_ok(pool: Seq<CpEntryFacts>, c: Seq<u8>) -> bool {
    &&& 2 <= c.len()
    &&& 2 + 8 * be16(c, 0) <= c.len()
    &&& forall|k: int| 0 <= k < be16(c, 0) ==> #[trigger] be16(c, 2 + 8 * k + 4) == 0
        || entry_with(pool, be16(c, 2 + 8 * k + 4), |q: CpKind| q is Utf8)
}

/// An `InnerClasses` table that ends early: the content cannot hold its count, or holds fewer
/// whole records than the count declares, every whole record naming its inner class soundly.
pub open spec fn inner_short(pool: Seq<CpEntryFacts>, c: Seq<u8>) -> bool {
    ||| 2 > c.len()
    ||| (2 + 8 * be16(c, 0) > c.len() && forall|k: int| 0 <= k < be16(c, 0) && 2 + 8 * k + 8 <= c.len()
        ==> #[trigger] be16(c, 2 + 8 * k + 4) == 0 || entry_with(pool, be16(c, 2 + 8 * k + 4), |q: CpKind| q is Utf8))
}

fn read_inner_classes(reader: &mut AttributeReader, pool: &[CpEntryFacts], budget: &Budget) -> (r: Result<Vec<InnerClassFacts>>)
    requires
        old(reader).wf(),
        old(reader).position == 0,
    ensures
        r matches Err(e) ==> crate::budget::honest_refusal(e, budget.limits_of()),
        final(reader).wf(),
        final(reader).content@ == old(reader).content@,
        r matches Ok(v) ==> final(reader).position == 2 + 8 * v@.len() && inner_ok(pool@, old(reader).content@)
            && be16(old(reader).content@, 0) == v@.len()
            && forall|k: int| 0 <= k < v@.len() ==> inner_entry(pool@, old(reader).content@, 2 + 8 * k, #[trigger] v@[k]),
        r matches Err(e) ==> is_read_error(e),
        r matches Err(e) ==> (!is_stop(e) && crate::cpool::facts_sorted(pool@) ==> !inner_ok(pool@, old(reader).content@)),
        inner_short(pool@, old(reader).content@) && crate::cpool::facts_sorted(pool@)
            ==> (r matches Err(e) && (is_stop(e) || is_invalid(e, "classfile_invalid_attribute_content"@))),
{
    let ghost c = old(reader).content@;
    let count = reader.u16()?;
    let mut entries: Vec<InnerClassFacts> = Vec::new();
    let mut i: u16 = 0;
    while i < count
        invariant
            reader.wf(),
            reader.content@ == c,
            c == old(reader).content@,
            2 <= c.len(),
            count == be16(c, 0),
            i <= count,
            entries@.len() == i,
            reader.position == 2 + 8 * i,
            forall|k: int| 0 <= k < entries@.len() ==> inner_entry(pool@, c, 2 + 8 * k, #[trigger] entries@[k]),
        decreases count - i,
    {
        budget.poll()?;
        let class_index = reader.u16()?;
        let outer_class_index = reader.u16()?;
        let inner_name_index = reader.u16()?;
        let access_flags = reader.u16()?;
        let inner_name = if inner_name_index == 0 {
            None
        } else {
            match cp_utf8(pool, inner_name_index) {
                Ok(b) => Some(b),
                Err(e) => {
                    proof {
                        if crate::cpool::facts_sorted(pool@) {
                            lemma_refused(pool@, inner_name_index, |q: CpKind| q is Utf8);
                            assert(be16(c, 2 + 8 * i + 4) == inner_name_index);
                            if inner_short(pool@, c) {
                                assert(2 + 8 * i + 8 <= c.len());
                            }
                        }
                    }
                    return Err(e);
                },
            }
        };
        let entry = InnerClassFacts { class_index, outer_class_index, inner_name, access_flags };
        entries.push(entry);
        i = i + 1;
    }
    proof {
        assert forall|k: int| 0 <= k < be16(c, 0) implies #[trigger] be16(c, 2 + 8 * k + 4) == 0
            || entry_with(pool@, be16(c, 2 + 8 * k + 4), |q: CpKind| q is Utf8) by {
            assert(inner_entry(pool@, c, 2 + 8 * k, entries@[k]));
            if be16(c, 2 + 8 * k + 4) != 0 {
                lemma_utf8_entry(pool@, be16(c, 2 + 8 * k + 4), entries@[k].inner_name->Some_0.0@);
            }
        }
    }
    Ok(entries)
}

/// The content of a recognised attribute of kind `k` does not have the size its declared
/// structure gives, every reference read before that shows being sound, so that its read ends
/// on the content refusal: a fixed-size content of another size, a run of class indexes that
/// ends early or is followed by unread bytes, an `InnerClasses` table that ends early or is
/// followed by unread bytes, a `Module` body followed by unread bytes.
pub open spec fn shape_misfit(pool: Seq<CpEntryFacts>, k: UniqueAttribute, c: Seq<u8>) -> bool {
    match k {
        UniqueAttribute::Signature | UniqueAttribute::NestHost | UniqueAttribute::ConstantValue => c.len() != 2,
        UniqueAttribute::EnclosingMethod => c.len() != 4,
        UniqueAttribute::Exceptions | UniqueAttribute::NestMembers | UniqueAttribute::PermittedSubclasses =>
            class_run_short(pool, c, 0) || (class_run_ok(pool, c, 0) && c.len() != 2 + 2 * be16(c, 0)),
        UniqueAttribute::InnerClasses => inner_short(pool, c) || (inner_ok(pool, c) && c.len() != 2 + 8 * be16(c, 0)),
        UniqueAttribute::Module => module_prefix_ok(pool, c) && module_end(c) != c.len(),
        _ => false,
    }
}

/// Reads one recognised attribute content into the field of `facts` for `k`.
fn read_attribute(k: UniqueAttribute, content: &[u8], pool: &[CpEntryFacts], budget: &Budget, facts: &mut AttributeFacts) -> (r: Result<()>)
    requires
        k != UniqueAttribute::Record,
        k != UniqueAttribute::BootstrapMethods,
    ensures
        r matches Err(e) ==> crate::budget::honest_refusal(e, budget.limits_of()),
        r is Ok ==> content_ok(pool@, k, content@) && field_states(pool@, k, content@, *final(facts))
            && others_kept(k, *old(facts), *final(facts)),
        r matches Err(e) ==> is_read_error(e),
        r matches Err(e) ==> (!is_stop(e) && crate::cpool::facts_sorted(pool@) ==> !content_ok(pool@, k, content@)),
        shape_misfit(pool@, k, content@) && crate::cpool::facts_sorted(pool@)
            ==> (r matches Err(e) && (is_stop(e) || is_invalid(e, "classfile_invalid_attribute_content"@))),
{
    let ghost c = content@;
    let mut reader = AttributeReader::new(content);
    match k {
        UniqueAttribute::Signature => {
            let index = reader.u16()?;
            reader.expect_end()?;
            match cp_utf8(pool, index) {
                Ok(b) => {
                    proof {
                        lemma_utf8_entry(pool@, index, b.0@);
                    }
                    facts.signature = Some(b);
                },
                Err(e) => {
                    proof {
                        if crate::cpool::facts_sorted(pool@) {
                            lemma_refused(pool@, index, |q: CpKind| q is Utf8);
                        }
                    }
                    return Err(e);
                },
            }
        },
        UniqueAttribute::Exceptions => {
            facts.exceptions = read_class_name_list(&mut reader, pool, budget)?;
            reader.expect_end()?;
        },
        UniqueAttribute::InnerClasses => {
            facts.inner_classes = read_inner_classes(&mut reader, pool, budget)?;
            reader.expect_end()?;
        },
        UniqueAttribute::EnclosingMethod => {
            let class_index = reader.u16()?;
            let method_index = reader.u16()?;
            reader.expect_end()?;
            facts.enclosing_method = Some(EnclosingMethodFacts { class_index, method_index });
        },
        UniqueAttribute::NestHost => {
            let index = reader.u16()?;
            reader.expect_end()?;
            match cp_class_name(pool, index) {
                Ok(b) => {
                    proof {
                        lemma_class_entry(pool@, index, b.0@);
                    }
                    facts.nest_host = Some(b);
                },
                Err(e) => {
                    proof {
                        if crate::cpool::facts_sorted(pool@) {
                            lemma_refused(pool@, index, |q: CpKind| q is Class);
                        }
                    }
                    return Err(e);
                },
            }
        },
        UniqueAttribute::NestMembers => {
            facts.nest_members = read_class_name_list(&mut reader, pool, budget)?;
            reader.expect_end()?;
        },
        UniqueAttribute::PermittedSubclasses => {
            facts.permitted_subclasses = read_class_name_list(&mut reader, pool, budget)?;
            reader.expect_end()?;
        },
        UniqueAttribute::ConstantValue => {
            let index = reader.u16()?;
            reader.expect_end()?;
            facts.constant_value = Some(CpIndexOf(index));
        },
        _ => {
            let m = read_module_facts(&mut reader, pool, budget)?;
            reader.expect_end()?;
            facts.module = Some(m);
        },
    }
    Ok(())
}

proof fn lemma_agree_step(bytes: Seq<u8>, shells: Seq<AttributeShell>, pool: Seq<CpEntryFacts>, i: int,
    before: AttributeFacts, after: AttributeFacts)
    requires
        0 <= i < shells.len(),
        facts_agree(bytes, shells, pool, i, before),
        kind_of(shells[i].name.raw_bytes()) is None ==> after == before,
        kind_of(shells[i].name.raw_bytes()) matches Some(k) ==> field_states(pool, k, content_of(bytes, shells[i]), after)
            && others_kept(k, before, after),
    ensures
        facts_agree(bytes, shells, pool, i + 1, after),
{
    assert forall|q: UniqueAttribute| #[trigger] kind_agrees(bytes, shells, pool, i + 1, q, after) by {
        if kind_of(shells[i].name.raw_bytes()) == Some(q) {
            assert(shell_is(shells, i, q));
        } else {
            assert(kind_agrees(bytes, shells, pool, i, q, before));
            assert(!shell_is(shells, i, q));
            let same = kind_of(shells[i].name.raw_bytes()) is None || others_kept(kind_of(shells[i].name.raw_bytes())->Some_0, before, after);
            assert(same);
            assert(field_absent(q, before) == field_absent(q, after));
            assert(forall|c: Seq<u8>| field_states(pool, q, c, before) == #[trigger] field_states(pool, q, c, after));
            if declared_with(bytes, shells, q, |c: Seq<u8>| field_states(pool, q, c, before)) {
                let j = choose|j: int| 0 <= j < shells.len() && #[trigger] shell_is(shells, j, q)
                    && field_states(pool, q, content_of(bytes, shells[j]), before);
                assert(field_states(pool, q, content_of(bytes, shells[j]), after));
            }
        }
    }
}

/// Reads the simple class-level or member-level attributes of one shell list.
///
/// Only `Signature`, `Exceptions`, `InnerClasses`, `EnclosingMethod`, `NestHost`, `NestMembers`,
/// `PermittedSubclasses`, `ConstantValue` and `Module` are read; every other attribute is left
/// untouched. A recognised attribute that appears twice, and content that does not match its
/// declared structure, are structured errors.
#[verifier::rlimit(60)]
pub fn attribute_facts(bytes: &[u8], shells: &[AttributeShell], pool: &[CpEntryFacts], budget: &mut Budget) -> (r: Result<AttributeFacts>)
    ensures
        r matches Err(e) ==> crate::budget::honest_refusal(e, old(budget).limits_of()),
        final(budget).limits_of() == old(budget).limits_of(),
        r matches Ok(f) ==> attributes_readable(bytes@, shells@, pool@)
            && facts_agree(bytes@, shells@, pool@, shells@.len() as int, f),
        r matches Err(e) ==> is_attribute_error(e),
        r matches Err(e) ==> (!is_stop(e) && !is_budget(e, CountedBudgetDimension::AttributeBytes.dim())
            && crate::cpool::facts_sorted(pool@) ==> !attributes_readable(bytes@, shells@, pool@)),
        r matches Err(e) ==> (is_invalid(e, "classfile_duplicate_attribute"@) ==> !no_duplicates(shells@, shells@.len() as int)
            && stops_at_repeat(bytes@, shells@, pool@)),
        r matches Err(e) ==> (!is_stop(e) && !is_budget(e, CountedBudgetDimension::AttributeBytes.dim())
            && crate::cpool::facts_sorted(pool@) && stops_at_repeat(bytes@, shells@, pool@)
            ==> is_invalid(e, "classfile_duplicate_attribute"@)),
        none_recognized(shells@) ==> (r matches Err(e) ==> is_stop(e)) && final(budget).usage_of() == old(budget).usage_of(),
        none_recognized(shells@) ==> (r matches Ok(f) ==> f.is_empty_facts()),
        r matches Err(e) ==> (!is_stop(e) && !is_budget(e, CountedBudgetDimension::AttributeBytes.dim())
            && crate::cpool::facts_sorted(pool@) && stops_at_misfit(bytes@, shells@, pool@)
            ==> is_invalid(e, "classfile_invalid_attribute_content"@)),
{
    let mut facts = AttributeFacts::default();
    let ghost empty = facts;
    let mut seen: Vec<UniqueAttribute> = Vec::new();
    let mut i: usize = 0;
    proof {
        assert forall|q: UniqueAttribute| #[trigger] kind_agrees(bytes@, shells@, pool@, 0, q, facts) by {
            assert(field_absent(q, facts));
        }
    }
    while i < shells.len()
        invariant
            i <= shells@.len(),
            budget.limits_of() == old(budget).limits_of(),
            facts_agree(bytes@, shells@, pool@, i as int, facts),
            no_duplicates(shells@, i as int),
            none_recognized(shells@) ==> budget.usage_of() == old(budget).usage_of(),
            none_recognized(shells@) ==> facts == empty,
            empty.is_empty_facts(),
            forall|j: int| 0 <= j < i ==> #[trigger] shell_readable(bytes@, shells@, pool@, j),
            forall|k: UniqueAttribute| seen@.contains(k) <==> exists|j: int| 0 <= j < i && #[trigger] shell_is(shells@, j, k),
        decreases shells@.len() - i,
    {
        budget.poll()?;
        let shell = &shells[i];
        let kind = shell_kind(&shell.name.raw().0);
        let ghost before = facts;
        match kind {
            None => {},
            Some(k) => {
                let ghost seen_before = seen@;
                assert(shell_is(shells@, i as int, k));
                match ensure_unique(&mut seen, k) {
                    Ok(()) => {},
                    Err(e) => {
                        proof {
                            let j = choose|j: int| 0 <= j < i && #[trigger] shell_is(shells@, j, k);
                            assert(!no_duplicates(shells@, shells@.len() as int)) by {
                                assert(shell_is(shells@, j, k) && shell_is(shells@, i as int, k));
                            }
                            assert(shell_is(shells@, j, k) && shell_is(shells@, i as int, k));
                            assert(repeats_earlier(shells@, i as int));
                            assert(stops_at_repeat(bytes@, shells@, pool@));
                            if stops_at_misfit(bytes@, shells@, pool@) {
                                lemma_misfit_is_at(bytes@, shells@, pool@, i as int);
                            }
                        }
                        return Err(e);
                    },
                }
                proof {
                    assert forall|j1: int, j2: int, q: UniqueAttribute| 0 <= j1 < j2 < i + 1 && #[trigger] shell_is(shells@, j1, q)
                        implies !#[trigger] shell_is(shells@, j2, q) by {
                        if j2 == i && shell_is(shells@, j2, q) {
                            assert(q == k);
                            assert(seen_before.contains(k));
                        }
                    }
                    assert forall|q: UniqueAttribute| seen@.contains(q) <==> exists|j: int| 0 <= j < i + 1 && #[trigger] shell_is(shells@, j, q) by {
                        if seen@.contains(q) && q != k {
                            assert(seen_before.contains(q));
                        }
                        if q == k {
                            assert(seen@[seen@.len() - 1] == k);
                        }
                        if exists|j: int| 0 <= j < i + 1 && #[trigger] shell_is(shells@, j, q) {
                            if q != k {
                                let j = choose|j: int| 0 <= j < i + 1 && #[trigger] shell_is(shells@, j, q);
                                assert(j != i);
                                assert(seen_before.contains(q));
                                assert(seen@[seen_before.index_of(q)] == q);
                            }
                        }
                    }
                }
                let content = match attribute_content(bytes, shell, budget) {
                    Ok(c) => c,
                    Err(e) => {
                        proof {
                            assert(!is_stop(e) && !is_budget(e, CountedBudgetDimension::AttributeBytes.dim())
                                ==> !shell_readable(bytes@, shells@, pool@, i as int));
                            if !is_stop(e) {
                                lemma_not_duplicate(e);
                            }
                            if !is_stop(e) && !is_budget(e, CountedBudgetDimension::AttributeBytes.dim()) {
                                lemma_no_repeat_stop(bytes@, shells@, pool@, i as int);
                                if stops_at_misfit(bytes@, shells@, pool@) {
                                    lemma_misfit_is_at(bytes@, shells@, pool@, i as int);
                                }
                            }
                        }
                        return Err(e);
                    },
                };
                assert(content@ == content_of(bytes@, shells@[i as int]));
                match read_attribute(k, content, pool, budget, &mut facts) {
                    Ok(()) => {},
                    Err(e) => {
                        proof {
                            assert(!is_stop(e) && crate::cpool::facts_sorted(pool@) ==> !shell_readable(bytes@, shells@, pool@, i as int));
                            if !is_stop(e) {
                                lemma_not_duplicate(e);
                            }
                            if !is_stop(e) && crate::cpool::facts_sorted(pool@) {
                                lemma_no_repeat_stop(bytes@, shells@, pool@, i as int);
                                if stops_at_misfit(bytes@, shells@, pool@) {
                                    lemma_misfit_is_at(bytes@, shells@, pool@, i as int);
                                }
                            }
                        }
                        return Err(e);
                    },
                }
                assert(shell_readable(bytes@, shells@, pool@, i as int));
            },
        }
        proof {
            lemma_agree_step(bytes@, shells@, pool@, i as int, before, facts);
            assert forall|j1: int, j2: int, q: UniqueAttribute| 0 <= j1 < j2 < i + 1 && #[trigger] shell_is(shells@, j1, q)
                implies !#[trigger] shell_is(shells@, j2, q) by {
                if j2 < i {
                } else if kind is None {
                }
            }
        }
        i = i + 1;
    }
    Ok(facts)
}

/// One `BootstrapMethods` entry.
#[derive(Clone, Debug, Eq, PartialEq)]
pub struct BootstrapMethodFacts {
    /// Index of the bootstrap method handle.
    pub method_ref: u16,
    /// Argument indexes in declaration order; each one is a loadable constant.
    pub arguments: Vec<u16>,
}

/// A constant a bootstrap argument may name (JVMS 4.7.23).
pub open spec fn is_loadable(k: CpKind) -> bool {
    ||| k is String
    ||| k is Class
    ||| k is Integer
    ||| k is Long
    ||| k is Float
    ||| k is Double
    ||| k is MethodHandle
    ||| k is MethodType
    ||| k is Dynamic
}

/// The table holds an entry for `index` whose kind satisfies `p`.
pub open spec fn entry_with(pool: Seq<CpEntryFacts>, index: u16, p: spec_fn(CpKind) -> bool) -> bool {
    exists|e: CpEntryFacts| pool.contains(e) && e.index == index && index != 0 && p(e.kind@)
}

fn loadable(kind: &CpEntryKind) -> (b: bool)
    ensures
        b == is_loadable(kind@),
{
    match kind {
        CpEntryKind::String { .. } | CpEntryKind::Class { .. } | CpEntryKind::Integer { .. }
        | CpEntryKind::Long { .. } | CpEntryKind::Float { .. } | CpEntryKind::Double { .. }
        | CpEntryKind::MethodHandle { .. } | CpEntryKind::MethodType { .. } | CpEntryKind::Dynamic { .. } => true,
        _ => false,
    }
}

/// Where the `k`-th entry of a `BootstrapMethods` content starts: after the `u16` count, each
/// entry is a handle index, an argument count and that many argument indexes.
pub open spec fn bootstrap_at(c: Seq<u8>, k: nat) -> int
    decreases k,
{
    if k == 0 {
        2
    } else {
        let p = bootstrap_at(c, (k - 1) as nat);
        p + 4 + 2 * be16(c, p + 2)
    }
}

/// The entry at `p` is whole, names a `CONSTANT_MethodHandle`, and only loadable arguments.
pub open spec fn bootstrap_entry_ok(pool: Seq<CpEntryFacts>, c: Seq<u8>, p: int) -> bool {
    &&& p + 4 <= c.len()
    &&& p + 4 + 2 * be16(c, p + 2) <= c.len()
    &&& entry_with(pool, be16(c, p), |k: CpKind| k is MethodHandle)
    &&& forall|a: int| 0 <= a < be16(c, p + 2) ==> entry_with(pool, #[trigger] be16(c, p + 4 + 2 * a), |k: CpKind| is_loadable(k))
}

/// A `BootstrapMethods` content whose every entry is sound and which ends with its last entry.
pub open spec fn bootstrap_ok(pool: Seq<CpEntryFacts>, c: Seq<u8>) -> bool {
    &&& 2 <= c.len()
    &&& forall|k: nat| k < be16(c, 0) ==> bootstrap_entry_ok(pool, c, #[trigger] bootstrap_at(c, k))
    &&& bootstrap_at(c, be16(c, 0) as nat) == c.len()
}

/// The facts `f` state the entry at `p`: its handle index and its argument indexes in order.
pub open spec fn is_bootstrap(c: Seq<u8>, p: int, f: BootstrapMethodFacts) -> bool {
    &&& f.method_ref == be16(c, p)
    &&& f.arguments@.len() == be16(c, p + 2)
    &&& forall|a: int| 0 <= a < f.arguments@.len() ==> #[trigger] f.arguments@[a] == be16(c, p + 4 + 2 * a)
}

/// A `BootstrapMethods` content whose every entry reads, followed by bytes no entry holds.
pub open spec fn bootstrap_trailing(pool: Seq<CpEntryFacts>, c: Seq<u8>) -> bool {
    &&& 2 <= c.len()
    &&& forall|k: nat| k < be16(c, 0) ==> bootstrap_entry_ok(pool, c, #[trigger] bootstrap_at(c, k))
    &&& bootstrap_at(c, be16(c, 0) as nat) != c.len()
}

/// Entry `k` of a `BootstrapMethods` content is the first that does not read, though it is
/// whole and every index it holds names an entry of the table: one of them names an entry of
/// the wrong kind.
pub open spec fn bootstrap_kind_refused_at(pool: Seq<CpEntryFacts>, c: Seq<u8>, k: nat) -> bool {
    let p = bootstrap_at(c, k);
    &&& 2 <= c.len()
    &&& k < be16(c, 0)
    &&& (forall|j: nat| j < k ==> bootstrap_entry_ok(pool, c, #[trigger] bootstrap_at(c, j)))
    &&& p + 4 <= c.len()
    &&& p + 4 + 2 * be16(c, p + 2) <= c.len()
    &&& be16(c, p) != 0 && crate::cpool::holds_index(pool, be16(c, p))
    &&& (forall|a: int| 0 <= a < be16(c, p + 2) ==> #[trigger] be16(c, p + 4 + 2 * a) != 0
        && crate::cpool::holds_index(pool, be16(c, p + 4 + 2 * a)))
    &&& !bootstrap_entry_ok(pool, c, p)
}

/// Entry `k` of a `BootstrapMethods` content is the first that does not read, and it ends
/// before its declared structure does, every index it holds before that end being sound.
pub open spec fn bootstrap_short_at(pool: Seq<CpEntryFacts>, c: Seq<u8>, k: nat) -> bool {
    let p = bootstrap_at(c, k);
    &&& 2 <= c.len()
    &&& k < be16(c, 0)
    &&& (forall|j: nat| j < k ==> bootstrap_entry_ok(pool, c, #[trigger] bootstrap_at(c, j)))
    &&& (p + 2 <= c.len() ==> entry_with(pool, be16(c, p), |q: CpKind| q is MethodHandle))
    &&& (p + 4 > c.len() || (p + 4 + 2 * be16(c, p + 2) > c.len()
        && forall|a: int| 0 <= a < be16(c, p + 2) && p + 4 + 2 * a + 2 <= c.len()
            ==> entry_with(pool, #[trigger] be16(c, p + 4 + 2 * a), |q: CpKind| is_loadable(q))))
}

/// The shell is a readable `BootstrapMethods` attribute of these bytes.
pub open spec fn bootstrap_readable(bytes: Seq<u8>, shell: AttributeShell, pool: Seq<CpEntryFacts>) -> bool {
    shell_matches_inside(bytes, shell) && bootstrap_ok(pool, content_of(bytes, shell))
}

/// Reads one `BootstrapMethods` attribute. The bootstrap handle of every entry must be a
/// `CONSTANT_MethodHandle`, and every argument a loadable constant.
#[verifier::rlimit(40)]
pub fn bootstrap_methods(bytes: &[u8], shell: &AttributeShell, pool: &[CpEntryFacts], budget: &mut Budget) -> (r: Result<Vec<BootstrapMethodFacts>>)
    ensures
        r matches Err(e) ==> crate::budget::honest_refusal(e, old(budget).limits_of()),
        final(budget).limits_of() == old(budget).limits_of(),
        r matches Ok(v) ==> bootstrap_readable(bytes@, *shell, pool@)
            && v@.len() == be16(content_of(bytes@, *shell), 0)
            && forall|i: int| 0 <= i < v@.len() ==> is_bootstrap(content_of(bytes@, *shell),
                bootstrap_at(content_of(bytes@, *shell), i as nat), #[trigger] v@[i]),
        r matches Err(e) ==> is_attribute_error(e),
        r matches Err(e) ==> (!is_stop(e) && !is_budget(e, CountedBudgetDimension::AttributeBytes.dim())
            && crate::cpool::facts_sorted(pool@) ==> !bootstrap_readable(bytes@, *shell, pool@)),
        shell_matches_inside(bytes@, *shell) && content_of(bytes@, *shell).len() < 2 ==> (r matches Err(e) && (is_stop(e)
            || is_budget(e, CountedBudgetDimension::AttributeBytes.dim()) || is_invalid(e, "classfile_invalid_attribute_content"@))),
        shell_matches_inside(bytes@, *shell) && crate::cpool::facts_sorted(pool@) && (bootstrap_trailing(pool@, content_of(bytes@, *shell))
            || exists|k: nat| #[trigger] bootstrap_short_at(pool@, content_of(bytes@, *shell), k))
            ==> (r matches Err(e) && (is_stop(e) || is_budget(e, CountedBudgetDimension::AttributeBytes.dim())
            || is_invalid(e, "classfile_invalid_attribute_content"@))),
        shell_matches_inside(bytes@, *shell) && crate::cpool::facts_sorted(pool@)
            && (exists|k: nat| #[trigger] bootstrap_kind_refused_at(pool@, content_of(bytes@, *shell), k))
            ==> (r matches Err(e) && (is_stop(e) || is_budget(e, CountedBudgetDimension::AttributeBytes.dim())
            || is_invalid(e, "classfile_constant_pool_tag_mismatch"@))),
{
    let content = attribute_content(bytes, shell, budget)?;
    let ghost c = content@;
    let mut reader = AttributeReader::new(content);
    let count = reader.u16()?;
    let mut methods: Vec<BootstrapMethodFacts> = Vec::new();
    let mut i: u16 = 0;
    while i < count
        invariant
            reader.wf(),
            reader.content@ == c,
            c == content_of(bytes@, *shell),
            shell_matches_inside(bytes@, *shell),
            2 <= c.len(),
            count == be16(c, 0),
            budget.limits_of() == old(budget).limits_of(),
            i <= count,
            methods@.len() == i,
            reader.position == bootstrap_at(c, i as nat),
            forall|k: nat| k < i ==> bootstrap_entry_ok(pool@, c, #[trigger] bootstrap_at(c, k)),
            forall|m: int| 0 <= m < methods@.len() ==> is_bootstrap(c, bootstrap_at(c, m as nat), #[trigger] methods@[m]),
        decreases count - i,
    {
        let ghost p = reader.position as int;
        assert(bootstrap_at(c, (i + 1) as nat) == p + 4 + 2 * be16(c, p + 2));
        budget.poll()?;
        let method_ref = reader.u16()?;
        let entry = match cp_entry(pool, method_ref) {
            Ok(e) => e,
            Err(e) => {
                proof {
                    if crate::cpool::facts_sorted(pool@) {
                        lemma_absent_entry(pool@, method_ref, |k: CpKind| k is MethodHandle);
                        assert(!bootstrap_entry_ok(pool@, c, bootstrap_at(c, i as nat)));
                    }
                }
                return Err(e);
            },
        };
        match &entry.kind {
            CpEntryKind::MethodHandle { .. } => {},
            _ => {
                proof {
                    if crate::cpool::facts_sorted(pool@) {
                        lemma_sorted_entry_unique(pool@, *entry, |k: CpKind| k is MethodHandle);
                        assert(!bootstrap_entry_ok(pool@, c, bootstrap_at(c, i as nat)));
                    }
                }
                return Err(crate::cpool::cp_fact_tag_mismatch("CONSTANT_MethodHandle", method_ref));
            },
        }
        assert(entry_with(pool@, method_ref, |k: CpKind| k is MethodHandle));
        let argument_count = reader.u16()?;
        let mut arguments: Vec<u16> = Vec::new();
        let mut a: u16 = 0;
        while a < argument_count
            invariant
                reader.wf(),
                reader.content@ == c,
                c == content_of(bytes@, *shell),
                shell_matches_inside(bytes@, *shell),
                2 <= c.len(),
                count == be16(c, 0),
                i < count,
                p == bootstrap_at(c, i as nat),
                p + 4 <= c.len(),
                argument_count == be16(c, p + 2),
                forall|k: nat| k < i ==> bootstrap_entry_ok(pool@, c, #[trigger] bootstrap_at(c, k)),
                budget.limits_of() == old(budget).limits_of(),
                a <= argument_count,
                arguments@.len() == a,
                reader.position == p + 4 + 2 * a,
                forall|x: int| 0 <= x < arguments@.len() ==> #[trigger] arguments@[x] == be16(c, p + 4 + 2 * x)
                    && entry_with(pool@, arguments@[x], |k: CpKind| is_loadable(k)),
            decreases argument_count - a,
        {
            let index = reader.u16()?;
            let argument = match cp_entry(pool, index) {
                Ok(e) => e,
                Err(e) => {
                    proof {
                        if crate::cpool::facts_sorted(pool@) {
                            lemma_absent_entry(pool@, index, |k: CpKind| is_loadable(k));
                            assert(!bootstrap_entry_ok(pool@, c, bootstrap_at(c, i as nat)));
                        }
                    }
                    return Err(e);
                },
            };
            if !loadable(&argument.kind) {
                proof {
                    if crate::cpool::facts_sorted(pool@) {
                        lemma_sorted_entry_unique(pool@, *argument, |k: CpKind| is_loadable(k));
                        assert(!bootstrap_entry_ok(pool@, c, bootstrap_at(c, i as nat)));
                    }
                }
                return Err(crate::cpool::cp_fact_tag_mismatch("loadable constant", index));
            }
            assert(entry_with(pool@, index, |k: CpKind| is_loadable(k)));
            arguments.push(index);
            a = a + 1;
        }
        let f = BootstrapMethodFacts { method_ref, arguments };
        assert(is_bootstrap(c, p, f));
        assert(bootstrap_entry_ok(pool@, c, p)) by {
            assert forall|x: int| 0 <= x < be16(c, p + 2) implies entry_with(pool@, #[trigger] be16(c, p + 4 + 2 * x), |k: CpKind| is_loadable(k)) by {
                assert(f.arguments@[x] == be16(c, p + 4 + 2 * x));
            }
        }
        methods.push(f);
        i = i + 1;
    }
    reader.expect_end()?;
    Ok(methods)
}

/// The shell describes one `attribute_info` inside the bytes.
pub open spec fn shell_matches_inside(bytes: Seq<u8>, shell: AttributeShell) -> bool {
    crate::header::shell_matches(shell.span, shell.content_span) && crate::header::span_inside(bytes, shell.content_span)
}


/// Whether the shell at `j` is a `Code` attribute.
pub open spec fn is_code_shell(shells: Seq<AttributeShell>, j: int) -> bool {
    shells[j].name.raw_bytes() == crate::names::code_name()
}

/// Only the shell at `p` is a `Code` attribute.
pub open spec fn sole_code_at(shells: Seq<AttributeShell>, p: int) -> bool {
    &&& 0 <= p < shells.len()
    &&& is_code_shell(shells, p)
    &&& forall|j: int| 0 <= j < shells.len() && j != p ==> !#[trigger] is_code_shell(shells, j)
}

/// Where the nested attribute list of a `Code` content starts: after `max_stack`, `max_locals`,
/// the code array with its `u32` length, the exception table with its `u16` length, and the
/// `u16` attribute count.
pub open spec fn nested_list_start(c: Seq<u8>) -> int {
    let code_end = 8 + be32(c, 4);
    code_end + 2 + 8 * be16(c, code_end) + 2
}

/// The number of nested attributes a `Code` content declares.
pub open spec fn nested_count(c: Seq<u8>) -> u16 {
    be16(c, nested_list_start(c) - 2)
}

/// Where the `k`-th nested `attribute_info` of a `Code` content starts.
pub open spec fn nested_at(c: Seq<u8>, k: nat) -> int
    decreases k,
{
    if k == 0 {
        nested_list_start(c)
    } else {
        let q = nested_at(c, (k - 1) as nat);
        q + 6 + be32(c, q + 2)
    }
}

/// The nested `attribute_info` at `q` is whole and its name index is a `CONSTANT_Utf8` entry.
pub open spec fn nested_entry_ok(pool: Seq<CpEntryFacts>, c: Seq<u8>, q: int) -> bool {
    &&& q + 6 <= c.len()
    &&& q + 6 + be32(c, q + 2) <= c.len()
    &&& entry_with(pool, be16(c, q), |k: CpKind| k is Utf8)
}

/// A `Code` content whose code array and exception table fit, whose every nested attribute is
/// whole and named, and which ends with its last nested attribute.
pub open spec fn code_content_ok(pool: Seq<CpEntryFacts>, c: Seq<u8>) -> bool {
    &&& 8 <= c.len()
    &&& 8 + be32(c, 4) + 2 <= c.len()
    &&& nested_list_start(c) <= c.len()
    &&& forall|k: nat| k < nested_count(c) ==> nested_entry_ok(pool, c, #[trigger] nested_at(c, k))
    &&& nested_at(c, nested_count(c) as nat) == c.len()
}

/// A `Code` content whose code array, exception table and nested attributes all read, followed
/// by bytes no nested attribute holds.
pub open spec fn code_trailing(pool: Seq<CpEntryFacts>, c: Seq<u8>) -> bool {
    &&& 8 <= c.len()
    &&& 8 + be32(c, 4) + 2 <= c.len()
    &&& nested_list_start(c) <= c.len()
    &&& forall|k: nat| k < nested_count(c) ==> nested_entry_ok(pool, c, #[trigger] nested_at(c, k))
    &&& nested_at(c, nested_count(c) as nat) != c.len()
}

/// The shell is a readable `Code` attribute of these bytes.
pub open spec fn code_readable(bytes: Seq<u8>, shell: AttributeShell, pool: Seq<CpEntryFacts>) -> bool {
    shell_matches_inside(bytes, shell) && code_content_ok(pool, content_of(bytes, shell))
}

/// The fact `f` states the nested attribute at `q` of the `Code` content `c` that `code` spans:
/// its name and its class-file spans, header included and excluded.
pub open spec fn is_nested(pool: Seq<CpEntryFacts>, code: ByteSpan, c: Seq<u8>, q: int, f: NestedAttributeFact) -> bool {
    &&& f.name_index == be16(c, q)
    &&& utf8_named(pool, f.name_index, f.name.0@)
    &&& f.span == (ByteSpan { start: (code.start + q) as u64, length: (6 + be32(c, q + 2)) as u64 })
    &&& f.content_span == (ByteSpan { start: (code.start + q + 6) as u64, length: be32(c, q + 2) as u64 })
}

fn find_code_shells(shells: &[AttributeShell]) -> (r: (Option<usize>, bool))
    ensures
        r.0 is None ==> forall|j: int| 0 <= j < shells@.len() ==> !is_code_shell(shells@, j),
        r.0 matches Some(p) ==> p < shells@.len() && is_code_shell(shells@, p as int)
            && (r.1 <==> exists|j: int| 0 <= j < shells@.len() && j != p && #[trigger] is_code_shell(shells@, j)),
{
    let mut first: Option<usize> = None;
    let mut i: usize = 0;
    while i < shells.len()
        invariant
            i <= shells@.len(),
            first is None ==> forall|j: int| 0 <= j < i ==> !is_code_shell(shells@, j),
            first matches Some(p) ==> p < i && is_code_shell(shells@, p as int)
                && forall|j: int| 0 <= j < i && j != p ==> !is_code_shell(shells@, j),
        decreases shells@.len() - i,
    {
        if crate::names::is_code(&shells[i].name.raw().0) {
            match first {
                None => first = Some(i),
                Some(p) => {
                    assert(is_code_shell(shells@, i as int));
                    return (first, true);
                },
            }
        }
        i = i + 1;
    }
    (first, false)
}

/// Reads the nested `attribute_info` list of one method's `Code` attribute (JVMS 4.7.3).
///
/// The code array and the exception table are measured, never decoded. A member without `Code`
/// yields an empty list; two `Code` attributes are refused. The `Code` entry is billed once
/// (`6 + content length`), and its nested content is not billed again.
#[verifier::rlimit(60)]
pub fn code_nested_attributes(bytes: &[u8], shells: &[AttributeShell], pool: &[CpEntryFacts], budget: &mut Budget) -> (r: Result<Vec<NestedAttributeFact>>)
    ensures
        r matches Err(e) ==> crate::budget::honest_refusal(e, old(budget).limits_of()),
        final(budget).limits_of() == old(budget).limits_of(),
        (forall|j: int| 0 <= j < shells@.len() ==> !is_code_shell(shells@, j)) ==> (r matches Ok(v) && v@.len() == 0)
            && final(budget).usage_of() == old(budget).usage_of(),
        (exists|j1: int, j2: int| 0 <= j1 < j2 < shells@.len() && is_code_shell(shells@, j1) && is_code_shell(shells@, j2))
            ==> (r matches Err(e) && is_invalid(e, "classfile_duplicate_code_attribute"@))
            && final(budget).usage_of() == old(budget).usage_of(),
        forall|p: int| #[trigger] sole_code_at(shells@, p) ==> {
            let c = content_of(bytes@, shells@[p]);
            &&& (r is Ok ==> final(budget).usage_of() == old(budget).usage_of().with_counted(CountedBudgetDimension::AttributeBytes,
                (old(budget).usage_of().counted(CountedBudgetDimension::AttributeBytes) + shells@[p].content_span.length + 6) as u64))
            &&& (shell_matches_inside(bytes@, shells@[p]) && 8 <= c.len() && 8 + be32(c, 4) > c.len() ==> (r matches Err(e)
                && (is_stop(e) || is_budget(e, CountedBudgetDimension::AttributeBytes.dim())
                || is_invalid(e, "classfile_code_out_of_bounds"@))))
            &&& (shell_matches_inside(bytes@, shells@[p]) && crate::cpool::facts_sorted(pool@) && code_trailing(pool@, c)
                ==> (r matches Err(e) && (is_stop(e) || is_budget(e, CountedBudgetDimension::AttributeBytes.dim())
                || is_invalid(e, "classfile_invalid_attribute_content"@))))
            &&& (r matches Ok(v) ==> code_readable(bytes@, shells@[p], pool@)
                && v@.len() == nested_count(c)
                && forall|k: int| 0 <= k < v@.len() ==> is_nested(pool@, shells@[p].content_span, c, nested_at(c, k as nat), #[trigger] v@[k]))
            &&& (r matches Err(e) ==> (!is_stop(e) && !is_budget(e, CountedBudgetDimension::AttributeBytes.dim())
                && crate::cpool::facts_sorted(pool@) ==> !code_readable(bytes@, shells@[p], pool@)))
        },
        r matches Err(e) ==> is_attribute_error(e) || is_invalid(e, "classfile_duplicate_code_attribute"@)
            || is_invalid(e, "classfile_code_out_of_bounds"@),
{
    let (found, duplicate) = find_code_shells(shells);
    let p = match found {
        None => return Ok(Vec::new()),
        Some(p) => p,
    };
    if duplicate {
        proof {
            assert forall|q: int| !sole_code_at(shells@, q) by {
                if sole_code_at(shells@, q) {
                    let j = choose|j: int| 0 <= j < shells@.len() && j != p && #[trigger] is_code_shell(shells@, j);
                    assert(q == p as int || q == j);
                }
            }
        }
        return Err(Error::invalid_input("classfile_duplicate_code_attribute", "selected method has multiple Code attributes"));
    }
    proof {
        assert forall|j1: int, j2: int| 0 <= j1 < j2 < shells@.len() && is_code_shell(shells@, j1) implies !is_code_shell(shells@, j2) by {
            if is_code_shell(shells@, j2) {
                if j1 != p as int {
                    assert(is_code_shell(shells@, j1));
                } else {
                    assert(j2 != p as int);
                }
            }
        }
        assert(sole_code_at(shells@, p as int));
        assert forall|q: int| #[trigger] sole_code_at(shells@, q) implies q == p as int by {
            if q != p as int {
                assert(is_code_shell(shells@, p as int));
            }
        }
    }
    let shell = &shells[p];
    let ghost sh = shells@[p as int];
    budget.poll()?;
    let content = crate::header::attribute_slice(bytes, &shell.span, &shell.content_span)?;
    let ghost c = content@;
    assert(c == content_of(bytes@, sh));
    let shell_length = crate::header::attribute_shell_length(&shell.content_span)?;
    budget.charge(CountedBudgetDimension::AttributeBytes, shell_length)?;
    let ghost charged = budget.usage_of();
    let mut reader = AttributeReader::new(content);
    reader.skip(4)?;
    let code_length = reader.u32()? as usize;
    if code_length > content.len() - reader.position() {
        return Err(Error::invalid_input("classfile_code_out_of_bounds", "code array exceeds Code attribute content"));
    }
    reader.skip(code_length)?;
    let handlers = reader.u16()? as usize;
    reader.skip(handlers * 8)?;
    let count = reader.u16()?;
    assert(reader.position == nested_list_start(c));
    assert(count == nested_count(c));
    let cs = ByteSpan::new(shell.content_span.start, shell.content_span.length);
    let mut nested: Vec<NestedAttributeFact> = Vec::new();
    let mut i: u16 = 0;
    let n = bytes.len();
    while i < count
        invariant
            n == bytes@.len(),
            forall|j1: int, j2: int| 0 <= j1 < j2 < shells@.len() && is_code_shell(shells@, j1) ==> !is_code_shell(shells@, j2),
            forall|q: int| #[trigger] sole_code_at(shells@, q) ==> q == p as int,
            sole_code_at(shells@, p as int),
            sh == shells@[p as int],
            shell_matches_inside(bytes@, sh),
            c == content_of(bytes@, sh),
            reader.wf(),
            reader.content@ == c,
            content@.len() == cs.length,
            cs.start + cs.length <= bytes@.len(),
            cs == shells@[p as int].content_span,
            p < shells@.len(),
            is_code_shell(shells@, p as int),
            budget.limits_of() == old(budget).limits_of(),
            budget.usage_of() == charged,
            8 <= c.len(),
            8 + be32(c, 4) + 2 <= c.len(),
            nested_list_start(c) <= c.len(),
            count == nested_count(c),
            i <= count,
            nested@.len() == i,
            reader.position == nested_at(c, i as nat),
            forall|k: nat| k < i ==> nested_entry_ok(pool@, c, #[trigger] nested_at(c, k)),
            forall|k: int| 0 <= k < nested@.len() ==> is_nested(pool@, cs, c, nested_at(c, k as nat), #[trigger] nested@[k]),
        decreases count - i,
    {
        let ghost q = reader.position as int;
        assert(nested_at(c, (i + 1) as nat) == q + 6 + be32(c, q + 2));
        budget.poll()?;
        let start = entry_offset_in(&cs, reader.position());
        let name_index = reader.u16()?;
        let length = reader.u32()?;
        let content_start = entry_offset_in(&cs, reader.position());
        reader.skip(length as usize)?;
        let end = entry_offset_in(&cs, reader.position());
        let name = match cp_utf8(pool, name_index) {
            Ok(b) => b,
            Err(e) => {
                proof {
                    if crate::cpool::facts_sorted(pool@) {
                        if name_index != 0 && crate::cpool::holds_index(pool@, name_index) {
                            let f = crate::cpool::fact_at(pool@, name_index);
                            let w = choose|w: int| 0 <= w < pool@.len() && #[trigger] pool@[w].index == name_index;
                            assert(pool@.contains(pool@[w]));
                            lemma_sorted_entry_unique(pool@, f, |k: CpKind| k is Utf8);
                        } else {
                            lemma_absent_entry(pool@, name_index, |k: CpKind| k is Utf8);
                        }
                        assert(!nested_entry_ok(pool@, c, nested_at(c, i as nat)));
                    }
                }
                return Err(e);
            },
        };
        let fact = NestedAttributeFact {
            name_index,
            name,
            span: crate::model::ByteSpan::new(start, end - start),
            content_span: crate::model::ByteSpan::new(content_start, length as u64),
        };
        assert(is_nested(pool@, cs, c, q, fact));
        assert(nested_entry_ok(pool@, c, q));
        nested.push(fact);
        i = i + 1;
    }
    reader.expect_end()?;
    Ok(nested)
}

/// The class offset of a position inside a content span that lies inside the class bytes.
fn entry_offset_in(span: &crate::model::ByteSpan, position: usize) -> (r: u64)
    requires
        position <= span.length,
        span.start + span.length <= usize::MAX,
    ensures
        r == span.start + position,
{
    span.start + position as u64
}

} // verus!
