//! A bounded in-memory store of the class facts a request reads and another request may reuse.
//!
//! An entry is a class's structure facts or its header inspection, keyed by the class bytes'
//! content digest and length and by the parse policy that produced it. Only a read that ran to
//! the end is ever written, an insertion that would cross either bound of the store's capacity
//! is refused rather than evicting anything, and an entry written under another parser identity
//! is discarded when it is found rather than served.

use crate::artifact::ContainerFacts;
use crate::budget::{Budget, BudgetDimension};
use crate::cancel::arc_share;
use crate::classfile::{ClassFacts, header_read, structure_read};
use crate::error::{Result, is_budget, is_stop};
use crate::header::{HeaderInspection, InspectionMode};
use crate::model::{ContainerOrigin, blake3_hex, content_digest, eq_origin, lemma_same_origin_laws, same_origin};
use crate::release::HIGHEST_REGISTERED_MAJOR;
use crate::text::{decimal, push_decimal};
use std::sync::Arc;
use vstd::prelude::*;
use vstd::rwlock::{RwLock, RwLockPredicate};

verus! {


/// The entry format this build writes. An entry written in another format is discarded when a
/// lookup finds it.
pub const FACTS_FORMAT: u16 = 1;

/// The container-directory schema this build writes. A container product is keyed by it as well
/// as by the container's physical origin, so a changed schema simply misses.
pub const CONTAINER_FACTS_SCHEMA: u16 = 1;

/// How much one store may retain: a number of answers and a retained weight in bytes.
///
/// The weight is a residency proxy: an entry weighs the length of the class bytes it was parsed
/// from.
#[derive(Clone, Copy, Debug, PartialEq, Eq, Structural)]
pub struct FactsCapacity {
    /// Retained answers.
    pub entries: usize,
    /// Retained weight, in bytes.
    pub retained_bytes: u64,
}

/// `"{entries} entries / {retained_bytes} retained bytes"`.
pub open spec fn capacity_text(c: FactsCapacity) -> Seq<char> {
    decimal(c.entries as nat) + " entries / "@ + decimal(c.retained_bytes as nat) + " retained bytes"@
}

impl FactsCapacity {
    pub fn new(entries: usize, retained_bytes: u64) -> (c: FactsCapacity)
        ensures
            c.entries == entries,
            c.retained_bytes == retained_bytes,
    {
        FactsCapacity { entries, retained_bytes }
    }

    /// A capacity that retains nothing: every lookup of a store with it misses and every
    /// insertion is refused.
    pub fn none() -> (c: FactsCapacity)
        ensures
            c.entries == 0,
            c.retained_bytes == 0,
    {
        FactsCapacity::new(0, 0)
    }

    /// A stable one-line description, with no counter in it.
    pub fn describe(&self) -> (s: String)
        ensures
            s@ == capacity_text(*self),
    {
        let mut s = String::new();
        push_decimal(&mut s, self.entries as u64);
        s.append(" entries / ");
        push_decimal(&mut s, self.retained_bytes);
        s.append(" retained bytes");
        assert(s@ =~= capacity_text(*self));
        s
    }
}

/// The declaration a store's entries are read under: the registry version of the parser and the
/// entry format.
#[derive(Clone, Copy, Debug, PartialEq, Eq, Structural)]
pub struct FactsIdentity {
    /// The release registry's version the facts were parsed under.
    pub registry: u16,
    /// The entry format the entries were written in.
    pub format: u16,
}

/// `"registry {registry} entry format {format}"`.
pub open spec fn identity_text(i: FactsIdentity) -> Seq<char> {
    "registry "@ + decimal(i.registry as nat) + " entry format "@ + decimal(i.format as nat)
}

impl FactsIdentity {
    /// The identity of this build's parser.
    pub fn current() -> (i: FactsIdentity)
        ensures
            i.registry == HIGHEST_REGISTERED_MAJOR,
            i.format == FACTS_FORMAT,
    {
        FactsIdentity { registry: HIGHEST_REGISTERED_MAJOR, format: FACTS_FORMAT }
    }

    pub fn new(registry: u16, format: u16) -> (i: FactsIdentity)
        ensures
            i.registry == registry,
            i.format == format,
    {
        FactsIdentity { registry, format }
    }

    /// A stable one-line description of the declaration, with no counter in it.
    pub fn describe(&self) -> (s: String)
        ensures
            s@ == identity_text(*self),
    {
        let mut s = String::new();
        s.append("registry ");
        push_decimal(&mut s, self.registry as u64);
        s.append(" entry format ");
        push_decimal(&mut s, self.format as u64);
        assert(s@ =~= identity_text(*self));
        s
    }
}

/// The parse policy an entry was produced under: the structure facts, or the header under one
/// inspection mode. One policy's entry is never served to another.
#[derive(Clone, Copy, Debug, PartialEq, Eq, Structural)]
pub enum ParsePolicy {
    Structure,
    Strict,
    Forensic,
}

/// The policy of a header inspection under `mode`.
pub open spec fn policy_of(mode: InspectionMode) -> ParsePolicy {
    match mode {
        InspectionMode::Strict => ParsePolicy::Strict,
        InspectionMode::Forensic => ParsePolicy::Forensic,
    }
}

impl ParsePolicy {
    pub fn of(mode: InspectionMode) -> (p: ParsePolicy)
        ensures
            p == policy_of(mode),
    {
        match mode {
            InspectionMode::Strict => ParsePolicy::Strict,
            InspectionMode::Forensic => ParsePolicy::Forensic,
        }
    }
}

/// One cached answer.
enum FactsPayload {
    Structure(Arc<ClassFacts>),
    Header(Arc<HeaderInspection>),
}

/// Whether a payload of this kind answers this policy.
spec fn holds(policy: ParsePolicy, payload: FactsPayload) -> bool {
    match policy {
        ParsePolicy::Structure => payload is Structure,
        _ => payload is Header,
    }
}

fn payload_holds(policy: ParsePolicy, payload: &FactsPayload) -> (b: bool)
    ensures
        b == holds(policy, *payload),
{
    match (policy, payload) {
        (ParsePolicy::Structure, FactsPayload::Structure(_)) => true,
        (ParsePolicy::Structure, FactsPayload::Header(_)) => false,
        (_, FactsPayload::Structure(_)) => false,
        (_, FactsPayload::Header(_)) => true,
    }
}

/// One entry: the key it is stored under, the declaration it was written under, the payload, its
/// weight, and (for the proofs) the bytes the payload was read from.
struct Entry {
    digest: String,
    length: u64,
    policy: ParsePolicy,
    identity: FactsIdentity,
    payload: FactsPayload,
    weight: u64,
    source: Ghost<Seq<u8>>,
}

/// The entry is stored under the content key of the bytes it was read from, weighs their length,
/// and holds the complete read its policy names.
spec fn entry_wf(e: Entry) -> bool {
    &&& e.digest@ == blake3_hex(e.source@)
    &&& e.length == e.source@.len()
    &&& e.weight == e.length
    &&& payload_read(e.source@, e.policy, e.payload)
}

/// The payload is the complete read of `bytes` that `policy` names.
spec fn payload_read(bytes: Seq<u8>, policy: ParsePolicy, payload: FactsPayload) -> bool {
    match policy {
        ParsePolicy::Structure => payload matches FactsPayload::Structure(f) && structure_read(bytes, *f),
        ParsePolicy::Strict => payload matches FactsPayload::Header(h) && header_read(bytes, InspectionMode::Strict, *h),
        ParsePolicy::Forensic => payload matches FactsPayload::Header(h)
            && header_read(bytes, InspectionMode::Forensic, *h),
    }
}

/// Every entry is well formed.
spec fn entries_wf(s: Seq<Entry>) -> bool {
    forall|i: int| 0 <= i < s.len() ==> entry_wf(#[trigger] s[i])
}

/// No two entries share a key.
spec fn keys_distinct(s: Seq<Entry>) -> bool {
    forall|i: int, j: int| 0 <= i < j < s.len() ==> !key_is(#[trigger] s[i], (#[trigger] s[j]).digest@, s[j].length, s[j].policy)
}

proof fn lemma_remove_keeps(s: Seq<Entry>, i: int)
    requires
        0 <= i < s.len(),
        entries_wf(s),
        keys_distinct(s),
    ensures
        entries_wf(s.remove(i)),
        keys_distinct(s.remove(i)),
{
    let t = s.remove(i);
    assert forall|k: int| 0 <= k < t.len() implies entry_wf(#[trigger] t[k]) by {
        if k < i {
            assert(t[k] == s[k]);
        } else {
            assert(t[k] == s[k + 1]);
        }
    }
    assert forall|a: int, b: int| 0 <= a < b < t.len() implies !key_is(#[trigger] t[a], (#[trigger] t[b]).digest@, t[b].length, t[b].policy) by {
        let a0 = if a < i { a } else { a + 1 };
        let b0 = if b < i { b } else { b + 1 };
        assert(t[a] == s[a0]);
        assert(t[b] == s[b0]);
        assert(!key_is(s[a0], s[b0].digest@, s[b0].length, s[b0].policy));
    }
}

proof fn lemma_update_keeps(s: Seq<Entry>, i: int, e: Entry)
    requires
        0 <= i < s.len(),
        entries_wf(s),
        keys_distinct(s),
        entry_wf(e),
        key_is(s[i], e.digest@, e.length, e.policy),
    ensures
        entries_wf(s.update(i, e)),
        keys_distinct(s.update(i, e)),
{
    let t = s.update(i, e);
    assert forall|k: int| 0 <= k < t.len() implies entry_wf(#[trigger] t[k]) by {
        if k != i {
            assert(t[k] == s[k]);
        }
    }
    assert forall|a: int, b: int| 0 <= a < b < t.len() implies !key_is(#[trigger] t[a], (#[trigger] t[b]).digest@, t[b].length, t[b].policy) by {
        assert(!key_is(s[a], s[b].digest@, s[b].length, s[b].policy));
    }
}

proof fn lemma_push_keeps(s: Seq<Entry>, e: Entry)
    requires
        entries_wf(s),
        keys_distinct(s),
        entry_wf(e),
        forall|i: int| 0 <= i < s.len() ==> !key_is(#[trigger] s[i], e.digest@, e.length, e.policy),
    ensures
        entries_wf(s.push(e)),
        keys_distinct(s.push(e)),
{
    let t = s.push(e);
    assert forall|k: int| 0 <= k < t.len() implies entry_wf(#[trigger] t[k]) by {
        if k < s.len() {
            assert(t[k] == s[k]);
        }
    }
    assert forall|a: int, b: int| 0 <= a < b < t.len() implies !key_is(#[trigger] t[a], (#[trigger] t[b]).digest@, t[b].length, t[b].policy) by {
        assert(t[a] == s[a]);
        if b < s.len() {
            assert(t[b] == s[b]);
            assert(!key_is(s[a], s[b].digest@, s[b].length, s[b].policy));
        } else {
            assert(t[b] == e);
        }
    }
}

spec fn key_is(e: Entry, digest: Seq<char>, length: u64, policy: ParsePolicy) -> bool {
    e.digest@ == digest && e.length == length && e.policy == policy
}

/// The summed weight of some entries.
spec fn weight_sum(s: Seq<Entry>) -> nat
    decreases s.len(),
{
    if s.len() == 0 {
        0
    } else {
        weight_sum(s.drop_last()) + s.last().weight as nat
    }
}

proof fn lemma_weight_update(s: Seq<Entry>, i: int, e: Entry)
    requires
        0 <= i < s.len(),
    ensures
        weight_sum(s.update(i, e)) == weight_sum(s) - s[i].weight + e.weight,
    decreases s.len(),
{
    if i == s.len() - 1 {
        assert(s.update(i, e).drop_last() =~= s.drop_last());
    } else {
        lemma_weight_update(s.drop_last(), i, e);
        assert(s.update(i, e).drop_last() =~= s.drop_last().update(i, e));
    }
}

proof fn lemma_weight_remove(s: Seq<Entry>, i: int)
    requires
        0 <= i < s.len(),
    ensures
        weight_sum(s.remove(i)) == weight_sum(s) - s[i].weight,
    decreases s.len(),
{
    if i == s.len() - 1 {
        assert(s.remove(i) =~= s.drop_last());
    } else {
        lemma_weight_remove(s.drop_last(), i);
        assert(s.remove(i).drop_last() =~= s.drop_last().remove(i));
    }
}

proof fn lemma_weight_push(s: Seq<Entry>, e: Entry)
    ensures
        weight_sum(s.push(e)) == weight_sum(s) + e.weight,
{
    assert(s.push(e).drop_last() =~= s);
}

/// What one store has answered.
#[derive(Clone, Copy, Debug, PartialEq, Eq, Structural)]
struct Counters {
    consultations: u64,
    hits: u64,
    misses: u64,
    stored: u64,
    refused_capacity: u64,
    refused_capacity_bytes: u64,
    discarded_format: u64,
    discarded_registry: u64,
    discarded_product: u64,
    container_consultations: u64,
    container_hits: u64,
    container_misses: u64,
    container_stored: u64,
    directory_parses: u64,
    nested_materializations: u64,
    nested_materialized_bytes: u64,
}

/// `d` after one discard for `why` is counted, when the lookup is `discarded` for that reason.
spec fn bumped_if(d: u64, discarded: Option<Unusable>, why: Unusable) -> u64 {
    if discarded == Some(why) && d < u64::MAX { (d + 1) as u64 } else { d }
}

/// The counters after one more counted lookup that was a miss, discarded for `discarded`.
spec fn after_miss(c: Counters, discarded: Option<Unusable>) -> Counters {
    Counters {
        consultations: (c.consultations + 1) as u64,
        misses: (c.misses + 1) as u64,
        discarded_format: bumped_if(c.discarded_format, discarded, Unusable::Format),
        discarded_registry: bumped_if(c.discarded_registry, discarded, Unusable::Registry),
        discarded_product: bumped_if(c.discarded_product, discarded, Unusable::Product),
        ..c
    }
}

/// The counters after one more counted container lookup that was a miss.
spec fn after_container_miss(c: Counters, discarded: Option<Unusable>) -> Counters {
    Counters {
        container_consultations: (c.container_consultations + 1) as u64,
        container_misses: (c.container_misses + 1) as u64,
        discarded_format: bumped_if(c.discarded_format, discarded, Unusable::Format),
        discarded_registry: bumped_if(c.discarded_registry, discarded, Unusable::Registry),
        discarded_product: bumped_if(c.discarded_product, discarded, Unusable::Product),
        ..c
    }
}

/// Every lookup is a hit or a miss, and every discard is a miss.
spec fn counters_wf(c: Counters) -> bool {
    &&& c.consultations == c.hits + c.misses
    &&& c.container_consultations == c.container_hits + c.container_misses
    &&& c.discarded_format + c.discarded_registry + c.discarded_product <= c.misses + c.container_misses
}

/// Why an entry found under a key could not be used.
#[derive(Clone, Copy, Debug, PartialEq, Eq, Structural)]
enum Unusable {
    /// Written in another entry format.
    Format,
    /// Parsed under another registry version.
    Registry,
    /// Holds the other product.
    Product,
}

impl Counters {
    fn zero() -> (c: Counters)
        ensures
            counters_wf(c),
            c.consultations == 0 && c.stored == 0 && c.container_stored == 0,
    {
        Counters {
            consultations: 0,
            hits: 0,
            misses: 0,
            stored: 0,
            refused_capacity: 0,
            refused_capacity_bytes: 0,
            discarded_format: 0,
            discarded_registry: 0,
            discarded_product: 0,
            container_consultations: 0,
            container_hits: 0,
            container_misses: 0,
            container_stored: 0,
            directory_parses: 0,
            nested_materializations: 0,
            nested_materialized_bytes: 0,
        }
    }

    /// Counts one answered lookup; a store that has counted `u64::MAX` lookups stops counting
    /// rather than wrapping.
    fn hit(&mut self)
        requires
            counters_wf(*old(self)),
        ensures
            counters_wf(*final(self)),
            final(self).stored == old(self).stored,
            final(self).container_stored == old(self).container_stored,
            *final(self) == if old(self).consultations < u64::MAX {
                Counters { consultations: (old(self).consultations + 1) as u64, hits: (old(self).hits + 1) as u64, ..*old(self) }
            } else {
                *old(self)
            },
    {
        if self.consultations < u64::MAX {
            self.consultations = self.consultations + 1;
            self.hits = self.hits + 1;
        }
    }

    /// Counts one unanswered lookup, and the reason the entry under its key was discarded.
    fn miss(&mut self, discarded: Option<Unusable>)
        requires
            counters_wf(*old(self)),
        ensures
            counters_wf(*final(self)),
            final(self).stored == old(self).stored,
            final(self).container_stored == old(self).container_stored,
            *final(self) == if old(self).consultations < u64::MAX { after_miss(*old(self), discarded) } else { *old(self) },
    {
        if self.consultations < u64::MAX {
            self.consultations = self.consultations + 1;
            self.misses = self.misses + 1;
            match discarded {
                Some(Unusable::Format) => self.discarded_format = bump(self.discarded_format),
                Some(Unusable::Registry) => self.discarded_registry = bump(self.discarded_registry),
                Some(Unusable::Product) => self.discarded_product = bump(self.discarded_product),
                None => {},
            }
        }
    }
}

impl Counters {
    /// Counts one container lookup answered from the store.
    fn container_hit(&mut self)
        requires
            counters_wf(*old(self)),
        ensures
            counters_wf(*final(self)),
            final(self).stored == old(self).stored,
            final(self).container_stored == old(self).container_stored,
            *final(self) == if old(self).container_consultations < u64::MAX {
                Counters { container_consultations: (old(self).container_consultations + 1) as u64,
                    container_hits: (old(self).container_hits + 1) as u64, ..*old(self) }
            } else {
                *old(self)
            },
    {
        if self.container_consultations < u64::MAX {
            self.container_consultations = self.container_consultations + 1;
            self.container_hits = self.container_hits + 1;
        }
    }

    /// Counts one container lookup the store did not answer, and why the product under its key
    /// was discarded.
    fn container_miss(&mut self, discarded: Option<Unusable>)
        requires
            counters_wf(*old(self)),
        ensures
            counters_wf(*final(self)),
            final(self).stored == old(self).stored,
            final(self).container_stored == old(self).container_stored,
            *final(self) == if old(self).container_consultations < u64::MAX {
                after_container_miss(*old(self), discarded)
            } else {
                *old(self)
            },
    {
        if self.container_consultations < u64::MAX {
            self.container_consultations = self.container_consultations + 1;
            self.container_misses = self.container_misses + 1;
            match discarded {
                Some(Unusable::Format) => self.discarded_format = bump(self.discarded_format),
                Some(Unusable::Registry) => self.discarded_registry = bump(self.discarded_registry),
                Some(Unusable::Product) => self.discarded_product = bump(self.discarded_product),
                None => {},
            }
        }
    }
}

/// One retained container product: the verified facts, keyed by their origin and schema, and the
/// declaration they were written under.
struct ContainerEntry {
    origin: ContainerOrigin,
    schema: u16,
    identity: FactsIdentity,
    facts: Arc<ContainerFacts>,
    weight: u64,
}

/// The product is stored under its own origin and this build's schema, weighs what its facts
/// retain, and holds verified facts.
spec fn container_entry_wf(e: ContainerEntry) -> bool {
    &&& same_origin(e.origin, e.facts.origin_of())
    &&& e.schema == CONTAINER_FACTS_SCHEMA
    &&& e.weight == e.facts.weight_of()
    &&& e.facts.verified()
}

spec fn containers_wf(s: Seq<ContainerEntry>) -> bool {
    forall|i: int| 0 <= i < s.len() ==> container_entry_wf(#[trigger] s[i])
}

/// No two products share an origin.
spec fn origins_distinct(s: Seq<ContainerEntry>) -> bool {
    forall|i: int, j: int| 0 <= i < j < s.len() ==> !same_origin(#[trigger] s[i].origin, #[trigger] s[j].origin)
}

/// The summed weight of some container products.
spec fn container_weight_sum(s: Seq<ContainerEntry>) -> nat
    decreases s.len(),
{
    if s.len() == 0 {
        0
    } else {
        container_weight_sum(s.drop_last()) + s.last().weight as nat
    }
}

proof fn lemma_container_weight_update(s: Seq<ContainerEntry>, i: int, e: ContainerEntry)
    requires
        0 <= i < s.len(),
    ensures
        container_weight_sum(s.update(i, e)) == container_weight_sum(s) - s[i].weight + e.weight,
    decreases s.len(),
{
    if i == s.len() - 1 {
        assert(s.update(i, e).drop_last() =~= s.drop_last());
    } else {
        lemma_container_weight_update(s.drop_last(), i, e);
        assert(s.update(i, e).drop_last() =~= s.drop_last().update(i, e));
    }
}

proof fn lemma_container_weight_remove(s: Seq<ContainerEntry>, i: int)
    requires
        0 <= i < s.len(),
    ensures
        container_weight_sum(s.remove(i)) == container_weight_sum(s) - s[i].weight,
    decreases s.len(),
{
    if i == s.len() - 1 {
        assert(s.remove(i) =~= s.drop_last());
    } else {
        lemma_container_weight_remove(s.drop_last(), i);
        assert(s.remove(i).drop_last() =~= s.drop_last().remove(i));
    }
}

proof fn lemma_container_weight_push(s: Seq<ContainerEntry>, e: ContainerEntry)
    ensures
        container_weight_sum(s.push(e)) == container_weight_sum(s) + e.weight,
{
    assert(s.push(e).drop_last() =~= s);
}

proof fn lemma_containers_remove_keeps(s: Seq<ContainerEntry>, i: int)
    requires
        0 <= i < s.len(),
        containers_wf(s),
        origins_distinct(s),
    ensures
        containers_wf(s.remove(i)),
        origins_distinct(s.remove(i)),
{
    let t = s.remove(i);
    assert forall|k: int| 0 <= k < t.len() implies container_entry_wf(#[trigger] t[k]) by {
        if k < i {
            assert(t[k] == s[k]);
        } else {
            assert(t[k] == s[k + 1]);
        }
    }
    assert forall|a: int, b: int| 0 <= a < b < t.len() implies !same_origin(#[trigger] t[a].origin, #[trigger] t[b].origin) by {
        let a0 = if a < i { a } else { a + 1 };
        let b0 = if b < i { b } else { b + 1 };
        assert(t[a] == s[a0]);
        assert(t[b] == s[b0]);
    }
}

proof fn lemma_containers_update_keeps(s: Seq<ContainerEntry>, i: int, e: ContainerEntry)
    requires
        0 <= i < s.len(),
        containers_wf(s),
        origins_distinct(s),
        container_entry_wf(e),
        same_origin(s[i].origin, e.origin),
    ensures
        containers_wf(s.update(i, e)),
        origins_distinct(s.update(i, e)),
{
    let t = s.update(i, e);
    assert forall|k: int| 0 <= k < t.len() implies container_entry_wf(#[trigger] t[k]) by {
        if k != i {
            assert(t[k] == s[k]);
        }
    }
    assert forall|a: int, b: int| 0 <= a < b < t.len() implies !same_origin(#[trigger] t[a].origin, #[trigger] t[b].origin) by {
        if a == i {
            lemma_same_origin_laws(s[i].origin, e.origin, s[b].origin);
            lemma_same_origin_laws(e.origin, s[i].origin, s[b].origin);
        } else if b == i {
            lemma_same_origin_laws(s[a].origin, e.origin, s[i].origin);
            lemma_same_origin_laws(s[i].origin, e.origin, s[a].origin);
            lemma_same_origin_laws(e.origin, s[i].origin, s[a].origin);
        }
    }
}

proof fn lemma_containers_push_keeps(s: Seq<ContainerEntry>, e: ContainerEntry)
    requires
        containers_wf(s),
        origins_distinct(s),
        container_entry_wf(e),
        forall|i: int| 0 <= i < s.len() ==> !same_origin(#[trigger] s[i].origin, e.origin),
    ensures
        containers_wf(s.push(e)),
        origins_distinct(s.push(e)),
{
    let t = s.push(e);
    assert forall|k: int| 0 <= k < t.len() implies container_entry_wf(#[trigger] t[k]) by {
        if k < s.len() {
            assert(t[k] == s[k]);
        }
    }
    assert forall|a: int, b: int| 0 <= a < b < t.len() implies !same_origin(#[trigger] t[a].origin, #[trigger] t[b].origin) by {
        assert(t[a] == s[a]);
        if b < s.len() {
            assert(t[b] == s[b]);
        }
    }
}

/// The product of `entries` stored under this origin, if any.
fn find_container(entries: &Vec<ContainerEntry>, origin: &ContainerOrigin) -> (r: Option<usize>)
    ensures
        r matches Some(i) ==> i < entries@.len() && same_origin(entries@[i as int].origin, *origin),
        r is None ==> forall|i: int| 0 <= i < entries@.len() ==> !same_origin(#[trigger] entries@[i].origin, *origin),
{
    let mut i: usize = 0;
    while i < entries.len()
        invariant
            i <= entries@.len(),
            forall|k: int| 0 <= k < i ==> !same_origin(#[trigger] entries@[k].origin, *origin),
        decreases entries@.len() - i,
    {
        if eq_origin(&entries[i].origin, origin) {
            return Some(i);
        }
        i = i + 1;
    }
    None
}

/// The entries and their counters, shared by every handle that reads them.
struct Store {
    capacity: FactsCapacity,
    entries: Vec<Entry>,
    containers: Vec<ContainerEntry>,
    retained_bytes: u64,
    counters: Counters,
}

spec fn store_wf(s: Store) -> bool {
    &&& entries_wf(s.entries@)
    &&& keys_distinct(s.entries@)
    &&& containers_wf(s.containers@)
    &&& origins_distinct(s.containers@)
    &&& s.entries@.len() + s.containers@.len() <= s.capacity.entries
    &&& s.retained_bytes == weight_sum(s.entries@) + container_weight_sum(s.containers@)
    &&& s.retained_bytes <= s.capacity.retained_bytes
    &&& counters_wf(s.counters)
    &&& s.entries@.len() <= s.counters.stored
    &&& s.containers@.len() <= s.counters.container_stored
}

/// The lock invariant of a store: it is well formed and keeps the capacity it was made with.
struct StoreBounds {
    capacity: FactsCapacity,
}

impl RwLockPredicate<Store> for StoreBounds {
    closed spec fn inv(self, v: Store) -> bool {
        store_wf(v) && v.capacity == self.capacity
    }
}

/// The entry of `entries` stored under this key, if any.
fn find(entries: &Vec<Entry>, digest: &String, length: u64, policy: ParsePolicy) -> (r: Option<usize>)
    ensures
        r matches Some(i) ==> i < entries@.len() && key_is(entries@[i as int], digest@, length, policy),
        r is None ==> forall|i: int| 0 <= i < entries@.len() ==> !key_is(#[trigger] entries@[i], digest@, length, policy),
{
    let mut i: usize = 0;
    while i < entries.len()
        invariant
            i <= entries@.len(),
            forall|k: int| 0 <= k < i ==> !key_is(#[trigger] entries@[k], digest@, length, policy),
        decreases entries@.len() - i,
    {
        let e = &entries[i];
        if e.length == length && e.policy == policy && e.digest == *digest {
            return Some(i);
        }
        i = i + 1;
    }
    None
}

/// What one store holds and has answered, as a caller holding a handle reports it.
#[derive(Clone, Copy, Debug, PartialEq, Eq, Structural)]
pub struct FactsReport {
    pub identity: FactsIdentity,
    pub capacity: FactsCapacity,
    /// How many class-fact entries the store holds now.
    pub entries: usize,
    /// How many container products the store holds now.
    pub containers: usize,
    /// The weight of everything the store holds now.
    pub retained_bytes: u64,
    /// Lookups asked of the store: `hits + misses`; a discarded entry counts as a miss.
    pub consultations: u64,
    pub hits: u64,
    pub misses: u64,
    /// Entries written by a read that ran to the end.
    pub stored: u64,
    /// Stores refused because the store already held `capacity.entries` answers.
    pub refused_capacity: u64,
    /// Stores refused because the answer would cross `capacity.retained_bytes`.
    pub refused_capacity_bytes: u64,
    /// Entries discarded because they were written in another entry format.
    pub discarded_format: u64,
    /// Entries discarded because they were parsed under another registry version.
    pub discarded_registry: u64,
    /// Entries discarded because they did not hold the product their policy names.
    pub discarded_product: u64,
    /// Container lookups asked of the store, answered from it, and not found.
    pub container_consultations: u64,
    pub container_hits: u64,
    pub container_misses: u64,
    /// Complete container products the store accepted.
    pub container_stored: u64,
    /// Container directories the requests holding a handle parsed.
    pub directory_parses: u64,
    /// Nested containers those requests materialized, and the bytes that produced.
    pub nested_materializations: u64,
    pub nested_materialized_bytes: u64,
}

/// `"format {} registry {} product {}"`.
pub open spec fn discards_text(r: FactsReport) -> Seq<char> {
    "format "@ + decimal(r.discarded_format as nat) + " registry "@ + decimal(r.discarded_registry as nat)
        + " product "@ + decimal(r.discarded_product as nat)
}

/// `"container {}/{} hits, directories parsed {}, nested materialized {} ({} bytes)"`.
pub open spec fn reuse_text(r: FactsReport) -> Seq<char> {
    "container "@ + decimal(r.container_hits as nat) + "/"@ + decimal(r.container_consultations as nat)
        + " hits, directories parsed "@ + decimal(r.directory_parses as nat) + ", nested materialized "@
        + decimal(r.nested_materializations as nat) + " ("@ + decimal(r.nested_materialized_bytes as nat)
        + " bytes)"@
}

/// `"{} entries / {} containers, {} retained bytes of {capacity} allowed; refused {} by entry
/// limit, {} by byte limit"`.
pub open spec fn residency_text(r: FactsReport) -> Seq<char> {
    decimal(r.entries as nat) + " entries / "@ + decimal(r.containers as nat) + " containers, "@
        + decimal(r.retained_bytes as nat) + " retained bytes of "@ + capacity_text(r.capacity)
        + " allowed; refused "@ + decimal(r.refused_capacity as nat) + " by entry limit, "@
        + decimal(r.refused_capacity_bytes as nat) + " by byte limit"@
}

impl FactsReport {
    /// Whether the store answered nothing it was asked.
    pub fn answered_nothing(&self) -> (b: bool)
        ensures
            b == (self.hits == 0),
    {
        self.hits == 0
    }

    /// The discards, as a one-line reading.
    pub fn discards(&self) -> (s: String)
        ensures
            s@ == discards_text(*self),
    {
        let mut s = String::new();
        s.append("format ");
        push_decimal(&mut s, self.discarded_format);
        s.append(" registry ");
        push_decimal(&mut s, self.discarded_registry);
        s.append(" product ");
        push_decimal(&mut s, self.discarded_product);
        assert(s@ =~= discards_text(*self));
        s
    }

    /// The reuse evidence, as a one-line reading.
    pub fn reuse(&self) -> (s: String)
        ensures
            s@ == reuse_text(*self),
    {
        let mut s = String::new();
        s.append("container ");
        push_decimal(&mut s, self.container_hits);
        s.append("/");
        push_decimal(&mut s, self.container_consultations);
        s.append(" hits, directories parsed ");
        push_decimal(&mut s, self.directory_parses);
        s.append(", nested materialized ");
        push_decimal(&mut s, self.nested_materializations);
        s.append(" (");
        push_decimal(&mut s, self.nested_materialized_bytes);
        s.append(" bytes)");
        assert(s@ =~= reuse_text(*self));
        s
    }

    /// The residency figure and the refusals, as a one-line reading.
    pub fn residency(&self) -> (s: String)
        ensures
            s@ == residency_text(*self),
    {
        let mut s = String::new();
        push_decimal(&mut s, self.entries as u64);
        s.append(" entries / ");
        push_decimal(&mut s, self.containers as u64);
        s.append(" containers, ");
        push_decimal(&mut s, self.retained_bytes);
        s.append(" retained bytes of ");
        let capacity = self.capacity.describe();
        s.append(capacity.as_str());
        s.append(" allowed; refused ");
        push_decimal(&mut s, self.refused_capacity);
        s.append(" by entry limit, ");
        push_decimal(&mut s, self.refused_capacity_bytes);
        s.append(" by byte limit");
        assert(s@ =~= residency_text(*self));
        s
    }
}

/// One store's handle: the entries, plus the declaration this handle reads them under. Every
/// clone of a handle shares one store.
pub struct FactsCache {
    shared: Arc<RwLock<Store, StoreBounds>>,
    identity: FactsIdentity,
    capacity: FactsCapacity,
}

/// `"facts cache ({identity}), capacity {capacity}"`.
pub open spec fn cache_text(identity: FactsIdentity, capacity: FactsCapacity) -> Seq<char> {
    "facts cache ("@ + identity_text(identity) + "), capacity "@ + capacity_text(capacity)
}

impl FactsCache {
    #[verifier::type_invariant]
    spec fn bound(self) -> bool {
        self.shared.pred().capacity == self.capacity
    }

    /// The declaration this handle reads the store under.
    pub closed spec fn identity_of(&self) -> FactsIdentity {
        self.identity
    }

    /// The capacity the store was made with.
    pub closed spec fn capacity_of(&self) -> FactsCapacity {
        self.capacity
    }

    /// A fresh, empty store read under `identity`, holding at most `capacity`.
    pub fn new(identity: FactsIdentity, capacity: FactsCapacity) -> (c: FactsCache)
        ensures
            c.identity_of() == identity,
            c.capacity_of() == capacity,
    {
        let store = Store {
            capacity,
            entries: Vec::new(),
            containers: Vec::new(),
            retained_bytes: 0,
            counters: Counters::zero(),
        };
        assert(weight_sum(store.entries@) == 0);
        assert(container_weight_sum(store.containers@) == 0);
        let lock = RwLock::new(store, Ghost(StoreBounds { capacity }));
        FactsCache { shared: Arc::new(lock), identity, capacity }
    }

    /// A fresh store read under this build's identity.
    pub fn current(capacity: FactsCapacity) -> (c: FactsCache)
        ensures
            c.identity_of().registry == HIGHEST_REGISTERED_MAJOR,
            c.identity_of().format == FACTS_FORMAT,
            c.capacity_of() == capacity,
    {
        FactsCache::new(FactsIdentity::current(), capacity)
    }

    /// Both handles work on one store: what one of them stores, clears or counts, the other
    /// sees.
    pub closed spec fn same_store(&self, other: &FactsCache) -> bool {
        self.shared == other.shared
    }

    /// A handle over the same entries, read under another declaration.
    pub fn over(&self, identity: FactsIdentity) -> (c: FactsCache)
        ensures
            c.identity_of() == identity,
            c.capacity_of() == self.capacity_of(),
            c.same_store(self),
    {
        proof {
            use_type_invariant(self);
        }
        FactsCache { shared: arc_share(&self.shared), identity, capacity: self.capacity }
    }

    pub fn identity(&self) -> (i: FactsIdentity)
        ensures
            i == self.identity_of(),
    {
        self.identity
    }

    pub fn capacity(&self) -> (c: FactsCapacity)
        ensures
            c == self.capacity_of(),
    {
        self.capacity
    }

    /// A stable one-line label for this handle's declaration, with no counter in it.
    pub fn describe(&self) -> (s: String)
        ensures
            s@ == cache_text(self.identity_of(), self.capacity_of()),
    {
        let mut s = String::new();
        s.append("facts cache (");
        let identity = self.identity.describe();
        s.append(identity.as_str());
        s.append("), capacity ");
        let capacity = self.capacity.describe();
        s.append(capacity.as_str());
        assert(s@ =~= cache_text(self.identity, self.capacity));
        s
    }

    /// Releases everything the store holds, leaving its counters and declaration in place. Every
    /// handle on the store sees it emptied.
    pub fn clear(&self) {
        proof {
            use_type_invariant(self);
        }
        let (mut store, handle) = self.shared.acquire_write();
        store.entries = Vec::new();
        store.containers = Vec::new();
        store.retained_bytes = 0;
        assert(weight_sum(store.entries@) == 0);
        assert(container_weight_sum(store.containers@) == 0);
        handle.release_write(store);
    }

    /// What the store holds and has answered. The store keeps its bounds and its books: what it
    /// holds never exceeds either bound of its capacity, every lookup was a hit or a miss, every
    /// discard was a miss, and nothing is held that was not stored.
    pub fn report(&self) -> (r: FactsReport)
        ensures
            r.identity == self.identity_of(),
            r.capacity == self.capacity_of(),
            r.entries + r.containers <= r.capacity.entries,
            r.retained_bytes <= r.capacity.retained_bytes,
            r.consultations == r.hits + r.misses,
            r.container_consultations == r.container_hits + r.container_misses,
            r.discarded_format + r.discarded_registry + r.discarded_product <= r.misses + r.container_misses,
            r.entries <= r.stored,
            r.containers <= r.container_stored,
    {
        proof {
            use_type_invariant(self);
        }
        let handle = self.shared.acquire_read();
        let store = handle.borrow();
        let c = store.counters;
        let r = FactsReport {
            identity: self.identity,
            capacity: store.capacity,
            entries: store.entries.len(),
            containers: store.containers.len(),
            retained_bytes: store.retained_bytes,
            consultations: c.consultations,
            hits: c.hits,
            misses: c.misses,
            stored: c.stored,
            refused_capacity: c.refused_capacity,
            refused_capacity_bytes: c.refused_capacity_bytes,
            discarded_format: c.discarded_format,
            discarded_registry: c.discarded_registry,
            discarded_product: c.discarded_product,
            container_consultations: c.container_consultations,
            container_hits: c.container_hits,
            container_misses: c.container_misses,
            container_stored: c.container_stored,
            directory_parses: c.directory_parses,
            nested_materializations: c.nested_materializations,
            nested_materialized_bytes: c.nested_materialized_bytes,
        };
        handle.release_read();
        r
    }
}

/// Another handle on the payload's value.
fn share_payload(p: &FactsPayload) -> (q: FactsPayload)
    ensures
        q == *p,
{
    match p {
        FactsPayload::Structure(f) => FactsPayload::Structure(arc_share(f)),
        FactsPayload::Header(h) => FactsPayload::Header(arc_share(h)),
    }
}

/// Whether one more answer of `weight` fits in the store beside what it holds: both bounds apply.
fn fits(store: &Store, weight: u64) -> (b: bool)
    requires
        store.retained_bytes <= store.capacity.retained_bytes,
        store.entries@.len() + store.containers@.len() <= store.capacity.entries,
    ensures
        b == (store.entries@.len() + store.containers@.len() < store.capacity.entries
            && weight <= store.capacity.retained_bytes && store.retained_bytes + weight <= store.capacity.retained_bytes),
{
    store.entries.len() + store.containers.len() < store.capacity.entries && weight <= store.capacity.retained_bytes
        && weight <= store.capacity.retained_bytes - store.retained_bytes
}

/// Adds one to a counter, stopping at `u64::MAX` rather than wrapping.
fn bump(n: u64) -> (m: u64)
    ensures
        m == if n < u64::MAX { n + 1 } else { n as int },
{
    if n < u64::MAX { n + 1 } else { n }
}

impl FactsCache {
    /// Why an entry is not answerable under this handle's declaration for `policy`: its entry
    /// format, then its registry version, then the product it holds.
    fn unusable(&self, policy: ParsePolicy, entry: &Entry) -> (r: Option<Unusable>)
        ensures
            r is None <==> (entry.identity == self.identity_of() && holds(policy, entry.payload)),
    {
        if entry.identity.format != self.identity.format {
            return Some(Unusable::Format);
        }
        if entry.identity.registry != self.identity.registry {
            return Some(Unusable::Registry);
        }
        if !payload_holds(policy, &entry.payload) {
            return Some(Unusable::Product);
        }
        None
    }

    /// The payload stored under the key, when it is answerable under this handle's declaration.
    /// The request is polled first; an entry written under another declaration is discarded and
    /// counted as a miss.
    fn take(&self, digest: String, length: u64, policy: ParsePolicy, budget: &Budget) -> (r: Result<Option<FactsPayload>>)
        ensures
            r matches Err(e) ==> crate::budget::honest_refusal(e, budget.limits_of()),
            r matches Err(e) ==> is_stop(e),
            r matches Ok(Some(p)) ==> exists|b: Seq<u8>| #![trigger payload_read(b, policy, p)]
                blake3_hex(b) == digest@ && b.len() == length && payload_read(b, policy, p),
            self.capacity_of().entries == 0 ==> !(r matches Ok(Some(_))),
            budget.limits_of().elapsed_millis == 0 ==> r is Err,
    {
        proof {
            use_type_invariant(self);
        }
        budget.poll()?;
        let (mut store, handle) = self.shared.acquire_write();
        let found = find(&store.entries, &digest, length, policy);
        match found {
            None => {
                store.counters.miss(None);
                handle.release_write(store);
                Ok(None)
            },
            Some(i) => {
                let reason = self.unusable(policy, &store.entries[i]);
                match reason {
                    Some(why) => {
                        let ghost before = store.entries@;
                        let removed = store.entries.remove(i);
                        proof {
                            lemma_weight_remove(before, i as int);
                            lemma_remove_keeps(before, i as int);
                        }
                        store.retained_bytes = store.retained_bytes - removed.weight;
                        store.counters.miss(Some(why));
                        handle.release_write(store);
                        Ok(None)
                    },
                    None => {
                        let payload = share_payload(&store.entries[i].payload);
                        proof {
                            let e = store.entries@[i as int];
                            assert(entry_wf(e));
                            assert(payload_read(e.source@, policy, payload));
                        }
                        store.counters.hit();
                        handle.release_write(store);
                        Ok(Some(payload))
                    },
                }
            },
        }
    }

    /// Writes one complete answer under its key, or refuses it because the store is full. A key
    /// the store already holds is rewritten; only a new key can be refused, and nothing is
    /// evicted to make room.
    fn keep(&self, digest: String, length: u64, policy: ParsePolicy, payload: FactsPayload, Ghost(source): Ghost<Seq<u8>>)
        requires
            digest@ == blake3_hex(source),
            length == source.len(),
            payload_read(source, policy, payload),
    {
        proof {
            use_type_invariant(self);
        }
        let entry = Entry { digest, length, policy, identity: self.identity, payload, weight: length, source: Ghost(source) };
        let ghost e = entry;
        let (mut store, handle) = self.shared.acquire_write();
        let found = find(&store.entries, &entry.digest, length, policy);
        match found {
            Some(i) => {
                let ghost before = store.entries@;
                store.entries.set(i, entry);
                proof {
                    lemma_weight_update(before, i as int, e);
                    lemma_update_keeps(before, i as int, e);
                }
                store.counters.stored = bump(store.counters.stored);
                handle.release_write(store);
            },
            None => {
                if !fits(&store, length) {
                    if store.entries.len() + store.containers.len() >= store.capacity.entries {
                        store.counters.refused_capacity = bump(store.counters.refused_capacity);
                    } else {
                        store.counters.refused_capacity_bytes = bump(store.counters.refused_capacity_bytes);
                    }
                    handle.release_write(store);
                    return;
                }
                let ghost before = store.entries@;
                store.retained_bytes = store.retained_bytes + length;
                store.entries.push(entry);
                proof {
                    lemma_weight_push(before, e);
                    lemma_push_keeps(before, e);
                }
                store.counters.stored = bump(store.counters.stored);
                handle.release_write(store);
            },
        }
    }

    /// The structure facts of `bytes`, when the store holds them under this handle's
    /// declaration. What it answers with is the complete structure read of bytes of the same
    /// content digest and length; a store that may retain nothing answers nothing.
    pub fn structure(&self, bytes: &[u8], budget: &Budget) -> (r: Result<Option<Arc<ClassFacts>>>)
        ensures
            r matches Err(e) ==> crate::budget::honest_refusal(e, budget.limits_of()),
            r matches Err(e) ==> is_stop(e),
            r matches Ok(Some(f)) ==> exists|b: Seq<u8>| #![trigger structure_read(b, *f)]
                blake3_hex(b) == blake3_hex(bytes@) && b.len() == bytes@.len() && structure_read(b, *f),
            self.capacity_of().entries == 0 ==> !(r matches Ok(Some(_))),
            budget.limits_of().elapsed_millis == 0 ==> r is Err,
    {
        let n = bytes.len();
        let digest = content_digest(bytes);
        let taken = self.take(digest.0, n as u64, ParsePolicy::Structure, budget)?;
        match taken {
            Some(FactsPayload::Structure(facts)) => Ok(Some(facts)),
            Some(FactsPayload::Header(_)) | None => Ok(None),
        }
    }

    /// Writes the structure facts of `bytes`. Only a read that ran to the end reaches this.
    pub fn remember_structure(&self, bytes: &[u8], facts: Arc<ClassFacts>)
        requires
            structure_read(bytes@, *facts),
    {
        let n = bytes.len();
        let digest = content_digest(bytes);
        self.keep(digest.0, n as u64, ParsePolicy::Structure, FactsPayload::Structure(facts), Ghost(bytes@));
    }

    /// The structure facts of `bytes`: the ones the store holds under this handle's declaration,
    /// else a complete structure read of `bytes`, which is then written to the store.
    pub fn class_facts_through(&self, bytes: &[u8], budget: &mut Budget) -> (r: Result<Arc<ClassFacts>>)
        ensures
            r matches Err(e) ==> crate::budget::honest_refusal(e, old(budget).limits_of()),
            final(budget).limits_of() == old(budget).limits_of(),
            r matches Ok(f) ==> exists|b: Seq<u8>| #![trigger structure_read(b, *f)]
                blake3_hex(b) == blake3_hex(bytes@) && b.len() == bytes@.len() && structure_read(b, *f),
            !crate::classfile::accepted(bytes@) && self.capacity_of().entries == 0 ==> r is Err,
    {
        match self.structure(bytes, budget)? {
            Some(facts) => return Ok(facts),
            None => {},
        }
        let facts = crate::classfile::class_facts(bytes, budget)?;
        let shared = Arc::new(facts);
        self.remember_structure(bytes, arc_share(&shared));
        Ok(shared)
    }

    /// The header inspection of `bytes` under `mode`: the one the store holds under this handle's
    /// declaration, else a complete header read of `bytes`, which is then written to the store.
    pub fn inspect_header_through(&self, bytes: &[u8], mode: InspectionMode, budget: &mut Budget)
        -> (r: Result<Arc<HeaderInspection>>)
        ensures
            r matches Err(e) ==> crate::budget::honest_refusal(e, old(budget).limits_of()),
            final(budget).limits_of() == old(budget).limits_of(),
            r matches Ok(h) ==> exists|b: Seq<u8>| #![trigger header_read(b, mode, *h)]
                blake3_hex(b) == blake3_hex(bytes@) && b.len() == bytes@.len() && header_read(b, mode, *h),
            !crate::classfile::accepted(bytes@) && self.capacity_of().entries == 0 ==> r is Err,
    {
        match self.header(bytes, mode, budget)? {
            Some(inspection) => return Ok(inspection),
            None => {},
        }
        let inspection = crate::classfile::inspect_header(bytes, budget, mode)?;
        let shared = Arc::new(inspection);
        self.remember_header(bytes, mode, arc_share(&shared));
        Ok(shared)
    }

    /// The header inspection of `bytes` under `mode`, when the store holds one under this
    /// handle's declaration. What it answers with is the complete header read, under the same
    /// mode, of bytes of the same content digest and length.
    pub fn header(&self, bytes: &[u8], mode: InspectionMode, budget: &Budget) -> (r: Result<Option<Arc<HeaderInspection>>>)
        ensures
            r matches Err(e) ==> crate::budget::honest_refusal(e, budget.limits_of()),
            r matches Err(e) ==> is_stop(e),
            r matches Ok(Some(h)) ==> exists|b: Seq<u8>| #![trigger header_read(b, mode, *h)]
                blake3_hex(b) == blake3_hex(bytes@) && b.len() == bytes@.len() && header_read(b, mode, *h),
            self.capacity_of().entries == 0 ==> !(r matches Ok(Some(_))),
            budget.limits_of().elapsed_millis == 0 ==> r is Err,
    {
        let n = bytes.len();
        let digest = content_digest(bytes);
        let policy = ParsePolicy::of(mode);
        let taken = self.take(digest.0, n as u64, policy, budget)?;
        match taken {
            Some(FactsPayload::Header(inspection)) => Ok(Some(inspection)),
            Some(FactsPayload::Structure(_)) | None => Ok(None),
        }
    }

    /// Writes the header inspection of `bytes` under `mode`. The version rule has already
    /// accepted it, so a refusal is never written.
    pub fn remember_header(&self, bytes: &[u8], mode: InspectionMode, inspection: Arc<HeaderInspection>)
        requires
            header_read(bytes@, mode, *inspection),
    {
        let n = bytes.len();
        let digest = content_digest(bytes);
        let policy = ParsePolicy::of(mode);
        self.keep(digest.0, n as u64, policy, FactsPayload::Header(inspection), Ghost(bytes@));
    }
}

impl FactsCache {
    /// Why a container product is not answerable under this handle's declaration: its entry
    /// format, then its registry version.
    fn unusable_container(&self, entry: &ContainerEntry) -> (r: Option<Unusable>)
        ensures
            r is None <==> entry.identity == self.identity_of(),
    {
        if entry.identity.format != self.identity.format {
            return Some(Unusable::Format);
        }
        if entry.identity.registry != self.identity.registry {
            return Some(Unusable::Registry);
        }
        None
    }

    /// The retained facts of the container at `origin`, when the store holds them under this
    /// handle's declaration.
    ///
    /// The current request decides first: it is polled, and the container's depth is checked
    /// against its own nesting limit, so facts retained under a wider allowance are never handed
    /// to a request that may not reach that depth. A product written under another declaration
    /// is discarded and counted as a miss.
    pub fn container(&self, origin: &ContainerOrigin, budget: &mut Budget) -> (r: Result<Option<Arc<ContainerFacts>>>)
        ensures
            r matches Err(e) ==> crate::budget::honest_refusal(e, old(budget).limits_of()),
            final(budget).limits_of() == old(budget).limits_of(),
            r matches Err(e) ==> is_stop(e) || is_budget(e, BudgetDimension::NestedDepth),
            origin.steps@.len() > old(budget).limits_of().nested_depth ==> r is Err,
            r matches Ok(Some(f)) ==> same_origin(f.origin_of(), *origin) && f.verified()
                && origin.steps@.len() <= old(budget).limits_of().nested_depth,
            self.capacity_of().entries == 0 ==> !(r matches Ok(Some(_))),
    {
        proof {
            use_type_invariant(self);
        }
        budget.poll()?;
        let depth = origin.steps.len() as u64;
        budget.check_nested_depth(depth)?;
        let (mut store, handle) = self.shared.acquire_write();
        match find_container(&store.containers, origin) {
            None => {
                store.counters.container_miss(None);
                handle.release_write(store);
                Ok(None)
            },
            Some(i) => {
                let reason = self.unusable_container(&store.containers[i]);
                match reason {
                    Some(why) => {
                        let ghost before = store.containers@;
                        let removed = store.containers.remove(i);
                        proof {
                            lemma_container_weight_remove(before, i as int);
                            lemma_containers_remove_keeps(before, i as int);
                        }
                        store.retained_bytes = store.retained_bytes - removed.weight;
                        store.counters.container_miss(Some(why));
                        handle.release_write(store);
                        Ok(None)
                    },
                    None => {
                        let facts = arc_share(&store.containers[i].facts);
                        proof {
                            let e = store.containers@[i as int];
                            assert(container_entry_wf(e));
                            lemma_same_origin_laws(facts.origin_of(), e.origin, *origin);
                            lemma_same_origin_laws(e.origin, facts.origin_of(), *origin);
                        }
                        store.counters.container_hit();
                        handle.release_write(store);
                        Ok(Some(facts))
                    },
                }
            },
        }
    }

    /// Offers one complete container product for retention. A product whose origin the store
    /// already holds is rewritten; a new one is refused, and counted, when it does not fit in the
    /// entry limit or the retained-byte limit. Nothing is evicted.
    pub fn remember_container(&self, facts: &Arc<ContainerFacts>) {
        proof {
            use_type_invariant(self);
            use_type_invariant(&**facts);
        }
        let origin = facts.origin().duplicate();
        let weight = facts.weight();
        let entry = ContainerEntry {
            origin,
            schema: CONTAINER_FACTS_SCHEMA,
            identity: self.identity,
            facts: arc_share(facts),
            weight,
        };
        let ghost e = entry;
        proof {
            lemma_same_origin_laws(entry.origin, facts.origin_of(), facts.origin_of());
        }
        let (mut store, handle) = self.shared.acquire_write();
        match find_container(&store.containers, &entry.origin) {
            Some(i) => {
                let ghost before = store.containers@;
                proof {
                    lemma_container_weight_remove(before, i as int);
                }
                let previous = store.containers[i].weight;
                let others = store.retained_bytes - previous;
                if weight > store.capacity.retained_bytes - others {
                    store.counters.refused_capacity_bytes = bump(store.counters.refused_capacity_bytes);
                    handle.release_write(store);
                    return;
                }
                store.containers.set(i, entry);
                proof {
                    lemma_container_weight_update(before, i as int, e);
                    lemma_containers_update_keeps(before, i as int, e);
                }
                store.retained_bytes = others + weight;
                store.counters.container_stored = bump(store.counters.container_stored);
                handle.release_write(store);
            },
            None => {
                if !fits(&store, weight) {
                    if store.entries.len() + store.containers.len() >= store.capacity.entries {
                        store.counters.refused_capacity = bump(store.counters.refused_capacity);
                    } else {
                        store.counters.refused_capacity_bytes = bump(store.counters.refused_capacity_bytes);
                    }
                    handle.release_write(store);
                    return;
                }
                let ghost before = store.containers@;
                store.retained_bytes = store.retained_bytes + weight;
                store.containers.push(entry);
                proof {
                    lemma_container_weight_push(before, e);
                    lemma_containers_push_keeps(before, e);
                }
                store.counters.container_stored = bump(store.counters.container_stored);
                handle.release_write(store);
            },
        }
    }

    /// Records that a request holding this handle parsed one container's directory.
    pub fn note_directory_parse(&self) {
        proof {
            use_type_invariant(self);
        }
        let (mut store, handle) = self.shared.acquire_write();
        store.counters.directory_parses = bump(store.counters.directory_parses);
        handle.release_write(store);
    }

    /// Records that a request holding this handle materialized one nested container of `bytes`
    /// bytes.
    pub fn note_nested_materialization(&self, bytes: u64) {
        proof {
            use_type_invariant(self);
        }
        let (mut store, handle) = self.shared.acquire_write();
        store.counters.nested_materializations = bump(store.counters.nested_materializations);
        let total = store.counters.nested_materialized_bytes;
        store.counters.nested_materialized_bytes = if total > u64::MAX - bytes { u64::MAX } else { total + bytes };
        handle.release_write(store);
    }
}

impl Clone for FactsCache {
    /// Another handle on the same store, read under the same declaration.
    fn clone(&self) -> (c: FactsCache)
        ensures
            c.identity_of() == self.identity_of(),
            c.capacity_of() == self.capacity_of(),
    {
        self.over(self.identity)
    }
}

} // verus!
