//! The modern structural facts of one class file, read under the release registry: `Record`
//! components, the `PermittedSubclasses` declaration, the deferred constant-dynamic graph and
//! modern string-concat sites, and the output-level answer over them.

use crate::attributes::{AttributeReader, BootstrapMethodFacts, UniqueAttribute, bootstrap_methods, ensure_unique, read_class_name_list};
use crate::budget::{Budget, CountedBudgetDimension, UsageSnapshot};
use crate::classfile::ClassFacts;
use crate::cpool::{CpEntryFacts, CpEntryKind, CpKind, cp_entry, cp_utf8, fact_at};
use crate::error::{Error, Result, is_budget, is_invalid, is_stop};
use crate::header::{AttributeShell, NestedAttributeFact, attribute_content, entry_offset};
use crate::model::{ByteSpan, Diagnostic, DiagnosticSeverity, JvmBytes};
use crate::release::{AttributePlacement, AttributeRule, ClassfileLocation, ConstantPoolTagRule, ConstantPoolTagStatus, attribute_diagnostic, attribute_placement, constant_pool_tag};
use crate::version::{ModernFeature, ModernOrigin, OutputLevel, OutputLevelConflict, OutputLevelStatus};
use vstd::prelude::*;

verus! {


/// `CONSTANT_Dynamic`.
pub const TAG_DYNAMIC: u8 = 17;
/// `CONSTANT_InvokeDynamic`.
pub const TAG_INVOKE_DYNAMIC: u8 = 18;

/// One `Record` component (JVMS 4.7.30).
#[derive(Clone, Debug, Eq, PartialEq)]
pub struct RecordComponentFacts {
    /// Zero-based position in the component list.
    pub index: u16,
    pub name_index: u16,
    pub name: JvmBytes,
    pub descriptor_index: u16,
    pub descriptor: JvmBytes,
    /// The component's own attributes, each with its index and ranges; none is interpreted.
    pub attributes: Vec<NestedAttributeFact>,
}

/// A class's `Record` attribute, with the release rule that placed it.
#[derive(Clone, Debug, Eq, PartialEq)]
pub struct RecordFacts {
    pub name_index: u16,
    pub span: ByteSpan,
    pub content_span: ByteSpan,
    pub components: Vec<RecordComponentFacts>,
    pub rule: AttributeRule,
}

/// A sealed class's `PermittedSubclasses` attribute, with the release rule that placed it.
#[derive(Clone, Debug, Eq, PartialEq)]
pub struct PermittedSubclassesFacts {
    pub name_index: u16,
    pub span: ByteSpan,
    pub content_span: ByteSpan,
    pub permitted: Vec<JvmBytes>,
    pub rule: AttributeRule,
}

/// One class-level attribute the registry holds a rule for, as one read found it.
#[derive(Clone, Debug, Eq, PartialEq)]
pub struct ModernAttributePlacement {
    pub name: JvmBytes,
    pub name_index: u16,
    pub span: ByteSpan,
    pub content_span: ByteSpan,
    pub placement: AttributePlacement,
    /// Whether this pass read the entry's content into a typed fact.
    pub read: bool,
}

/// Identity of one node of the deferred constant-dynamic graph.
#[derive(Clone, Copy, Debug, Eq, Ord, PartialEq, PartialOrd, Structural)]
pub enum CondyNodeRef {
    ConstantPool { index: u16 },
    Bootstrap { index: u16 },
}

/// What one constant-pool node is.
#[derive(Clone, Copy, Debug, Eq, PartialEq)]
pub enum CondyNodeKind {
    Dynamic,
    InvokeDynamic,
    MethodHandle,
    MethodType,
    StaticArgument,
}

/// One node of the graph.
#[derive(Clone, Debug, Eq, PartialEq)]
pub struct CondyNode {
    pub node: CondyNodeRef,
    /// `None` for a `BootstrapMethods` entry, which is a table position.
    pub kind: Option<CondyNodeKind>,
    pub span: Option<ByteSpan>,
}

/// Which reference one edge of the graph follows.
#[derive(Clone, Copy, Debug, Eq, Ord, PartialEq, PartialOrd, Structural)]
pub enum CondyEdgeKind {
    Bootstrap,
    BootstrapHandle,
    BootstrapArgument,
}

/// One edge of the graph.
#[derive(Clone, Copy, Debug, Eq, PartialEq)]
pub struct CondyEdge {
    pub kind: CondyEdgeKind,
    pub from: CondyNodeRef,
    pub to: CondyNodeRef,
    pub argument_index: Option<u16>,
}

/// One node one use-site reached, with the path that reached it.
#[derive(Clone, Debug, Eq, PartialEq)]
pub struct CondyReach {
    pub node: CondyNodeRef,
    /// Ordinals into the graph's edges, in the order they were walked from the use-site.
    pub via: Vec<u32>,
    /// The earlier reach of the same node, when the walk met the node again.
    pub repeat: Option<u32>,
}

impl CondyReach {
    /// Number of edges walked from the use-site.
    pub fn depth(&self) -> (d: usize)
        ensures
            d == self.via@.len(),
    {
        self.via.len()
    }
}

/// One entry point of the graph and everything it reaches.
#[derive(Clone, Debug, Eq, PartialEq)]
pub struct CondyUseSite {
    pub site: CondyNodeRef,
    pub reaches: Vec<CondyReach>,
}

/// One repeat that closed a cycle.
#[derive(Clone, Debug, Eq, PartialEq)]
pub struct CondyCycle {
    pub site: usize,
    pub reach: u32,
    pub node: CondyNodeRef,
}

/// Why a walk stopped before the graph was exhausted.
#[derive(Clone, Copy, Debug, Eq, PartialEq)]
pub enum CondyStop {
    Nodes { limit: u64 },
    Edges { limit: u64 },
    Steps { limit: u64 },
    Depth { limit: u64, entering: u64 },
}

/// What one graph walk consumed.
#[derive(Clone, Debug, Eq, PartialEq)]
pub struct CondyBudget {
    pub nodes: u64,
    pub edges: u64,
    pub steps: u64,
    pub max_depth: u64,
    pub stopped: Option<CondyStop>,
}

/// The deferred constant-dynamic graph of one class, as structural facts.
#[derive(Clone, Debug, Eq, PartialEq)]
pub struct CondyGraph {
    pub nodes: Vec<CondyNode>,
    pub edges: Vec<CondyEdge>,
    pub use_sites: Vec<CondyUseSite>,
    pub cycles: Vec<CondyCycle>,
    pub bootstrap_entries: u16,
    pub dynamic_tag: ConstantPoolTagStatus,
    pub budget: CondyBudget,
}

impl CondyGraph {
    /// Whether the walk reached the end of every use-site within its budget.
    pub fn is_complete(&self) -> (b: bool)
        ensures
            b <==> self.budget.stopped is None,
    {
        self.budget.stopped.is_none()
    }

    /// The node with this identity, when the walk registered it.
    pub fn node(&self, node: CondyNodeRef) -> (r: Option<&CondyNode>)
        ensures
            r matches Some(n) ==> n.node == node && self.nodes@.contains(*n),
            r is None ==> forall|i: int| 0 <= i < self.nodes@.len() ==> self.nodes@[i].node != node,
    {
        let mut i: usize = 0;
        while i < self.nodes.len()
            invariant
                i <= self.nodes@.len(),
                forall|j: int| 0 <= j < i ==> self.nodes@[j].node != node,
            decreases self.nodes@.len() - i,
        {
            if same_node(self.nodes[i].node, node) {
                assert(self.nodes@.contains(self.nodes@[i as int]));
                return Some(&self.nodes[i]);
            }
            i = i + 1;
        }
        None
    }
}

/// Whether two node identities are the same.
pub fn same_node(a: CondyNodeRef, b: CondyNodeRef) -> (r: bool)
    ensures
        r == (a == b),
{
    match (a, b) {
        (CondyNodeRef::ConstantPool { index: x }, CondyNodeRef::ConstantPool { index: y }) => x == y,
        (CondyNodeRef::Bootstrap { index: x }, CondyNodeRef::Bootstrap { index: y }) => x == y,
        _ => false,
    }
}

/// Which `StringConcatFactory` entry a site calls.
#[derive(Clone, Copy, Debug, Eq, PartialEq)]
pub enum ConcatStrategy {
    Concat,
    ConcatWithConstants,
    Other,
}

/// One `invokedynamic` site whose bootstrap handle names `java.lang.invoke.StringConcatFactory`.
#[derive(Clone, Debug, Eq, PartialEq)]
pub struct ConcatSite {
    pub constant_pool_index: u16,
    pub span: ByteSpan,
    pub name: JvmBytes,
    pub descriptor: JvmBytes,
    pub bootstrap_index: u16,
    pub strategy: ConcatStrategy,
    pub factory_owner: JvmBytes,
    pub factory_name: JvmBytes,
    pub factory_descriptor: JvmBytes,
    /// The bytes of a `makeConcatWithConstants` site's first static argument, when it is a
    /// `CONSTANT_String`.
    pub recipe: Option<JvmBytes>,
    pub tag_rule: ConstantPoolTagRule,
}

/// Every modern structural fact of one class, plus the output-level answer over them.
#[derive(Clone, Debug, Eq, PartialEq)]
pub struct ModernFacts {
    pub major_version: u16,
    pub attributes: Vec<ModernAttributePlacement>,
    pub record: Option<RecordFacts>,
    pub permitted_subclasses: Option<PermittedSubclassesFacts>,
    pub concat: Vec<ConcatSite>,
    pub condy: CondyGraph,
    pub output_level: OutputLevelStatus,
    pub diagnostics: Vec<Diagnostic>,
}

/// How many conflicts the facts hold for any level: one per record, one per sealed declaration,
/// one per concat site.
pub open spec fn conflict_count(f: ModernFacts) -> int {
    (if f.record is Some { 1int } else { 0 }) + (if f.permitted_subclasses is Some { 1int } else { 0 }) + f.concat@.len()
}

/// Conflict `c` answers `level` for a class attribute: its feature, the release rule's `since`
/// and source, and the attribute's name, name index and spans as its origin.
pub open spec fn attribute_conflict(c: OutputLevelConflict, feature: ModernFeature, level: OutputLevel,
    rule: crate::release::AttributeRule, name: Seq<u8>, name_index: u16, span: ByteSpan, content_span: ByteSpan) -> bool {
    &&& c.feature == feature && c.level == level && c.since == rule.since && c.source@ == rule.source@
    &&& match c.origin {
        ModernOrigin::ClassAttribute { name: n, name_index: ni, span: sp, content_span: cs } =>
            n.0@ == name && ni == name_index && sp == span && cs == content_span,
        _ => false,
    }
}

/// Conflict `c` answers `level` for a string-concat site: the tag rule's `since` and source, and
/// the site's pool entry as its origin.
pub open spec fn concat_conflict(c: OutputLevelConflict, level: OutputLevel, site: ConcatSite) -> bool {
    &&& c.feature == ModernFeature::StringConcat && c.level == level
    &&& c.since == site.tag_rule.since && c.source@ == site.tag_rule.source@
    &&& match c.origin {
        ModernOrigin::ConstantPoolEntry { index, span } => index == site.constant_pool_index && span == site.span,
        _ => false,
    }
}

/// The conflicts of `f` at `level`, in order: the `Record` components, the sealed class's
/// `PermittedSubclasses`, then each string-concat site in pool order.
pub open spec fn conflicts_of(f: ModernFacts, level: OutputLevel, cs: Seq<OutputLevelConflict>) -> bool {
    &&& cs.len() == conflict_count(f)
    &&& match f.record {
        Some(r) => attribute_conflict(cs[0], ModernFeature::RecordComponents, level, r.rule, crate::names::record_name(),
            r.name_index, r.span, r.content_span),
        None => true,
    }
    &&& match f.permitted_subclasses {
        Some(p) => attribute_conflict(cs[if f.record is Some { 1int } else { 0 }], ModernFeature::PermittedSubclasses, level,
            p.rule, crate::names::permitted_subclasses_name(), p.name_index, p.span, p.content_span),
        None => true,
    }
    &&& forall|k: int| 0 <= k < f.concat@.len() ==> concat_conflict(#[trigger] cs[conflict_head(f) + k], level, f.concat@[k])
}

/// How many class-attribute conflicts come before the string-concat ones.
pub open spec fn conflict_head(f: ModernFacts) -> int {
    (if f.record is Some { 1int } else { 0 }) + (if f.permitted_subclasses is Some { 1int } else { 0 })
}

/// `s` answers `level` for the facts `f`: representable exactly when nothing conflicts, else
/// the conflicts of `f`.
pub open spec fn level_assessed(f: ModernFacts, level: OutputLevel, s: OutputLevelStatus) -> bool {
    if conflict_count(f) == 0 {
        s == (OutputLevelStatus::Representable { level })
    } else {
        match s {
            OutputLevelStatus::Conflict { level: l, conflicts } => l == level && conflicts_of(f, level, conflicts@),
            _ => false,
        }
    }
}

fn span_copy(s: &ByteSpan) -> (r: ByteSpan)
    ensures
        r == *s,
{
    ByteSpan::new(s.start, s.length)
}

fn literal_name(record: bool) -> (b: JvmBytes)
    ensures
        record ==> b.0@ == crate::names::record_name(),
        !record ==> b.0@ == crate::names::permitted_subclasses_name(),
{
    if record {
        let b = JvmBytes(vec![82u8, 101, 99, 111, 114, 100]);
        assert(b.0@ =~= crate::names::record_name());
        b
    } else {
        let b = JvmBytes(vec![80u8, 101, 114, 109, 105, 116, 116, 101, 100, 83, 117, 98, 99, 108, 97, 115, 115, 101, 115]);
        assert(b.0@ =~= crate::names::permitted_subclasses_name());
        b
    }
}

impl ModernFacts {
    /// The output-level answer over these facts: `Representable` when no modern construct is
    /// present, otherwise a conflict per construct, each naming the fact's origin and the release
    /// rule that requires it. The facts themselves are untouched.
    pub fn assess_output_level(&self, level: OutputLevel) -> (s: OutputLevelStatus)
        ensures
            level_assessed(*self, level, s),
    {
        let mut conflicts: Vec<OutputLevelConflict> = Vec::new();
        match &self.record {
            Some(record) => {
                conflicts.push(OutputLevelConflict {
                    feature: ModernFeature::RecordComponents,
                    level,
                    since: record.rule.since,
                    source: String::from_str(record.rule.source),
                    origin: ModernOrigin::ClassAttribute {
                        name: literal_name(true),
                        name_index: record.name_index,
                        span: span_copy(&record.span),
                        content_span: span_copy(&record.content_span),
                    },
                });
            },
            None => {},
        }
        match &self.permitted_subclasses {
            Some(sealed) => {
                conflicts.push(OutputLevelConflict {
                    feature: ModernFeature::PermittedSubclasses,
                    level,
                    since: sealed.rule.since,
                    source: String::from_str(sealed.rule.source),
                    origin: ModernOrigin::ClassAttribute {
                        name: literal_name(false),
                        name_index: sealed.name_index,
                        span: span_copy(&sealed.span),
                        content_span: span_copy(&sealed.content_span),
                    },
                });
            },
            None => {},
        }
        let ghost head = conflicts@.len();
        let mut i: usize = 0;
        while i < self.concat.len()
            invariant
                i <= self.concat@.len(),
                head == (if self.record is Some { 1int } else { 0 }) + (if self.permitted_subclasses is Some { 1int } else { 0 }),
                conflicts@.len() == head + i,
                match self.record {
                    Some(r) => attribute_conflict(conflicts@[0], ModernFeature::RecordComponents, level, r.rule,
                        crate::names::record_name(), r.name_index, r.span, r.content_span),
                    None => true,
                },
                match self.permitted_subclasses {
                    Some(p) => attribute_conflict(conflicts@[if self.record is Some { 1int } else { 0 }],
                        ModernFeature::PermittedSubclasses, level, p.rule, crate::names::permitted_subclasses_name(),
                        p.name_index, p.span, p.content_span),
                    None => true,
                },
                head == conflict_head(*self),
                forall|k: int| 0 <= k < i ==> concat_conflict(#[trigger] conflicts@[conflict_head(*self) + k], level, self.concat@[k]),
            decreases self.concat@.len() - i,
        {
            let site = &self.concat[i];
            conflicts.push(OutputLevelConflict {
                feature: ModernFeature::StringConcat,
                level,
                since: site.tag_rule.since,
                source: String::from_str(site.tag_rule.source),
                origin: ModernOrigin::ConstantPoolEntry { index: site.constant_pool_index, span: span_copy(&site.span) },
            });
            i = i + 1;
        }
        if conflicts.len() == 0 {
            OutputLevelStatus::Representable { level }
        } else {
            OutputLevelStatus::Conflict { level, conflicts }
        }
    }

    /// The graph's own completeness.
    pub fn is_complete(&self) -> (b: bool)
        ensures
            b <==> self.condy.budget.stopped is None,
    {
        self.condy.is_complete()
    }
}

/// The `BootstrapMethods` index a dynamic entry names.
pub open spec fn bootstrap_of(k: crate::cpool::CpKind) -> Option<u16> {
    match k {
        CpKind::Dynamic { bootstrap_method_attr_index, .. } => Some(bootstrap_method_attr_index),
        CpKind::InvokeDynamic { bootstrap_method_attr_index, .. } => Some(bootstrap_method_attr_index),
        _ => None,
    }
}

fn dynamic_bootstrap(kind: &CpEntryKind) -> (r: Option<u16>)
    ensures
        r == bootstrap_of(kind@),
{
    match kind {
        CpEntryKind::Dynamic { bootstrap_method_attr_index, .. } => Some(*bootstrap_method_attr_index),
        CpEntryKind::InvokeDynamic { bootstrap_method_attr_index, .. } => Some(*bootstrap_method_attr_index),
        _ => None,
    }
}

/// What a graph node of a pool entry of kind `k` is.
pub open spec fn node_kind_of(k: crate::cpool::CpKind) -> CondyNodeKind {
    match k {
        CpKind::Dynamic { .. } => CondyNodeKind::Dynamic,
        CpKind::InvokeDynamic { .. } => CondyNodeKind::InvokeDynamic,
        CpKind::MethodHandle { .. } => CondyNodeKind::MethodHandle,
        CpKind::MethodType { .. } => CondyNodeKind::MethodType,
        _ => CondyNodeKind::StaticArgument,
    }
}

/// An edge follows a reference the structures declare: a dynamic pool entry's bootstrap
/// index, a bootstrap entry's handle, or one of its static arguments by position.
pub open spec fn declared_edge(pool: Seq<CpEntryFacts>, bootstraps: Seq<BootstrapMethodFacts>, e: CondyEdge) -> bool {
    match e.kind {
        CondyEdgeKind::Bootstrap => e.argument_index is None && exists|k: int| 0 <= k < pool.len()
            && e.from == (CondyNodeRef::ConstantPool { index: (#[trigger] pool[k]).index })
            && match bootstrap_of(pool[k].kind@) {
                Some(b) => e.to == (CondyNodeRef::Bootstrap { index: b }),
                None => false,
            },
        CondyEdgeKind::BootstrapHandle => e.argument_index is None && match e.from {
            CondyNodeRef::Bootstrap { index } => index < bootstraps.len()
                && e.to == (CondyNodeRef::ConstantPool { index: bootstraps[index as int].method_ref }),
            _ => false,
        },
        CondyEdgeKind::BootstrapArgument => match (e.from, e.argument_index) {
            (CondyNodeRef::Bootstrap { index }, Some(a)) => index < bootstraps.len()
                && a < bootstraps[index as int].arguments@.len()
                && e.to == (CondyNodeRef::ConstantPool { index: bootstraps[index as int].arguments@[a as int] }),
            _ => false,
        },
    }
}

/// A node states what the pool says of it: a pool node its entry's kind and span, a table
/// position neither.
pub open spec fn node_declared(pool: Seq<CpEntryFacts>, n: CondyNode) -> bool {
    match n.node {
        CondyNodeRef::ConstantPool { index } => exists|k: int| 0 <= k < pool.len() && (#[trigger] pool[k]).index == index
            && n.kind == Some(node_kind_of(pool[k].kind@)) && n.span == Some(pool[k].span),
        CondyNodeRef::Bootstrap { .. } => n.kind is None && n.span is None,
    }
}

/// The use-sites a complete walk has: every `CONSTANT_Dynamic` and `CONSTANT_InvokeDynamic`
/// entry among the first `n` of the pool, in pool order.
pub open spec fn dynamic_sites(pool: Seq<CpEntryFacts>, n: int) -> Seq<CondyNodeRef>
    decreases n,
{
    if n <= 0 {
        Seq::empty()
    } else if bootstrap_of(pool[n - 1].kind@) is Some {
        dynamic_sites(pool, n - 1).push(CondyNodeRef::ConstantPool { index: pool[n - 1].index })
    } else {
        dynamic_sites(pool, n - 1)
    }
}

/// The dynamic entries of a shorter prefix of the pool come first among those of a longer one.
proof fn lemma_dynamic_sites_grow(pool: Seq<CpEntryFacts>, a: int, b: int)
    requires
        0 <= a <= b,
    ensures
        dynamic_sites(pool, a).is_prefix_of(dynamic_sites(pool, b)),
    decreases b - a,
{
    if a < b {
        lemma_dynamic_sites_grow(pool, a, b - 1);
        let x = dynamic_sites(pool, a);
        let y = dynamic_sites(pool, b - 1);
        assert forall|k: int| 0 <= k < x.len() implies dynamic_sites(pool, b)[k] == x[k] by {
            assert(y[k] == x[k]);
        }
    }
}

/// The entry points of a list of use-sites, in order.
pub open spec fn site_refs(sites: Seq<CondyUseSite>) -> Seq<CondyNodeRef> {
    sites.map_values(|u: CondyUseSite| u.site)
}

/// A stop of the graph walk names the limit that refused it.
pub open spec fn condy_stop_ok(stopped: Option<CondyStop>, limits: crate::budget::Limits) -> bool {
    match stopped {
        None => true,
        Some(CondyStop::Nodes { limit }) => limit == limits.counted(CountedBudgetDimension::IrItems),
        Some(CondyStop::Edges { limit }) => limit == limits.counted(CountedBudgetDimension::IrEdges),
        Some(CondyStop::Steps { limit }) => limit == limits.counted(CountedBudgetDimension::AnalysisSteps),
        Some(CondyStop::Depth { limit, .. }) => limit == limits.dependency_depth,
    }
}

/// What the graph of a class states of its pool and bootstrap table: its edges are references
/// the structures declare, between nodes that state their entries; its use-sites are the
/// dynamic entries of the pool in pool order, all of them unless the walk stopped; each reach
/// of a use-site is the end of a path of graph edges from it, the first the site itself; and a
/// walk that did not stop registered every use-site and expanded every node it registered, so
/// each reference the structures declare out of a node is an edge of the graph.
pub open spec fn condy_of(pool: Seq<CpEntryFacts>, bootstraps: Seq<BootstrapMethodFacts>, g: CondyGraph) -> bool {
    &&& graph_wf(g.nodes@, g.edges@, g.use_sites@)
    &&& forall|e: int| 0 <= e < g.edges@.len() ==> declared_edge(pool, bootstraps, #[trigger] g.edges@[e])
    &&& forall|i: int| 0 <= i < g.nodes@.len() ==> node_declared(pool, #[trigger] g.nodes@[i])
    &&& site_refs(g.use_sites@).is_prefix_of(dynamic_sites(pool, pool.len() as int))
    &&& (g.budget.stopped is None ==> site_refs(g.use_sites@) == dynamic_sites(pool, pool.len() as int))
    &&& forall|s: int| 0 <= s < g.use_sites@.len() ==> sites_reach(g.edges@, #[trigger] g.use_sites@[s])
    &&& (g.budget.stopped is None ==> forall|s: int| 0 <= s < g.use_sites@.len() ==> listed(g.nodes@, (#[trigger] g.use_sites@[s]).site))
    &&& (g.budget.stopped is None && crate::cpool::facts_sorted(pool) ==> forall|i: int| 0 <= i < g.nodes@.len()
        ==> closed_at(pool, bootstraps, g.edges@, (#[trigger] g.nodes@[i]).node))
}

/// Every reach of a use-site ends a path of edges from the site, and the first is the site.
pub open spec fn sites_reach(edges: Seq<CondyEdge>, u: CondyUseSite) -> bool {
    &&& u.reaches@.len() > 0 ==> u.reaches@[0].node == u.site && u.reaches@[0].via@.len() == 0
    &&& forall|x: int| 0 <= x < u.reaches@.len() ==> path_end(edges, u.site, (#[trigger] u.reaches@[x]).via@) == Some(u.reaches@[x].node)
}

fn node_kind(kind: &CpEntryKind) -> (k: CondyNodeKind)
    ensures
        k == node_kind_of(kind@),
        kind is Dynamic ==> k == CondyNodeKind::Dynamic,
        kind is InvokeDynamic ==> k == CondyNodeKind::InvokeDynamic,
        kind is MethodHandle ==> k == CondyNodeKind::MethodHandle,
        kind is MethodType ==> k == CondyNodeKind::MethodType,
{
    match kind {
        CpEntryKind::Dynamic { .. } => CondyNodeKind::Dynamic,
        CpEntryKind::InvokeDynamic { .. } => CondyNodeKind::InvokeDynamic,
        CpEntryKind::MethodHandle { .. } => CondyNodeKind::MethodHandle,
        CpEntryKind::MethodType { .. } => CondyNodeKind::MethodType,
        _ => CondyNodeKind::StaticArgument,
    }
}

/// One diagnostic of this pass: a structural finding, with no provenance.
fn fact_diagnostic(code: &str, severity: DiagnosticSeverity, message: String) -> (d: Diagnostic)
    ensures
        d.code@ == code@ && d.severity == severity && d.message@ == message@ && d.provenance is None,
{
    Diagnostic { code: String::from_str(code), severity, message, provenance: None }
}


/// One counted dimension of the walk.
#[derive(Clone, Copy)]
enum GraphDimension {
    Nodes,
    Edges,
    Steps,
}

impl GraphDimension {
    spec fn dim(self) -> CountedBudgetDimension {
        match self {
            GraphDimension::Nodes => CountedBudgetDimension::IrItems,
            GraphDimension::Edges => CountedBudgetDimension::IrEdges,
            GraphDimension::Steps => CountedBudgetDimension::AnalysisSteps,
        }
    }

    fn counted(self) -> (d: CountedBudgetDimension)
        ensures
            d == self.dim(),
    {
        match self {
            GraphDimension::Nodes => CountedBudgetDimension::IrItems,
            GraphDimension::Edges => CountedBudgetDimension::IrEdges,
            GraphDimension::Steps => CountedBudgetDimension::AnalysisSteps,
        }
    }

    fn stop(self, limit: u64) -> (s: CondyStop)
        ensures
            s == match self {
                GraphDimension::Nodes => CondyStop::Nodes { limit },
                GraphDimension::Edges => CondyStop::Edges { limit },
                GraphDimension::Steps => CondyStop::Steps { limit },
            },
    {
        match self {
            GraphDimension::Nodes => CondyStop::Nodes { limit },
            GraphDimension::Edges => CondyStop::Edges { limit },
            GraphDimension::Steps => CondyStop::Steps { limit },
        }
    }
}

/// One frame of the walk: an explicit stack, so only the depth budget measures depth.
enum Step {
    Enter { node: CondyNodeRef, via: Vec<u32> },
    Exit(CondyNodeRef),
}

/// A constant-pool node names an entry of the table; a bootstrap node is a table position.
pub open spec fn node_present(pool: Seq<CpEntryFacts>, n: CondyNodeRef) -> bool {
    match n {
        CondyNodeRef::ConstantPool { index } => present(pool, index),
        CondyNodeRef::Bootstrap { .. } => true,
    }
}

/// Every bootstrap entry's handle and arguments name entries of the table, and no entry has
/// more arguments than a `u16` count declares.
pub open spec fn bootstraps_present(pool: Seq<CpEntryFacts>, bootstraps: Seq<BootstrapMethodFacts>) -> bool {
    forall|b: int| 0 <= b < bootstraps.len() ==> {
        &&& present(pool, (#[trigger] bootstraps[b]).method_ref)
        &&& bootstraps[b].arguments@.len() <= 0x10000
        &&& forall|a: int| 0 <= a < bootstraps[b].arguments@.len() ==> present(pool, bootstraps[b].arguments@[a])
    }
}

/// The references a walk follows all name entries of a table in index order.
pub open spec fn walk_sound(pool: Seq<CpEntryFacts>, bootstraps: Seq<BootstrapMethodFacts>) -> bool {
    crate::cpool::facts_sorted(pool) && bootstraps_present(pool, bootstraps)
}

/// The node is registered.
pub open spec fn listed(nodes: Seq<CondyNode>, n: CondyNodeRef) -> bool {
    exists|i: int| 0 <= i < nodes.len() && #[trigger] nodes[i].node == n
}

/// Every ordinal of a path names an edge.
pub open spec fn path_in(via: Seq<u32>, edge_count: int) -> bool {
    forall|k: int| 0 <= k < via.len() ==> #[trigger] via[k] < edge_count
}

/// Where walking the edges `path` names, in order, from `site` arrives: `None` when an ordinal
/// names no edge or an edge does not leave where the previous one arrived.
pub open spec fn path_end(edges: Seq<CondyEdge>, site: CondyNodeRef, path: Seq<u32>) -> Option<CondyNodeRef>
    decreases path.len(),
{
    if path.len() == 0 {
        Some(site)
    } else {
        match path_end(edges, site, path.drop_last()) {
            Some(n) => if path.last() < edges.len() && edges[path.last() as int].from == n {
                Some(edges[path.last() as int].to)
            } else {
                None
            },
            None => None,
        }
    }
}

/// A path that grows by one edge leaving where it arrived arrives where that edge does.
proof fn lemma_path_push(edges: Seq<CondyEdge>, site: CondyNodeRef, path: Seq<u32>, node: CondyNodeRef, o: u32)
    requires
        path_end(edges, site, path) == Some(node),
        o < edges.len(),
        edges[o as int].from == node,
    ensures
        path_end(edges, site, path.push(o)) == Some(edges[o as int].to),
{
    assert(path.push(o).drop_last() =~= path);
}

/// A path keeps its end when edges are appended to the graph.
proof fn lemma_path_extend(edges: Seq<CondyEdge>, more: Seq<CondyEdge>, site: CondyNodeRef, path: Seq<u32>)
    requires
        path_end(edges, site, path) is Some,
        edges.is_prefix_of(more),
    ensures
        path_end(more, site, path) == path_end(edges, site, path),
    decreases path.len(),
{
    if path.len() > 0 {
        lemma_path_extend(edges, more, site, path.drop_last());
    }
}

/// A path that arrives somewhere names only edges of the graph.
proof fn lemma_path_in(edges: Seq<CondyEdge>, site: CondyNodeRef, path: Seq<u32>)
    requires
        path_end(edges, site, path) is Some,
    ensures
        path_in(path, edges.len() as int),
    decreases path.len(),
{
    if path.len() > 0 {
        lemma_path_in(edges, site, path.drop_last());
        assert forall|k: int| 0 <= k < path.len() implies #[trigger] path[k] < edges.len() by {
            if k < path.len() - 1 {
                assert(path.drop_last()[k] == path[k]);
            }
        }
    }
}

/// The structural facts of a graph: every edge joins registered nodes, and every reach's path
/// names edges of the graph.
pub open spec fn graph_wf(nodes: Seq<CondyNode>, edges: Seq<CondyEdge>, sites: Seq<CondyUseSite>) -> bool {
    &&& forall|e: int| 0 <= e < edges.len() ==> listed(nodes, (#[trigger] edges[e]).from) && listed(nodes, edges[e].to)
    &&& forall|s: int, r: int| 0 <= s < sites.len() && 0 <= r < sites[s].reaches@.len()
        ==> path_in((#[trigger] sites[s].reaches@[r]).via@, edges.len() as int)
}

/// The mutable state of one class's graph walk.
struct Walk<'a> {
    pool: &'a [CpEntryFacts],
    bootstraps: &'a [BootstrapMethodFacts],
    nodes: Vec<CondyNode>,
    edges: Vec<CondyEdge>,
    use_sites: Vec<CondyUseSite>,
    cycles: Vec<CondyCycle>,
    budget: CondyBudget,
}

impl<'a> Walk<'a> {
    spec fn wf(&self, usage: UsageSnapshot, limits: crate::budget::Limits) -> bool {
        &&& condy_stop_ok(self.budget.stopped, limits)
        &&& forall|e: int| 0 <= e < self.edges@.len() ==> declared_edge(self.pool@, self.bootstraps@, #[trigger] self.edges@[e])
        &&& forall|i: int| 0 <= i < self.nodes@.len() ==> node_declared(self.pool@, #[trigger] self.nodes@[i])
        &&& forall|s: int| 0 <= s < self.use_sites@.len() ==> sites_reach(self.edges@, #[trigger] self.use_sites@[s])
        &&& self.budget.nodes <= usage.counted(CountedBudgetDimension::IrItems)
        &&& self.budget.edges <= usage.counted(CountedBudgetDimension::IrEdges)
        &&& self.budget.steps <= usage.counted(CountedBudgetDimension::AnalysisSteps)
        &&& graph_wf(self.nodes@, self.edges@, self.use_sites@)
    }

    /// Charges one graph dimension: `Ok(false)` when that dimension's limit refused it, which
    /// stops the walk without failing the read; any other refusal is returned as the error it is.
    fn charge(&mut self, budget: &mut Budget, dimension: GraphDimension) -> (r: Result<bool>)
        requires
            old(self).wf(old(budget).usage_of(), old(budget).limits_of()),
        ensures
            r matches Err(e) ==> crate::budget::honest_refusal(e, old(budget).limits_of()),
            final(self).wf(final(budget).usage_of(), final(budget).limits_of()),
            final(budget).limits_of() == old(budget).limits_of(),
            final(self).nodes@ == old(self).nodes@,
            final(self).edges@ == old(self).edges@,
            final(self).use_sites@ == old(self).use_sites@,
            final(self).pool@ == old(self).pool@,
            final(self).bootstraps@ == old(self).bootstraps@,
            r == Ok::<bool, Error>(true) ==> final(budget).usage_of() == old(budget).usage_of().with_counted(dimension.dim(),
                (old(budget).usage_of().counted(dimension.dim()) + 1) as u64)
                && old(budget).usage_of().counted(dimension.dim()) + 1 <= old(budget).limits_of().counted(dimension.dim()),
            !(r == Ok::<bool, Error>(true)) ==> final(budget).usage_of() == old(budget).usage_of(),
            r == Ok::<bool, Error>(false) ==> final(self).budget.stopped is Some,
            r == Ok::<bool, Error>(true) ==> final(self).budget.stopped == old(self).budget.stopped,
            r matches Err(e) ==> is_stop(e),
    {
        let counted = dimension.counted();
        match budget.charge(counted, 1) {
            Ok(()) => {
                proof {
                    crate::budget::lemma_with_counted(old(budget).usage_of(), counted, (old(budget).usage_of().counted(counted) + 1) as u64, CountedBudgetDimension::IrItems);
                    crate::budget::lemma_with_counted(old(budget).usage_of(), counted, (old(budget).usage_of().counted(counted) + 1) as u64, CountedBudgetDimension::IrEdges);
                    crate::budget::lemma_with_counted(old(budget).usage_of(), counted, (old(budget).usage_of().counted(counted) + 1) as u64, CountedBudgetDimension::AnalysisSteps);
                }
                match dimension {
                    GraphDimension::Nodes => self.budget.nodes = self.budget.nodes + 1,
                    GraphDimension::Edges => self.budget.edges = self.budget.edges + 1,
                    GraphDimension::Steps => self.budget.steps = self.budget.steps + 1,
                }
                Ok(true)
            },
            Err(e) => {
                let refused_here = match &e {
                    Error::BudgetExceeded { dimension: refused, .. } => *refused == counted.dimension(),
                    _ => false,
                };
                if refused_here {
                    let limit = budget.limits().counted_limit(counted);
                    self.budget.stopped = Some(dimension.stop(limit));
                    Ok(false)
                } else {
                    Err(e)
                }
            },
        }
    }
}



impl<'a> Walk<'a> {
    /// Whether a node is registered.
    fn has_node(&self, node: CondyNodeRef) -> (b: bool)
        ensures
            b == listed(self.nodes@, node),
    {
        let mut i: usize = 0;
        while i < self.nodes.len()
            invariant
                i <= self.nodes@.len(),
                forall|j: int| 0 <= j < i ==> self.nodes@[j].node != node,
            decreases self.nodes@.len() - i,
        {
            if same_node(self.nodes[i].node, node) {
                return true;
            }
            i = i + 1;
        }
        false
    }

    /// Registers a node once, charging it as a derived item.
    fn ensure_node(&mut self, budget: &mut Budget, node: CondyNodeRef) -> (r: Result<bool>)
        requires
            old(self).wf(old(budget).usage_of(), old(budget).limits_of()),
        ensures
            r matches Err(e) ==> crate::budget::honest_refusal(e, old(budget).limits_of()),
            final(self).wf(final(budget).usage_of(), final(budget).limits_of()),
            final(budget).limits_of() == old(budget).limits_of(),
            final(budget).usage_of().counted(CountedBudgetDimension::AnalysisSteps) == old(budget).usage_of().counted(CountedBudgetDimension::AnalysisSteps),
            final(self).edges@ == old(self).edges@,
            final(self).use_sites@ == old(self).use_sites@,
            final(self).pool@ == old(self).pool@,
            final(self).bootstraps@ == old(self).bootstraps@,
            forall|n: CondyNodeRef| listed(old(self).nodes@, n) ==> listed(final(self).nodes@, n),
            forall|n: CondyNodeRef| #[trigger] listed(final(self).nodes@, n) ==> listed(old(self).nodes@, n) || n == node,
            r == Ok::<bool, Error>(true) ==> listed(final(self).nodes@, node),
            r == Ok::<bool, Error>(false) ==> final(self).budget.stopped is Some,
            r == Ok::<bool, Error>(true) ==> final(self).budget.stopped == old(self).budget.stopped,
            r matches Err(e) ==> is_stop(e) || is_invalid(e, "classfile_invalid_constant_pool_index"@),
            r matches Err(e) ==> is_stop(e) || !(crate::cpool::facts_sorted(old(self).pool@) && node_present(old(self).pool@, node)),
    {
        if self.has_node(node) {
            return Ok(true);
        }
        let ghost usage0 = budget.usage_of();
        if !self.charge(budget, GraphDimension::Nodes)? {
            return Ok(false);
        }
        proof {
            crate::budget::lemma_with_counted(usage0, CountedBudgetDimension::IrItems,
                (usage0.counted(CountedBudgetDimension::IrItems) + 1) as u64, CountedBudgetDimension::AnalysisSteps);
        }
        let entry = match node {
            CondyNodeRef::ConstantPool { index } => {
                let fact = cp_entry(self.pool, index)?;
                CondyNode { node, kind: Some(node_kind(&fact.kind)), span: Some(span_copy(&fact.span)) }
            },
            CondyNodeRef::Bootstrap { .. } => CondyNode { node, kind: None, span: None },
        };
        let ghost before = self.nodes@;
        self.nodes.push(entry);
        proof {
            assert(self.nodes@[before.len() as int].node == node);
            assert forall|n: CondyNodeRef| listed(before, n) implies listed(self.nodes@, n) by {
                let i = choose|i: int| 0 <= i < before.len() && #[trigger] before[i].node == n;
                assert(self.nodes@[i].node == n);
            }
        }
        Ok(true)
    }

    /// Adds an edge once and returns its ordinal; the same reference keeps one ordinal.
    fn edge(&mut self, budget: &mut Budget, edge: CondyEdge) -> (r: Result<Option<u32>>)
        requires
            old(self).wf(old(budget).usage_of(), old(budget).limits_of()),
            declared_edge(old(self).pool@, old(self).bootstraps@, edge),
        ensures
            r matches Err(e) ==> crate::budget::honest_refusal(e, old(budget).limits_of()),
            final(self).wf(final(budget).usage_of(), final(budget).limits_of()),
            final(budget).limits_of() == old(budget).limits_of(),
            final(budget).usage_of().counted(CountedBudgetDimension::AnalysisSteps) == old(budget).usage_of().counted(CountedBudgetDimension::AnalysisSteps),
            final(self).use_sites@ == old(self).use_sites@,
            final(self).pool@ == old(self).pool@,
            final(self).bootstraps@ == old(self).bootstraps@,
            old(self).edges@.len() <= final(self).edges@.len(),
            old(self).edges@.is_prefix_of(final(self).edges@),
            forall|n: CondyNodeRef| #[trigger] listed(final(self).nodes@, n) ==> listed(old(self).nodes@, n) || n == edge.from || n == edge.to,
            forall|n: CondyNodeRef| listed(old(self).nodes@, n) ==> #[trigger] listed(final(self).nodes@, n),
            r matches Ok(Some(o)) ==> o < final(self).edges@.len() && final(self).edges@[o as int] == edge,
            r matches Ok(Some(_)) ==> final(self).budget.stopped == old(self).budget.stopped,
            r == Ok::<Option<u32>, Error>(None) ==> final(self).budget.stopped is Some,
            r matches Err(e) ==> is_stop(e) || is_invalid(e, "classfile_invalid_constant_pool_index"@)
                || is_invalid(e, "classfile_size_overflow"@),
            r matches Err(e) ==> is_stop(e) || is_invalid(e, "classfile_size_overflow"@)
                || !(crate::cpool::facts_sorted(old(self).pool@) && node_present(old(self).pool@, edge.from)
                    && node_present(old(self).pool@, edge.to)),
    {
        let mut i: usize = 0;
        while i < self.edges.len()
            invariant
                i <= self.edges@.len(),
                self.wf(budget.usage_of(), budget.limits_of()),
                budget.usage_of() == old(budget).usage_of(),
                budget.limits_of() == old(budget).limits_of(),
                self.use_sites@ == old(self).use_sites@,
                self.edges@ == old(self).edges@,
                self.pool@ == old(self).pool@,
                self.bootstraps@ == old(self).bootstraps@,
            decreases self.edges@.len() - i,
        {
            let known = self.edges[i];
            if known.kind == edge.kind && same_node(known.from, edge.from) && same_node(known.to, edge.to)
                && known.argument_index == edge.argument_index {
                if i > u32::MAX as usize {
                    return Err(Error::invalid_input("classfile_size_overflow", "condy edge ordinal does not fit u32"));
                }
                assert(self.edges@[i as int] == edge);
                return Ok(Some(i as u32));
            }
            i = i + 1;
        }
        if !self.ensure_node(budget, edge.from)? {
            return Ok(None);
        }
        if !self.ensure_node(budget, edge.to)? {
            return Ok(None);
        }
        let ghost usage1 = budget.usage_of();
        if !self.charge(budget, GraphDimension::Edges)? {
            return Ok(None);
        }
        proof {
            crate::budget::lemma_with_counted(usage1, CountedBudgetDimension::IrEdges,
                (usage1.counted(CountedBudgetDimension::IrEdges) + 1) as u64, CountedBudgetDimension::AnalysisSteps);
        }
        if self.edges.len() > u32::MAX as usize {
            return Err(Error::invalid_input("classfile_size_overflow", "condy edge ordinal does not fit u32"));
        }
        let ordinal = self.edges.len() as u32;
        let ghost before = self.edges@;
        self.edges.push(edge);
        proof {
            assert forall|e: int| 0 <= e < self.edges@.len() implies listed(self.nodes@, (#[trigger] self.edges@[e]).from)
                && listed(self.nodes@, self.edges@[e].to) by {
                if e < before.len() {
                    assert(self.edges@[e] == before[e]);
                }
            }
            assert forall|x: int, y: int| 0 <= x < self.use_sites@.len() && 0 <= y < self.use_sites@[x].reaches@.len()
                implies path_in((#[trigger] self.use_sites@[x].reaches@[y]).via@, self.edges@.len() as int) by {
                assert(path_in(self.use_sites@[x].reaches@[y].via@, before.len() as int));
            }
            assert forall|e: int| 0 <= e < self.edges@.len() implies declared_edge(self.pool@, self.bootstraps@, #[trigger] self.edges@[e]) by {
                if e < before.len() {
                    assert(self.edges@[e] == before[e]);
                }
            }
            assert(before.is_prefix_of(self.edges@));
            assert forall|x: int| 0 <= x < self.use_sites@.len() implies sites_reach(self.edges@, #[trigger] self.use_sites@[x]) by {
                let u = self.use_sites@[x];
                assert(sites_reach(before, u));
                assert forall|y: int| 0 <= y < u.reaches@.len() implies path_end(self.edges@, u.site, (#[trigger] u.reaches@[y]).via@)
                    == Some(u.reaches@[y].node) by {
                    lemma_path_extend(before, self.edges@, u.site, u.reaches@[y].via@);
                }
            }
        }
        Ok(Some(ordinal))
    }

    /// The references one node leaves, in the order the structures declare them.
    fn outgoing(&self, node: CondyNodeRef) -> (r: Result<Vec<CondyEdge>>)
        ensures
            r matches Ok(v) ==> forall|k: int| 0 <= k < v@.len() ==> (#[trigger] v@[k]).from == node,
            r matches Ok(v) ==> forall|k: int| 0 <= k < v@.len() ==> declared_edge(self.pool@, self.bootstraps@, #[trigger] v@[k]),
            r matches Ok(v) ==> (crate::cpool::facts_sorted(self.pool@) ==> forall|e: CondyEdge| e.from == node
                && #[trigger] declared_edge(self.pool@, self.bootstraps@, e) ==> v@.contains(e)),
            r matches Err(e) ==> is_invalid(e, "classfile_invalid_constant_pool_index"@) || is_invalid(e, "classfile_size_overflow"@),
            walk_sound(self.pool@, self.bootstraps@) && node_present(self.pool@, node) ==> (r matches Ok(v)
                && forall|k: int| 0 <= k < v@.len() ==> node_present(self.pool@, (#[trigger] v@[k]).to)),
    {
        let mut edges: Vec<CondyEdge> = Vec::new();
        match node {
            CondyNodeRef::ConstantPool { index } => {
                let entry = cp_entry(self.pool, index)?;
                match dynamic_bootstrap(&entry.kind) {
                    Some(bootstrap) => {
                        edges.push(CondyEdge {
                            kind: CondyEdgeKind::Bootstrap,
                            from: node,
                            to: CondyNodeRef::Bootstrap { index: bootstrap },
                            argument_index: None,
                        });
                        proof {
                            let k = choose|k: int| 0 <= k < self.pool@.len() && self.pool@[k] == *entry;
                            assert(self.pool@[k].index == index);
                            assert(declared_edge(self.pool@, self.bootstraps@, edges@[0]));
                            if crate::cpool::facts_sorted(self.pool@) {
                                assert forall|e: CondyEdge| e.from == node && #[trigger] declared_edge(self.pool@, self.bootstraps@, e)
                                    implies edges@.contains(e) by {
                                    let k2 = choose|k2: int| 0 <= k2 < self.pool@.len()
                                        && e.from == (CondyNodeRef::ConstantPool { index: (#[trigger] self.pool@[k2]).index })
                                        && match bootstrap_of(self.pool@[k2].kind@) {
                                            Some(b) => e.to == (CondyNodeRef::Bootstrap { index: b }),
                                            None => false,
                                        };
                                    if k2 < k {
                                        assert(self.pool@[k2].index < self.pool@[k].index);
                                    } else if k < k2 {
                                        assert(self.pool@[k].index < self.pool@[k2].index);
                                    }
                                    assert(edges@[0] == e);
                                }
                            }
                        }
                    },
                    None => {
                        proof {
                            let k = choose|k: int| 0 <= k < self.pool@.len() && self.pool@[k] == *entry;
                            if crate::cpool::facts_sorted(self.pool@) {
                                assert forall|e: CondyEdge| e.from == node && #[trigger] declared_edge(self.pool@, self.bootstraps@, e)
                                    implies edges@.contains(e) by {
                                    let k2 = choose|k2: int| 0 <= k2 < self.pool@.len()
                                        && e.from == (CondyNodeRef::ConstantPool { index: (#[trigger] self.pool@[k2]).index })
                                        && match bootstrap_of(self.pool@[k2].kind@) {
                                            Some(b) => e.to == (CondyNodeRef::Bootstrap { index: b }),
                                            None => false,
                                        };
                                    if k2 < k {
                                        assert(self.pool@[k2].index < self.pool@[k].index);
                                    } else if k < k2 {
                                        assert(self.pool@[k].index < self.pool@[k2].index);
                                    }
                                }
                            }
                        }
                    },
                }
            },
            CondyNodeRef::Bootstrap { index } => {
                if index as usize >= self.bootstraps.len() {
                    proof {
                        assert forall|e: CondyEdge| e.from == node && #[trigger] declared_edge(self.pool@, self.bootstraps@, e)
                            implies edges@.contains(e) by {}
                    }
                    return Ok(edges);
                }
                let entry = &self.bootstraps[index as usize];
                let ghost sound = walk_sound(self.pool@, self.bootstraps@);
                assert(sound ==> present(self.pool@, entry.method_ref) && entry.arguments@.len() <= 0x10000
                    && forall|a: int| 0 <= a < entry.arguments@.len() ==> present(self.pool@, entry.arguments@[a])) by {
                    if sound {
                        assert(self.bootstraps@[index as int] == *entry);
                    }
                }
                edges.push(CondyEdge {
                    kind: CondyEdgeKind::BootstrapHandle,
                    from: node,
                    to: CondyNodeRef::ConstantPool { index: entry.method_ref },
                    argument_index: None,
                });
                assert(*entry == self.bootstraps@[index as int]);
                let mut k: usize = 0;
                while k < entry.arguments.len()
                    invariant
                        k <= entry.arguments@.len(),
                        forall|x: int| 0 <= x < edges@.len() ==> (#[trigger] edges@[x]).from == node,
                        sound == walk_sound(self.pool@, self.bootstraps@),
                        sound ==> entry.arguments@.len() <= 0x10000
                            && forall|a: int| 0 <= a < entry.arguments@.len() ==> present(self.pool@, entry.arguments@[a]),
                        sound ==> forall|x: int| 0 <= x < edges@.len() ==> node_present(self.pool@, (#[trigger] edges@[x]).to),
                        *entry == self.bootstraps@[index as int],
                        (index as int) < self.bootstraps@.len(),
                        node == (CondyNodeRef::Bootstrap { index }),
                        forall|x: int| 0 <= x < edges@.len() ==> declared_edge(self.pool@, self.bootstraps@, #[trigger] edges@[x]),
                        edges@.len() == k + 1,
                        edges@[0] == (CondyEdge { kind: CondyEdgeKind::BootstrapHandle, from: node,
                            to: CondyNodeRef::ConstantPool { index: entry.method_ref }, argument_index: None }),
                        forall|j: int| 0 <= j < k ==> #[trigger] edges@[j + 1] == (CondyEdge { kind: CondyEdgeKind::BootstrapArgument,
                            from: node, to: CondyNodeRef::ConstantPool { index: entry.arguments@[j] }, argument_index: Some(j as u16) }),
                    decreases entry.arguments@.len() - k,
                {
                    if k > u16::MAX as usize {
                        return Err(Error::invalid_input("classfile_size_overflow", "bootstrap argument ordinal does not fit u16"));
                    }
                    let ghost edges_before = edges@;
                    edges.push(CondyEdge {
                        kind: CondyEdgeKind::BootstrapArgument,
                        from: node,
                        to: CondyNodeRef::ConstantPool { index: entry.arguments[k] },
                        argument_index: Some(k as u16),
                    });
                    proof {
                        let e = edges@[edges@.len() - 1];
                        assert(node == (CondyNodeRef::Bootstrap { index }));
                        assert(e.from == node);
                        assert(e.argument_index == Some(k as u16));
                        assert((k as u16) as int == k);
                        assert(entry.arguments@[k as int] == self.bootstraps@[index as int].arguments@[k as int]);
                        assert(declared_edge(self.pool@, self.bootstraps@, e));
                        assert forall|x: int| 0 <= x < edges@.len() implies declared_edge(self.pool@, self.bootstraps@, #[trigger] edges@[x]) by {
                            if x < edges_before.len() {
                                assert(edges@[x] == edges_before[x]);
                            }
                        }
                    }
                    k = k + 1;
                }
                proof {
                    assert forall|e: CondyEdge| e.from == node && #[trigger] declared_edge(self.pool@, self.bootstraps@, e)
                        implies edges@.contains(e) by {
                        match e.kind {
                            CondyEdgeKind::BootstrapHandle => {
                                assert(edges@[0] == e);
                            },
                            CondyEdgeKind::BootstrapArgument => {
                                let a = e.argument_index->Some_0 as int;
                                assert(edges@[a + 1] == e);
                            },
                            CondyEdgeKind::Bootstrap => {},
                        }
                    }
                }
            },
        }
        Ok(edges)
    }
}


/// Every reference the structures declare out of `n` is an edge of the graph: `n` was expanded.
pub open spec fn closed_at(pool: Seq<CpEntryFacts>, bootstraps: Seq<BootstrapMethodFacts>, edges: Seq<CondyEdge>,
    n: CondyNodeRef) -> bool {
    forall|e: CondyEdge| e.from == n && #[trigger] declared_edge(pool, bootstraps, e) ==> edges.contains(e)
}

/// An expanded node stays expanded when the graph grows.
proof fn lemma_closed_grow(pool: Seq<CpEntryFacts>, bootstraps: Seq<BootstrapMethodFacts>, a: Seq<CondyEdge>,
    b: Seq<CondyEdge>, n: CondyNodeRef)
    requires
        closed_at(pool, bootstraps, a, n),
        a.is_prefix_of(b),
    ensures
        closed_at(pool, bootstraps, b, n),
{
    assert forall|e: CondyEdge| e.from == n && #[trigger] declared_edge(pool, bootstraps, e) implies b.contains(e) by {
        let i = choose|i: int| 0 <= i < a.len() && a[i] == e;
        assert(b[i] == e);
    }
}

/// A frame enters `n`.
spec fn entered(s: Step, n: CondyNodeRef) -> bool {
    match s {
        Step::Enter { node, .. } => node == n,
        Step::Exit(_) => false,
    }
}

/// Some frame of a stack enters `n`.
spec fn enters(stack: Seq<Step>, n: CondyNodeRef) -> bool {
    exists|x: int| 0 <= x < stack.len() && #[trigger] entered(stack[x], n)
}

proof fn lemma_enters_push(stack: Seq<Step>, f: Step, n: CondyNodeRef)
    requires
        enters(stack, n) || entered(f, n),
    ensures
        enters(stack.push(f), n),
{
    if enters(stack, n) {
        let x = choose|x: int| 0 <= x < stack.len() && #[trigger] entered(stack[x], n);
        assert(stack.push(f)[x] == stack[x]);
    } else {
        assert(stack.push(f)[stack.len() as int] == f);
    }
}

proof fn lemma_enters_pop(stack: Seq<Step>, n: CondyNodeRef)
    requires
        stack.len() > 0,
        enters(stack, n),
        !entered(stack.last(), n),
    ensures
        enters(stack.drop_last(), n),
{
    let x = choose|x: int| 0 <= x < stack.len() && #[trigger] entered(stack[x], n);
    assert(x < stack.len() - 1);
    assert(stack.drop_last()[x] == stack[x]);
}

/// Every registered node is expanded, has a frame still to enter it, or is `exempt`.
spec fn pending_ok(pool: Seq<CpEntryFacts>, bootstraps: Seq<BootstrapMethodFacts>, nodes: Seq<CondyNode>,
    edges: Seq<CondyEdge>, frames: Seq<Step>, exempt: Option<CondyNodeRef>) -> bool {
    forall|m: CondyNodeRef| #[trigger] listed(nodes, m) ==> closed_at(pool, bootstraps, edges, m) || enters(frames, m)
        || exempt == Some(m)
}

/// Every visited node is expanded, or is `exempt`.
spec fn visited_ok(pool: Seq<CpEntryFacts>, bootstraps: Seq<BootstrapMethodFacts>, edges: Seq<CondyEdge>,
    visited: Seq<(CondyNodeRef, u32)>, exempt: Option<CondyNodeRef>) -> bool {
    forall|j: int| 0 <= j < visited.len() ==> closed_at(pool, bootstraps, edges, (#[trigger] visited[j]).0)
        || exempt == Some(visited[j].0)
}

/// The node a frame enters.
spec fn frame_node(s: Step) -> Option<CondyNodeRef> {
    match s {
        Step::Enter { node, .. } => Some(node),
        Step::Exit(_) => None,
    }
}

proof fn lemma_pending_pop(pool: Seq<CpEntryFacts>, bootstraps: Seq<BootstrapMethodFacts>, nodes: Seq<CondyNode>,
    edges: Seq<CondyEdge>, frames: Seq<Step>)
    requires
        frames.len() > 0,
        pending_ok(pool, bootstraps, nodes, edges, frames, None),
    ensures
        pending_ok(pool, bootstraps, nodes, edges, frames.drop_last(), frame_node(frames.last())),
{
    assert forall|m: CondyNodeRef| #[trigger] listed(nodes, m) implies closed_at(pool, bootstraps, edges, m)
        || enters(frames.drop_last(), m) || frame_node(frames.last()) == Some(m) by {
        if !closed_at(pool, bootstraps, edges, m) && !(frame_node(frames.last()) == Some(m)) {
            assert(enters(frames, m));
            assert(!entered(frames.last(), m));
            lemma_enters_pop(frames, m);
        }
    }
}

proof fn lemma_pending_push(pool: Seq<CpEntryFacts>, bootstraps: Seq<BootstrapMethodFacts>, nodes: Seq<CondyNode>,
    edges: Seq<CondyEdge>, frames: Seq<Step>, f: Step, exempt: Option<CondyNodeRef>)
    requires
        pending_ok(pool, bootstraps, nodes, edges, frames, exempt),
    ensures
        pending_ok(pool, bootstraps, nodes, edges, frames.push(f), exempt),
{
    assert forall|m: CondyNodeRef| #[trigger] listed(nodes, m) implies closed_at(pool, bootstraps, edges, m)
        || enters(frames.push(f), m) || exempt == Some(m) by {
        if enters(frames, m) {
            lemma_enters_push(frames, f, m);
        }
    }
}

/// An exempt node that is now expanded needs no exemption.
proof fn lemma_pending_closed(pool: Seq<CpEntryFacts>, bootstraps: Seq<BootstrapMethodFacts>, nodes: Seq<CondyNode>,
    edges: Seq<CondyEdge>, frames: Seq<Step>, n: CondyNodeRef)
    requires
        pending_ok(pool, bootstraps, nodes, edges, frames, Some(n)),
        closed_at(pool, bootstraps, edges, n),
    ensures
        pending_ok(pool, bootstraps, nodes, edges, frames, None),
{
}

/// Adding an edge, with a frame that will enter its target, keeps every node accounted for.
proof fn lemma_pending_edge(pool: Seq<CpEntryFacts>, bootstraps: Seq<BootstrapMethodFacts>, nodes: Seq<CondyNode>,
    more_nodes: Seq<CondyNode>, edges: Seq<CondyEdge>, more_edges: Seq<CondyEdge>, frames: Seq<Step>, f: Step,
    exempt: Option<CondyNodeRef>, from: CondyNodeRef)
    requires
        pending_ok(pool, bootstraps, nodes, edges, frames, exempt),
        edges.is_prefix_of(more_edges),
        frame_node(f) is Some,
        forall|m: CondyNodeRef| #[trigger] listed(more_nodes, m) ==> listed(nodes, m) || m == from || Some(m) == frame_node(f),
        exempt == Some(from) || listed(nodes, from),
    ensures
        pending_ok(pool, bootstraps, more_nodes, more_edges, frames.push(f), exempt),
{
    assert forall|m: CondyNodeRef| #[trigger] listed(more_nodes, m) implies closed_at(pool, bootstraps, more_edges, m)
        || enters(frames.push(f), m) || exempt == Some(m) by {
        if Some(m) == frame_node(f) {
            assert(entered(f, m));
            lemma_enters_push(frames, f, m);
        } else if listed(nodes, m) {
            if closed_at(pool, bootstraps, edges, m) {
                lemma_closed_grow(pool, bootstraps, edges, more_edges, m);
            } else if enters(frames, m) {
                lemma_enters_push(frames, f, m);
            }
        } else {
            assert(m == from);
            assert(listed(nodes, from) ==> listed(nodes, m));
        }
    }
}

/// The graph growing keeps visited nodes expanded.
proof fn lemma_visited_grow(pool: Seq<CpEntryFacts>, bootstraps: Seq<BootstrapMethodFacts>, edges: Seq<CondyEdge>,
    more_edges: Seq<CondyEdge>, visited: Seq<(CondyNodeRef, u32)>, exempt: Option<CondyNodeRef>)
    requires
        visited_ok(pool, bootstraps, edges, visited, exempt),
        edges.is_prefix_of(more_edges),
    ensures
        visited_ok(pool, bootstraps, more_edges, visited, exempt),
{
    assert forall|j: int| 0 <= j < visited.len() implies closed_at(pool, bootstraps, more_edges, (#[trigger] visited[j]).0)
        || exempt == Some(visited[j].0) by {
        if closed_at(pool, bootstraps, edges, visited[j].0) {
            lemma_closed_grow(pool, bootstraps, edges, more_edges, visited[j].0);
        }
    }
}

/// Moving the last child frame onto the stack keeps every frame.
proof fn lemma_frames_move(stack: Seq<Step>, children: Seq<Step>, m: CondyNodeRef)
    requires
        children.len() > 0,
        enters(stack + children, m),
    ensures
        enters(stack.push(children.last()) + children.drop_last(), m),
{
    let all = stack + children;
    let moved = stack.push(children.last()) + children.drop_last();
    let x = choose|x: int| 0 <= x < all.len() && #[trigger] entered(all[x], m);
    if x < stack.len() {
        assert(moved[x] == all[x]);
    } else if x == all.len() - 1 {
        assert(moved[stack.len() as int] == all[x]);
    } else {
        assert(moved[x + 1] == all[x]);
    }
}

/// A frame that enters a node the table holds.
spec fn frame_present(s: Step, pool: Seq<CpEntryFacts>) -> bool {
    match s {
        Step::Enter { node, .. } => node_present(pool, node),
        Step::Exit(_) => true,
    }
}

/// A frame whose path leads, over the graph's edges, from the use-site to its node.
spec fn frame_ok(s: Step, edges: Seq<CondyEdge>, site: CondyNodeRef) -> bool {
    match s {
        Step::Enter { node, via } => path_end(edges, site, via@) == Some(node),
        Step::Exit(_) => true,
    }
}

proof fn lemma_frame_extend(s: Step, edges: Seq<CondyEdge>, more: Seq<CondyEdge>, site: CondyNodeRef)
    requires
        frame_ok(s, edges, site),
        edges.is_prefix_of(more),
    ensures
        frame_ok(s, more, site),
{
    match s {
        Step::Enter { via, .. } => lemma_path_extend(edges, more, site, via@),
        Step::Exit(_) => {},
    }
}

proof fn lemma_path_grows(via: Seq<u32>, a: int, b: int)
    requires
        path_in(via, a),
        a <= b,
    ensures
        path_in(via, b),
{
}

fn copy_via(path: &Vec<u32>) -> (r: Vec<u32>)
    ensures
        r@ == path@,
{
    let mut out: Vec<u32> = Vec::new();
    let mut i: usize = 0;
    while i < path.len()
        invariant
            i <= path@.len(),
            out@ == path@.subrange(0, i as int),
        decreases path@.len() - i,
    {
        out.push(path[i]);
        i = i + 1;
    }
    assert(out@ =~= path@);
    out
}

/// The earlier reach of a node in this walk, when it was visited.
fn find_visited(visited: &Vec<(CondyNodeRef, u32)>, node: CondyNodeRef) -> (r: Option<u32>)
    ensures
        r is None <==> forall|j: int| 0 <= j < visited@.len() ==> (#[trigger] visited@[j]).0 != node,
        r matches Some(o) ==> exists|j: int| 0 <= j < visited@.len() && visited@[j] == (node, o)
            && forall|k: int| 0 <= k < j ==> (#[trigger] visited@[k]).0 != node,
{
    let mut i: usize = 0;
    while i < visited.len()
        invariant
            i <= visited@.len(),
            forall|k: int| 0 <= k < i ==> (#[trigger] visited@[k]).0 != node,
        decreases visited@.len() - i,
    {
        let (n, ordinal) = visited[i];
        if same_node(n, node) {
            assert(visited@[i as int] == (node, ordinal));
            return Some(ordinal);
        }
        i = i + 1;
    }
    None
}

/// Whether a node is on the current path.
fn on_path_contains(path: &Vec<CondyNodeRef>, node: CondyNodeRef) -> (b: bool)
    ensures
        b == path@.contains(node),
{
    let mut i: usize = 0;
    while i < path.len()
        invariant
            i <= path@.len(),
            forall|k: int| 0 <= k < i ==> path@[k] != node,
        decreases path@.len() - i,
    {
        if same_node(path[i], node) {
            assert(path@[i as int] == node);
            return true;
        }
        i = i + 1;
    }
    false
}

fn size_overflow(message: &str) -> (e: Error)
    ensures
        is_invalid(e, "classfile_size_overflow"@),
{
    Error::invalid_input("classfile_size_overflow", message)
}

/// A refusal of one of the graph walk's own dimensions: derived nodes, edges or analysis steps.
pub open spec fn graph_refusal(e: Error) -> bool {
    ||| is_budget(e, CountedBudgetDimension::IrItems.dim())
    ||| is_budget(e, CountedBudgetDimension::IrEdges.dim())
    ||| is_budget(e, CountedBudgetDimension::AnalysisSteps.dim())
}

/// An error the graph walk fails with.
pub open spec fn is_walk_failure(e: Error) -> bool {
    is_stop(e) || is_invalid(e, "classfile_invalid_constant_pool_index"@) || is_invalid(e, "classfile_size_overflow"@)
}

impl<'a> Walk<'a> {
    /// The walk of one use-site: an explicit stack, a visited set that expands a node once, and
    /// a path that turns a repeat of a node still on it into a recorded cycle. Each node visit is
    /// one `AnalysisSteps` charge, which also bounds the walk. Every reach it records carries a
    /// path of graph edges from the use-site to the node reached; the first is the use-site itself.
    #[verifier::rlimit(100)]
    fn descend(&mut self, budget: &mut Budget, site: CondyNodeRef, site_ordinal: usize, reaches: &mut Vec<CondyReach>) -> (r: Result<bool>)
        requires
            old(self).wf(old(budget).usage_of(), old(budget).limits_of()),
            forall|x: int| 0 <= x < old(reaches)@.len() ==> path_in((#[trigger] old(reaches)@[x]).via@, old(self).edges@.len() as int),
            crate::cpool::facts_sorted(old(self).pool@) ==> pending_ok(old(self).pool@, old(self).bootstraps@, old(self).nodes@,
                old(self).edges@, Seq::<Step>::empty(), Some(site)),
        ensures
            r == Ok::<bool, Error>(true) && crate::cpool::facts_sorted(old(self).pool@) ==> pending_ok(final(self).pool@,
                final(self).bootstraps@, final(self).nodes@, final(self).edges@, Seq::<Step>::empty(), None),
            forall|n: CondyNodeRef| #[trigger] listed(old(self).nodes@, n) ==> listed(final(self).nodes@, n),
            r matches Err(e) ==> crate::budget::honest_refusal(e, old(budget).limits_of()),
            final(self).wf(final(budget).usage_of(), final(budget).limits_of()),
            final(budget).limits_of() == old(budget).limits_of(),
            final(self).use_sites@ == old(self).use_sites@,
            final(self).pool@ == old(self).pool@,
            final(self).bootstraps@ == old(self).bootstraps@,
            old(self).edges@.len() <= final(self).edges@.len(),
            old(self).edges@.is_prefix_of(final(self).edges@),
            old(reaches)@.is_prefix_of(final(reaches)@),
            forall|x: int| 0 <= x < final(reaches)@.len() ==> path_in((#[trigger] final(reaches)@[x]).via@, final(self).edges@.len() as int),
            forall|x: int| old(reaches)@.len() <= x < final(reaches)@.len()
                ==> path_end(final(self).edges@, site, (#[trigger] final(reaches)@[x]).via@) == Some(final(reaches)@[x].node),
            r == Ok::<bool, Error>(true) ==> final(reaches)@.len() > old(reaches)@.len()
                && final(reaches)@[old(reaches)@.len() as int].node == site
                && final(reaches)@[old(reaches)@.len() as int].via@.len() == 0
                && final(reaches)@[old(reaches)@.len() as int].repeat is None
                && final(self).budget.stopped == old(self).budget.stopped,
            r == Ok::<bool, Error>(false) ==> final(self).budget.stopped is Some,
            final(reaches)@.len() > old(reaches)@.len() ==> final(reaches)@[old(reaches)@.len() as int].node == site
                && final(reaches)@[old(reaches)@.len() as int].via@.len() == 0,
            r matches Err(e) ==> is_walk_failure(e),
            r matches Err(e) ==> is_stop(e) || is_invalid(e, "classfile_size_overflow"@)
                || !(walk_sound(old(self).pool@, old(self).bootstraps@) && node_present(old(self).pool@, site)),
    {
        let ghost sound = walk_sound(self.pool@, self.bootstraps@) && node_present(self.pool@, site);
        let ghost r0 = reaches@;
        let ghost e0 = self.edges@;
        let ghost stopped0 = self.budget.stopped;
        let mut visited: Vec<(CondyNodeRef, u32)> = Vec::new();
        let mut on_path: Vec<CondyNodeRef> = Vec::new();
        let mut stack: Vec<Step> = Vec::new();
        stack.push(Step::Enter { node: site, via: Vec::new() });
        assert(frame_ok(stack@[0], self.edges@, site));
        let ghost sorted = crate::cpool::facts_sorted(self.pool@);
        let ghost n0 = self.nodes@;
        proof {
            if sorted {
                assert(entered(stack@[0], site));
                assert(enters(stack@, site));
                assert forall|m: CondyNodeRef| #[trigger] listed(self.nodes@, m) implies closed_at(self.pool@, self.bootstraps@,
                    self.edges@, m) || enters(stack@, m) || None::<CondyNodeRef> == Some(m) by {
                    assert(closed_at(self.pool@, self.bootstraps@, self.edges@, m) || enters(Seq::<Step>::empty(), m) || m == site);
                    if enters(Seq::<Step>::empty(), m) {
                        let x = choose|x: int| 0 <= x < Seq::<Step>::empty().len() && #[trigger] entered(Seq::<Step>::empty()[x], m);
                    }
                }
            }
        }
        while stack.len() > 0
            invariant
                self.wf(budget.usage_of(), budget.limits_of()),
                budget.limits_of() == old(budget).limits_of(),
                self.use_sites@ == old(self).use_sites@,
                self.pool@ == old(self).pool@,
                self.bootstraps@ == old(self).bootstraps@,
                self.budget.stopped == stopped0,
                stopped0 == old(self).budget.stopped,
                e0 == old(self).edges@,
                r0 == old(reaches)@,
                e0.is_prefix_of(self.edges@),
                r0.is_prefix_of(reaches@),
                forall|x: int| 0 <= x < r0.len() ==> path_in((#[trigger] r0[x]).via@, e0.len() as int),
                forall|x: int| 0 <= x < reaches@.len() ==> path_in((#[trigger] reaches@[x]).via@, self.edges@.len() as int),
                forall|x: int| r0.len() <= x < reaches@.len()
                    ==> path_end(self.edges@, site, (#[trigger] reaches@[x]).via@) == Some(reaches@[x].node),
                forall|x: int| 0 <= x < stack@.len() ==> frame_ok(#[trigger] stack@[x], self.edges@, site),
                sound == (walk_sound(old(self).pool@, old(self).bootstraps@) && node_present(old(self).pool@, site)),
                sound ==> walk_sound(self.pool@, self.bootstraps@),
                sound ==> forall|x: int| 0 <= x < stack@.len() ==> frame_present(#[trigger] stack@[x], self.pool@),
                reaches@.len() == r0.len() ==> visited@.len() == 0 && stack@.len() == 1
                    && (stack@[0] matches Step::Enter { node, via } && node == site && via@.len() == 0),
                reaches@.len() > r0.len() ==> reaches@[r0.len() as int].node == site
                    && reaches@[r0.len() as int].via@.len() == 0 && reaches@[r0.len() as int].repeat is None,
                sorted == crate::cpool::facts_sorted(self.pool@),
                sorted ==> pending_ok(self.pool@, self.bootstraps@, self.nodes@, self.edges@, stack@, None),
                sorted ==> visited_ok(self.pool@, self.bootstraps@, self.edges@, visited@, None),
                forall|n: CondyNodeRef| #[trigger] listed(n0, n) ==> listed(self.nodes@, n),
                n0 == old(self).nodes@,
            decreases u64::MAX - budget.usage_of().counted(CountedBudgetDimension::AnalysisSteps), stack@.len(),
        {
            let ghost stack_before = stack@;
            let step = stack.pop().unwrap();
            assert(step == stack_before[stack_before.len() - 1]);
            proof {
                assert(stack@ =~= stack_before.drop_last());
                if sorted {
                    lemma_pending_pop(self.pool@, self.bootstraps@, self.nodes@, self.edges@, stack_before);
                }
            }
            assert(frame_ok(step, self.edges@, site));
            assert(sound ==> frame_present(step, self.pool@));
            budget.poll()?;
            match step {
                Step::Exit(_) => {
                    on_path.pop();
                    assert(frame_node(step) is None);
                },
                Step::Enter { node, via } => {
                    let ghost u0 = budget.usage_of();
                    let ghost steps0 = u0.counted(CountedBudgetDimension::AnalysisSteps);
                    if !self.charge(budget, GraphDimension::Steps)? {
                        return Ok(false);
                    }
                    proof {
                        assert(GraphDimension::Steps.dim() == CountedBudgetDimension::AnalysisSteps);
                        assert(budget.usage_of() == u0.with_counted(CountedBudgetDimension::AnalysisSteps, (steps0 + 1) as u64));
                        crate::budget::lemma_with_counted(u0, CountedBudgetDimension::AnalysisSteps,
                            (steps0 + 1) as u64, CountedBudgetDimension::AnalysisSteps);
                        assert(budget.usage_of().counted(CountedBudgetDimension::AnalysisSteps) == steps0 + 1);
                    }
                    if reaches.len() > u32::MAX as usize {
                        return Err(size_overflow("condy reach ordinal does not fit u32"));
                    }
                    let ordinal = reaches.len() as u32;
                    let ghost reaches_before = reaches@;
                    match find_visited(&visited, node) {
                        Some(earlier) => {
                            if on_path_contains(&on_path, node) {
                                self.cycles.push(CondyCycle { site: site_ordinal, reach: ordinal, node });
                            }
                            reaches.push(CondyReach { node, via, repeat: Some(earlier) });
                            proof {
                                assert(reaches_before.len() > r0.len());
                                assert(reaches@[reaches@.len() - 1].via@ == via@);
                                lemma_path_in(self.edges@, site, via@);
                                assert forall|x: int| 0 <= x < reaches@.len() implies path_in((#[trigger] reaches@[x]).via@, self.edges@.len() as int) by {
                                    if x < reaches_before.len() {
                                        assert(reaches@[x] == reaches_before[x]);
                                    }
                                }
                                assert forall|x: int| r0.len() <= x < reaches@.len()
                                    implies path_end(self.edges@, site, (#[trigger] reaches@[x]).via@) == Some(reaches@[x].node) by {
                                    if x < reaches_before.len() {
                                        assert(reaches@[x] == reaches_before[x]);
                                    }
                                }
                                assert(r0.is_prefix_of(reaches@)) by {
                                    assert forall|x: int| 0 <= x < r0.len() implies reaches@[x] == r0[x] by {
                                        assert(reaches@[x] == reaches_before[x]);
                                    }
                                }
                                if sorted {
                                    let j = choose|j: int| 0 <= j < visited@.len() && visited@[j] == (node, earlier)
                                        && forall|k: int| 0 <= k < j ==> (#[trigger] visited@[k]).0 != node;
                                    assert(closed_at(self.pool@, self.bootstraps@, self.edges@, visited@[j].0));
                                    assert(frame_node(step) == Some(node));
                                    lemma_pending_closed(self.pool@, self.bootstraps@, self.nodes@, self.edges@, stack@, node);
                                }
                            }
                            continue;
                        },
                        None => {},
                    }
                    let ghost visited0 = visited@;
                    visited.push((node, ordinal));
                    proof {
                        if sorted {
                            assert forall|j: int| 0 <= j < visited@.len() implies closed_at(self.pool@, self.bootstraps@, self.edges@,
                                (#[trigger] visited@[j]).0) || Some(node) == Some(visited@[j].0) by {
                                if j < visited0.len() {
                                    assert(visited@[j] == visited0[j]);
                                }
                            }
                        }
                    }
                    reaches.push(CondyReach { node, via: copy_via(&via), repeat: None });
                    proof {
                        lemma_path_in(self.edges@, site, via@);
                        assert forall|x: int| 0 <= x < reaches@.len() implies path_in((#[trigger] reaches@[x]).via@, self.edges@.len() as int) by {
                            if x < reaches_before.len() {
                                assert(reaches@[x] == reaches_before[x]);
                            }
                        }
                        assert forall|x: int| r0.len() <= x < reaches@.len()
                            implies path_end(self.edges@, site, (#[trigger] reaches@[x]).via@) == Some(reaches@[x].node) by {
                            if x < reaches_before.len() {
                                assert(reaches@[x] == reaches_before[x]);
                            }
                        }
                        assert(r0.is_prefix_of(reaches@)) by {
                            assert forall|x: int| 0 <= x < r0.len() implies reaches@[x] == r0[x] by {
                                assert(reaches@[x] == reaches_before[x]);
                            }
                        }
                        if reaches_before.len() == r0.len() {
                            assert(reaches@[r0.len() as int].node == site);
                        } else {
                            assert(reaches@[r0.len() as int] == reaches_before[r0.len() as int]);
                        }
                    }
                    on_path.push(node);
                    let ghost stack_mid = stack@;
                    stack.push(Step::Exit(node));
                    proof {
                        assert forall|x: int| 0 <= x < stack@.len() implies frame_ok(#[trigger] stack@[x], self.edges@, site) by {
                            if x < stack_mid.len() {
                                assert(stack@[x] == stack_mid[x]);
                            }
                        }
                        if sound {
                            assert forall|x: int| 0 <= x < stack@.len() implies frame_present(#[trigger] stack@[x], self.pool@) by {
                                if x < stack_mid.len() {
                                    assert(stack@[x] == stack_mid[x]);
                                }
                            }
                        }
                    }
                    proof {
                        if sorted {
                            assert(frame_node(step) == Some(node));
                            lemma_pending_push(self.pool@, self.bootstraps@, self.nodes@, self.edges@, stack_mid,
                                Step::Exit(node), Some(node));
                            assert(stack@ == stack_mid.push(Step::Exit(node)));
                        }
                    }
                    let outgoing = self.outgoing(node)?;
                    let mut children: Vec<Step> = Vec::new();
                    proof {
                        assert(stack@ + children@ =~= stack@);
                    }
                    let mut k: usize = 0;
                    while k < outgoing.len()
                        invariant
                            self.wf(budget.usage_of(), budget.limits_of()),
                            budget.limits_of() == old(budget).limits_of(),
                            budget.usage_of().counted(CountedBudgetDimension::AnalysisSteps) > steps0,
                            self.use_sites@ == old(self).use_sites@,
                            self.pool@ == old(self).pool@,
                            self.bootstraps@ == old(self).bootstraps@,
                            self.budget.stopped == stopped0,
                            stopped0 == old(self).budget.stopped,
                            e0 == old(self).edges@,
                            r0 == old(reaches)@,
                            e0.is_prefix_of(self.edges@),
                            r0.is_prefix_of(reaches@),
                            reaches@.len() > r0.len(),
                            reaches@[r0.len() as int].node == site && reaches@[r0.len() as int].via@.len() == 0
                                && reaches@[r0.len() as int].repeat is None,
                            forall|x: int| 0 <= x < r0.len() ==> path_in((#[trigger] r0[x]).via@, e0.len() as int),
                            forall|x: int| 0 <= x < reaches@.len() ==> path_in((#[trigger] reaches@[x]).via@, self.edges@.len() as int),
                            path_end(self.edges@, site, via@) == Some(node),
                            forall|x: int| 0 <= x < outgoing@.len() ==> (#[trigger] outgoing@[x]).from == node,
                            forall|x: int| 0 <= x < outgoing@.len() ==> declared_edge(self.pool@, self.bootstraps@, #[trigger] outgoing@[x]),
                            forall|x: int| r0.len() <= x < reaches@.len()
                                ==> path_end(self.edges@, site, (#[trigger] reaches@[x]).via@) == Some(reaches@[x].node),
                            forall|x: int| 0 <= x < stack@.len() ==> frame_ok(#[trigger] stack@[x], self.edges@, site),
                            forall|x: int| 0 <= x < children@.len() ==> frame_ok(#[trigger] children@[x], self.edges@, site),
                            sound == (walk_sound(old(self).pool@, old(self).bootstraps@) && node_present(old(self).pool@, site)),
                            sound ==> walk_sound(self.pool@, self.bootstraps@) && node_present(self.pool@, node),
                            sound ==> forall|x: int| 0 <= x < outgoing@.len() ==> node_present(self.pool@, (#[trigger] outgoing@[x]).to),
                            sound ==> forall|x: int| 0 <= x < stack@.len() ==> frame_present(#[trigger] stack@[x], self.pool@),
                            sound ==> forall|x: int| 0 <= x < children@.len() ==> frame_present(#[trigger] children@[x], self.pool@),
                            sorted == crate::cpool::facts_sorted(self.pool@),
                            sorted ==> pending_ok(self.pool@, self.bootstraps@, self.nodes@, self.edges@, stack@ + children@, Some(node)),
                            sorted ==> visited_ok(self.pool@, self.bootstraps@, self.edges@, visited@, Some(node)),
                            forall|j: int| 0 <= j < k ==> self.edges@.contains(#[trigger] outgoing@[j]),
                            sorted ==> forall|e: CondyEdge| e.from == node && #[trigger] declared_edge(self.pool@, self.bootstraps@, e)
                                ==> outgoing@.contains(e),
                            forall|n: CondyNodeRef| #[trigger] listed(n0, n) ==> listed(self.nodes@, n),
                            n0 == old(self).nodes@,
                            k <= outgoing@.len(),
                        decreases outgoing@.len() - k,
                    {
                        let edge = outgoing[k];
                        let ghost edges0 = self.edges@;
                        let ghost nodes0 = self.nodes@;
                        let taken = self.edge(budget, edge);
                        proof {
                            assert forall|n: CondyNodeRef| #[trigger] listed(n0, n) implies listed(self.nodes@, n) by {
                                assert(listed(nodes0, n));
                            }
                            assert forall|x: int| 0 <= x < reaches@.len() implies path_in((#[trigger] reaches@[x]).via@, self.edges@.len() as int) by {
                                lemma_path_grows(reaches@[x].via@, edges0.len() as int, self.edges@.len() as int);
                            }
                            assert forall|x: int| r0.len() <= x < reaches@.len()
                                implies path_end(self.edges@, site, (#[trigger] reaches@[x]).via@) == Some(reaches@[x].node) by {
                                lemma_path_extend(edges0, self.edges@, site, reaches@[x].via@);
                            }
                            assert(e0.is_prefix_of(self.edges@)) by {
                                assert forall|x: int| 0 <= x < e0.len() implies self.edges@[x] == e0[x] by {
                                    assert(self.edges@[x] == edges0[x]);
                                }
                            }
                        }
                        let edge_ordinal = match taken {
                            Ok(Some(o)) => o,
                            Ok(None) => return Ok(false),
                            Err(e) => return Err(e),
                        };
                        proof {
                            assert forall|x: int| r0.len() <= x < reaches@.len()
                                implies path_end(self.edges@, site, (#[trigger] reaches@[x]).via@) == Some(reaches@[x].node) by {
                                lemma_path_extend(edges0, self.edges@, site, reaches@[x].via@);
                            }
                            assert forall|x: int| 0 <= x < stack@.len() implies frame_ok(#[trigger] stack@[x], self.edges@, site) by {
                                lemma_frame_extend(stack@[x], edges0, self.edges@, site);
                            }
                            assert forall|x: int| 0 <= x < children@.len() implies frame_ok(#[trigger] children@[x], self.edges@, site) by {
                                lemma_frame_extend(children@[x], edges0, self.edges@, site);
                            }
                            lemma_path_extend(edges0, self.edges@, site, via@);
                            assert(e0.is_prefix_of(self.edges@)) by {
                                assert forall|x: int| 0 <= x < e0.len() implies self.edges@[x] == e0[x] by {
                                    assert(self.edges@[x] == edges0[x]);
                                }
                            }
                        }
                        let mut child_via = copy_via(&via);
                        child_via.push(edge_ordinal);
                        proof {
                            assert(edge.from == node);
                            lemma_path_push(self.edges@, site, via@, node, edge_ordinal);
                        }
                        let entering = child_via.len() as u64;
                        let ghost usage1 = budget.usage_of();
                        let depth = budget.observe_dependency_depth(entering);
                        proof {
                            assert forall|x: CountedBudgetDimension| #[trigger] budget.usage_of().counted(x) == usage1.counted(x) by {
                                crate::budget::lemma_depths_apart(usage1, usage1.nested_depth, budget.usage_of().dependency_depth, x);
                                if depth is Ok {
                                    assert(budget.usage_of() == (UsageSnapshot { nested_depth: usage1.nested_depth, dependency_depth: budget.usage_of().dependency_depth, ..usage1 }));
                                }
                            }
                        }
                        if depth.is_err() {
                            self.budget.stopped = Some(CondyStop::Depth { limit: budget.limits().dependency_depth, entering });
                            return Ok(false);
                        }
                        if entering > self.budget.max_depth {
                            self.budget.max_depth = entering;
                        }
                        let child = Step::Enter { node: edge.to, via: child_via };
                        assert(frame_ok(child, self.edges@, site));
                        assert(sound ==> frame_present(child, self.pool@));
                        let ghost children_mid = children@;
                        children.push(child);
                        proof {
                            assert(stack@ + children@ =~= (stack@ + children_mid).push(child));
                            if sorted {
                                assert(frame_node(child) == Some(edge.to));
                                lemma_pending_edge(self.pool@, self.bootstraps@, nodes0, self.nodes@, edges0, self.edges@,
                                    stack@ + children_mid, child, Some(node), edge.from);
                                lemma_visited_grow(self.pool@, self.bootstraps@, edges0, self.edges@, visited@, Some(node));
                            }
                            assert(self.edges@[edge_ordinal as int] == outgoing@[k as int]);
                            assert forall|j: int| 0 <= j < k + 1 implies self.edges@.contains(#[trigger] outgoing@[j]) by {
                                if j < k {
                                    let x = choose|x: int| 0 <= x < edges0.len() && edges0[x] == outgoing@[j];
                                    assert(self.edges@[x] == edges0[x]);
                                }
                            }
                            if sound {
                                assert forall|x: int| 0 <= x < children@.len() implies frame_present(#[trigger] children@[x], self.pool@) by {
                                    if x < children_mid.len() {
                                        assert(children@[x] == children_mid[x]);
                                    }
                                }
                            }
                        }
                        k = k + 1;
                    }
                    proof {
                        if sorted {
                            assert forall|e: CondyEdge| e.from == node && #[trigger] declared_edge(self.pool@, self.bootstraps@, e)
                                implies self.edges@.contains(e) by {
                                let j = choose|j: int| 0 <= j < outgoing@.len() && outgoing@[j] == e;
                                assert(self.edges@.contains(outgoing@[j]));
                            }
                            lemma_pending_closed(self.pool@, self.bootstraps@, self.nodes@, self.edges@, stack@ + children@, node);
                        }
                    }
                    while children.len() > 0
                        invariant
                            sorted == crate::cpool::facts_sorted(self.pool@),
                            sorted ==> pending_ok(self.pool@, self.bootstraps@, self.nodes@, self.edges@, stack@ + children@, None),
                            sorted ==> visited_ok(self.pool@, self.bootstraps@, self.edges@, visited@, None),
                            forall|x: int| 0 <= x < stack@.len() ==> frame_ok(#[trigger] stack@[x], self.edges@, site),
                            forall|x: int| 0 <= x < children@.len() ==> frame_ok(#[trigger] children@[x], self.edges@, site),
                            sound ==> forall|x: int| 0 <= x < stack@.len() ==> frame_present(#[trigger] stack@[x], self.pool@),
                            sound ==> forall|x: int| 0 <= x < children@.len() ==> frame_present(#[trigger] children@[x], self.pool@),
                        decreases children@.len(),
                    {
                        let ghost children_before = children@;
                        let ghost stack_before2 = stack@;
                        let child = children.pop().unwrap();
                        assert(frame_ok(child, self.edges@, site)) by {
                            assert(child == children_before[children_before.len() - 1]);
                        }
                        assert(sound ==> frame_present(child, self.pool@)) by {
                            assert(child == children_before[children_before.len() - 1]);
                        }
                        stack.push(child);
                        proof {
                            if sorted {
                                assert forall|m: CondyNodeRef| #[trigger] listed(self.nodes@, m) implies closed_at(self.pool@,
                                    self.bootstraps@, self.edges@, m) || enters(stack@ + children@, m) || None::<CondyNodeRef> == Some(m) by {
                                    if enters(stack_before2 + children_before, m) {
                                        lemma_frames_move(stack_before2, children_before, m);
                                        assert(stack@ + children@ =~= stack_before2.push(children_before.last()) + children_before.drop_last());
                                    }
                                }
                            }
                            if sound {
                                assert forall|x: int| 0 <= x < stack@.len() implies frame_present(#[trigger] stack@[x], self.pool@) by {
                                    if x < stack_before2.len() {
                                        assert(stack@[x] == stack_before2[x]);
                                    }
                                }
                            }
                        }
                    }
                },
            }
        }
        Ok(true)
    }
}


impl<'a> Walk<'a> {
    /// Walks one use-site; `false` means the graph's budget is exhausted. The reaches a stopped
    /// walk recorded are still published with their entry point.
    #[verifier::spinoff_prover]
    #[verifier::rlimit(40)]
    fn walk_site(&mut self, budget: &mut Budget, site: CondyNodeRef) -> (r: Result<bool>)
        requires
            old(self).wf(old(budget).usage_of(), old(budget).limits_of()),
            crate::cpool::facts_sorted(old(self).pool@) ==> pending_ok(old(self).pool@, old(self).bootstraps@, old(self).nodes@,
                old(self).edges@, Seq::<Step>::empty(), None),
        ensures
            r == Ok::<bool, Error>(true) && crate::cpool::facts_sorted(old(self).pool@) ==> pending_ok(final(self).pool@,
                final(self).bootstraps@, final(self).nodes@, final(self).edges@, Seq::<Step>::empty(), None),
            r == Ok::<bool, Error>(true) ==> listed(final(self).nodes@, site),
            forall|n: CondyNodeRef| #[trigger] listed(old(self).nodes@, n) ==> listed(final(self).nodes@, n),
            r matches Err(e) ==> crate::budget::honest_refusal(e, old(budget).limits_of()),
            final(self).wf(final(budget).usage_of(), final(budget).limits_of()),
            final(budget).limits_of() == old(budget).limits_of(),
            final(self).pool@ == old(self).pool@,
            final(self).bootstraps@ == old(self).bootstraps@,
            r == Ok::<bool, Error>(false) ==> final(self).budget.stopped is Some,
            r matches Err(e) ==> is_walk_failure(e),
            r matches Err(e) ==> is_stop(e) || is_invalid(e, "classfile_size_overflow"@)
                || !(walk_sound(old(self).pool@, old(self).bootstraps@) && node_present(old(self).pool@, site)),
            old(self).budget.stopped is Some ==> r == Ok::<bool, Error>(false) && final(self).use_sites@ == old(self).use_sites@,
            old(self).use_sites@.is_prefix_of(final(self).use_sites@),
            final(self).use_sites@.len() <= old(self).use_sites@.len() + 1,
            final(self).use_sites@.len() == old(self).use_sites@.len() + 1 ==> {
                let u = final(self).use_sites@.last();
                &&& u.site == site
                &&& forall|x: int| 0 <= x < u.reaches@.len()
                    ==> path_end(final(self).edges@, site, (#[trigger] u.reaches@[x]).via@) == Some(u.reaches@[x].node)
            },
            r == Ok::<bool, Error>(true) ==> final(self).use_sites@.len() == old(self).use_sites@.len() + 1
                && final(self).budget.stopped == old(self).budget.stopped
                && final(self).use_sites@.last().reaches@.len() > 0
                && final(self).use_sites@.last().reaches@[0].node == site
                && final(self).use_sites@.last().reaches@[0].via@.len() == 0
                && final(self).use_sites@.last().reaches@[0].repeat is None,
    {
        if self.budget.stopped.is_some() {
            return Ok(false);
        }
        let ghost nodes0 = self.nodes@;
        if !self.ensure_node(budget, site)? {
            return Ok(false);
        }
        proof {
            if crate::cpool::facts_sorted(self.pool@) {
                assert forall|m: CondyNodeRef| #[trigger] listed(self.nodes@, m) implies closed_at(self.pool@, self.bootstraps@,
                    self.edges@, m) || enters(Seq::<Step>::empty(), m) || Some(site) == Some(m) by {
                    if m != site {
                        assert(listed(nodes0, m));
                    }
                }
            }
        }
        let site_ordinal = self.use_sites.len();
        let mut reaches: Vec<CondyReach> = Vec::new();
        let complete = self.descend(budget, site, site_ordinal, &mut reaches)?;
        let ghost before = self.use_sites@;
        self.use_sites.push(CondyUseSite { site, reaches });
        proof {
            assert forall|x: int, y: int| 0 <= x < self.use_sites@.len() && 0 <= y < self.use_sites@[x].reaches@.len()
                implies path_in((#[trigger] self.use_sites@[x].reaches@[y]).via@, self.edges@.len() as int) by {
                if x < before.len() {
                    assert(self.use_sites@[x] == before[x]);
                } else {
                    assert(self.use_sites@[x].reaches@[y] == reaches@[y]);
                }
            }
            assert(before.is_prefix_of(self.use_sites@)) by {
                assert forall|x: int| 0 <= x < before.len() implies self.use_sites@[x] == before[x] by {}
            }
        }
        Ok(complete)
    }
}

/// Builds the deferred constant-dynamic graph of one class: every `CONSTANT_Dynamic` and
/// `CONSTANT_InvokeDynamic` entry is an entry point, walked in constant-pool order until the
/// graph's budget stops the walk. A dynamic entry naming a table entry the attribute does not
/// declare is diagnosed once per table index, when the table was read.
fn condy_graph(
    pool: &[CpEntryFacts],
    bootstraps: &[BootstrapMethodFacts],
    bootstrap_entries: u16,
    table_read: bool,
    dynamic_tag: ConstantPoolTagStatus,
    budget: &mut Budget,
    diagnostics: &mut Vec<Diagnostic>,
) -> (r: Result<CondyGraph>)
    ensures
        r matches Err(e) ==> crate::budget::honest_refusal(e, old(budget).limits_of()),
        final(budget).limits_of() == old(budget).limits_of(),
        r matches Ok(g) ==> graph_wf(g.nodes@, g.edges@, g.use_sites@) && g.bootstrap_entries == bootstrap_entries
            && g.dynamic_tag == dynamic_tag && condy_of(pool@, bootstraps@, g)
            && condy_stop_ok(g.budget.stopped, old(budget).limits_of()),
        r matches Err(e) ==> is_walk_failure(e),
        r matches Err(e) ==> is_stop(e) || is_invalid(e, "classfile_size_overflow"@)
            || !(walk_sound(pool@, bootstraps@) && forall|i: int| 0 <= i < pool@.len() ==> (#[trigger] pool@[i]).index != 0),
{
    if table_read {
        let mut dangling: Vec<u16> = Vec::new();
        let mut i: usize = 0;
        while i < pool.len()
            invariant
                i <= pool@.len(),
            decreases pool@.len() - i,
        {
            let entry = &pool[i];
            match dynamic_bootstrap(&entry.kind) {
                Some(index) => {
                    if index as usize >= bootstraps.len() && !contains_u16(&dangling, index) {
                        dangling.push(index);
                        let mut m = crate::text::prefixed_number("constant-pool entry ", entry.index as u64);
                        m.append(" names BootstrapMethods entry ");
                        crate::text::push_decimal(&mut m, index as u64);
                        m.append(", which the attribute does not declare (");
                        crate::text::push_decimal(&mut m, bootstrap_entries as u64);
                        m.append(" declared)");
                        diagnostics.push(fact_diagnostic("classfile_condy_bootstrap_out_of_range", DiagnosticSeverity::Warning, m));
                    }
                },
                None => {},
            }
            i = i + 1;
        }
    }
    let mut walk = Walk {
        pool,
        bootstraps,
        nodes: Vec::new(),
        edges: Vec::new(),
        use_sites: Vec::new(),
        cycles: Vec::new(),
        budget: CondyBudget { nodes: 0, edges: 0, steps: 0, max_depth: 0, stopped: None },
    };
    let mut i: usize = 0;
    let mut halted = false;
    while i < pool.len() && !halted
        invariant
            i <= pool@.len(),
            walk.wf(budget.usage_of(), budget.limits_of()),
            walk.pool@ == pool@,
            walk.bootstraps@ == bootstraps@,
            budget.limits_of() == old(budget).limits_of(),
            halted ==> walk.budget.stopped is Some,
            !halted ==> walk.budget.stopped is None && site_refs(walk.use_sites@) == dynamic_sites(pool@, i as int),
            !halted ==> (crate::cpool::facts_sorted(pool@) ==> pending_ok(pool@, bootstraps@, walk.nodes@, walk.edges@,
                Seq::<Step>::empty(), None)),
            !halted ==> forall|x: int| 0 <= x < walk.use_sites@.len() ==> listed(walk.nodes@, (#[trigger] walk.use_sites@[x]).site),
            halted ==> site_refs(walk.use_sites@).is_prefix_of(dynamic_sites(pool@, i as int)),
        decreases pool@.len() - i,
    {
        let entry = &pool[i];
        assert(pool@[i as int].index != 0 ==> node_present(pool@, CondyNodeRef::ConstantPool { index: entry.index })) by {
            assert(pool@[i as int].index == entry.index);
        }
        let ghost sites0 = walk.use_sites@;
        let ghost nodes0 = walk.nodes@;
        if dynamic_bootstrap(&entry.kind).is_some() {
            let site = CondyNodeRef::ConstantPool { index: entry.index };
            if !walk.walk_site(budget, site)? {
                halted = true;
            }
            proof {
                if !halted {
                    assert forall|x: int| 0 <= x < walk.use_sites@.len() implies listed(walk.nodes@, (#[trigger] walk.use_sites@[x]).site) by {
                        if x < sites0.len() {
                            assert(walk.use_sites@[x] == sites0[x]);
                            assert(listed(nodes0, sites0[x].site));
                        }
                    }
                }
                assert(dynamic_sites(pool@, i + 1) == dynamic_sites(pool@, i as int).push(site));
                if walk.use_sites@.len() == sites0.len() {
                    assert(walk.use_sites@ =~= sites0);
                    assert(site_refs(walk.use_sites@).is_prefix_of(dynamic_sites(pool@, i + 1)));
                } else {
                    assert(walk.use_sites@ =~= sites0.push(walk.use_sites@.last()));
                    assert(site_refs(walk.use_sites@) =~= site_refs(sites0).push(site));
                }
            }
        } else {
            proof {
                assert(dynamic_sites(pool@, i + 1) == dynamic_sites(pool@, i as int));
            }
        }
        i = i + 1;
    }
    proof {
        lemma_dynamic_sites_grow(pool@, i as int, pool@.len() as int);
        if !halted && crate::cpool::facts_sorted(pool@) {
            assert forall|x: int| 0 <= x < walk.nodes@.len() implies closed_at(pool@, bootstraps@, walk.edges@,
                (#[trigger] walk.nodes@[x]).node) by {
                assert(listed(walk.nodes@, walk.nodes@[x].node));
                if enters(Seq::<Step>::empty(), walk.nodes@[x].node) {
                    let y = choose|y: int| 0 <= y < Seq::<Step>::empty().len() && #[trigger] entered(Seq::<Step>::empty()[y], walk.nodes@[x].node);
                }
            }
        }
    }
    Ok(CondyGraph {
        nodes: walk.nodes,
        edges: walk.edges,
        use_sites: walk.use_sites,
        cycles: walk.cycles,
        bootstrap_entries,
        dynamic_tag,
        budget: walk.budget,
    })
}

fn contains_u16(v: &Vec<u16>, x: u16) -> (b: bool)
    ensures
        b == v@.contains(x),
{
    let mut i: usize = 0;
    while i < v.len()
        invariant
            i <= v@.len(),
            forall|j: int| 0 <= j < i ==> v@[j] != x,
        decreases v@.len() - i,
    {
        if v[i] == x {
            assert(v@[i as int] == x);
            return true;
        }
        i = i + 1;
    }
    false
}

/// A published concat site: an `InvokeDynamic` entry of the table whose bootstrap handle names
/// a `MethodRef` owned by `java/lang/invoke/StringConcatFactory`.
pub open spec fn concat_site_ok(pool: Seq<CpEntryFacts>, site: ConcatSite) -> bool {
    &&& site.factory_owner.0@ == crate::names::string_concat_factory_name()
    &&& exists|e: CpEntryFacts| pool.contains(e) && e.index == site.constant_pool_index
        && (e.kind@ matches CpKind::InvokeDynamic { bootstrap_method_attr_index, name, descriptor, .. }
            && bootstrap_method_attr_index == site.bootstrap_index && name == site.name.0@ && descriptor == site.descriptor.0@)
    &&& (site.strategy == ConcatStrategy::Concat <==> site.name.0@ == crate::names::make_concat_name())
    &&& (site.strategy == ConcatStrategy::ConcatWithConstants <==> site.name.0@ == crate::names::make_concat_with_constants_name())
}

/// The table holds an entry for `index`.
pub open spec fn present(pool: Seq<CpEntryFacts>, index: u16) -> bool {
    index != 0 && crate::cpool::holds_index(pool, index)
}

/// The `BootstrapMethods` entry an `InvokeDynamic` entry names, when the attribute declares it.
pub open spec fn site_bootstrap(bootstraps: Seq<BootstrapMethodFacts>, e: CpEntryFacts) -> Option<BootstrapMethodFacts> {
    match e.kind@ {
        CpKind::InvokeDynamic { bootstrap_method_attr_index, .. } => if bootstrap_method_attr_index < bootstraps.len() {
            Some(bootstraps[bootstrap_method_attr_index as int])
        } else {
            None
        },
        _ => None,
    }
}

/// The `MethodRef` a bootstrap entry's handle refers to, when its handle is a
/// `CONSTANT_MethodHandle` and the reference is a `CONSTANT_MethodRef` of the table.
pub open spec fn handle_factory(pool: Seq<CpEntryFacts>, b: BootstrapMethodFacts) -> Option<CpKind> {
    match fact_at(pool, b.method_ref).kind@ {
        CpKind::MethodHandle { reference_index, .. } => if present(pool, reference_index)
            && fact_at(pool, reference_index).kind@ is MethodRef {
            Some(fact_at(pool, reference_index).kind@)
        } else {
            None
        },
        _ => None,
    }
}

/// An `InvokeDynamic` entry whose bootstrap handle refers to a method of the concat factory.
pub open spec fn is_concat_entry(pool: Seq<CpEntryFacts>, bootstraps: Seq<BootstrapMethodFacts>, e: CpEntryFacts) -> bool {
    &&& site_bootstrap(bootstraps, e) matches Some(b)
    &&& present(pool, b.method_ref)
    &&& handle_factory(pool, b) matches Some(CpKind::MethodRef { owner, .. })
    &&& owner == crate::names::string_concat_factory_name()
}

/// The strategy a site's method name selects.
pub open spec fn strategy_of(name: Seq<u8>) -> ConcatStrategy {
    if name == crate::names::make_concat_name() {
        ConcatStrategy::Concat
    } else if name == crate::names::make_concat_with_constants_name() {
        ConcatStrategy::ConcatWithConstants
    } else {
        ConcatStrategy::Other
    }
}

/// The method name an `InvokeDynamic` entry carries.
pub open spec fn site_name(e: CpEntryFacts) -> Seq<u8> {
    match e.kind@ {
        CpKind::InvokeDynamic { name, .. } => name,
        _ => Seq::empty(),
    }
}

/// An entry whose reading stops the concat scan: its declared bootstrap handle is missing from
/// the table, or it is a `makeConcatWithConstants` site whose first static argument is.
pub open spec fn concat_entry_refused(pool: Seq<CpEntryFacts>, bootstraps: Seq<BootstrapMethodFacts>, e: CpEntryFacts) -> bool {
    &&& site_bootstrap(bootstraps, e) matches Some(b)
    &&& {
        ||| !present(pool, b.method_ref)
        ||| is_concat_entry(pool, bootstraps, e) && strategy_of(site_name(e)) == ConcatStrategy::ConcatWithConstants
            && b.arguments@.len() > 0 && !present(pool, b.arguments@[0])
    }
}

/// The concat entries among the first `n` table entries, in table order.
pub open spec fn concat_entries(pool: Seq<CpEntryFacts>, bootstraps: Seq<BootstrapMethodFacts>, n: nat) -> Seq<CpEntryFacts>
    decreases n,
{
    if n == 0 {
        Seq::empty()
    } else {
        let before = concat_entries(pool, bootstraps, (n - 1) as nat);
        if is_concat_entry(pool, bootstraps, pool[n - 1]) {
            before.push(pool[n - 1])
        } else {
            before
        }
    }
}

/// The recipe a site with bootstrap entry `b` carries: the first static argument's string, for
/// `makeConcatWithConstants`.
pub open spec fn recipe_of(pool: Seq<CpEntryFacts>, b: BootstrapMethodFacts, strategy: ConcatStrategy) -> Option<Seq<u8>> {
    if strategy == ConcatStrategy::ConcatWithConstants && b.arguments@.len() > 0 {
        match fact_at(pool, b.arguments@[0]).kind@ {
            CpKind::String { value, .. } => Some(value),
            _ => None,
        }
    } else {
        None
    }
}

/// `site` states the concat entry `e` under the `InvokeDynamic` tag rule introduced in `since`.
pub open spec fn site_states(pool: Seq<CpEntryFacts>, bootstraps: Seq<BootstrapMethodFacts>, since: u16, e: CpEntryFacts, site: ConcatSite) -> bool {
    &&& e.kind@ matches CpKind::InvokeDynamic { bootstrap_method_attr_index, name, descriptor, .. }
    &&& site.constant_pool_index == e.index
    &&& site.span == e.span
    &&& site.name.0@ == name
    &&& site.descriptor.0@ == descriptor
    &&& site.bootstrap_index == bootstrap_method_attr_index
    &&& site.strategy == strategy_of(name)
    &&& handle_factory(pool, bootstraps[bootstrap_method_attr_index as int]) matches Some(
        CpKind::MethodRef { owner, name: factory_name, descriptor: factory_descriptor, .. })
    &&& site.factory_owner.0@ == owner
    &&& site.factory_name.0@ == factory_name
    &&& site.factory_descriptor.0@ == factory_descriptor
    &&& (match site.recipe {
        Some(r) => recipe_of(pool, bootstraps[bootstrap_method_attr_index as int], strategy_of(name)) == Some(r.0@),
        None => recipe_of(pool, bootstraps[bootstrap_method_attr_index as int], strategy_of(name)) is None,
    })
    &&& site.tag_rule.tag == TAG_INVOKE_DYNAMIC
    &&& site.tag_rule.since == since
}

/// The release registers `CONSTANT_InvokeDynamic` for `major`, from release `since` on.
pub open spec fn invoke_dynamic_since(major: u16) -> Option<u16> {
    if crate::release::registration_of(major) is Registered {
        match crate::release::tag_rule_spec(TAG_INVOKE_DYNAMIC) {
            Some(since) => if major >= since { Some(since) } else { None },
            None => None,
        }
    } else {
        None
    }
}

/// Reads the class's modern string-concat sites, in constant-pool order: only when the release
/// registers `CONSTANT_InvokeDynamic`, and only sites whose own bootstrap handle names the
/// factory. No factory is called and no recipe is expanded.
#[verifier::rlimit(80)]
fn concat_sites(pool: &[CpEntryFacts], bootstraps: &[BootstrapMethodFacts], major: u16, budget: &mut Budget,
    diagnostics: &mut Vec<Diagnostic>) -> (r: Result<Vec<ConcatSite>>)
    ensures
        r matches Err(e) ==> crate::budget::honest_refusal(e, old(budget).limits_of()),
        final(budget).limits_of() == old(budget).limits_of(),
        r matches Err(e) ==> !graph_refusal(e),
        r matches Ok(v) ==> forall|k: int| 0 <= k < v@.len() ==> concat_site_ok(pool@, #[trigger] v@[k]),
        invoke_dynamic_since(major) is None ==> (r matches Ok(v) && v@.len() == 0),
        invoke_dynamic_since(major) matches Some(since) ==> (crate::cpool::facts_sorted(pool@) ==> {
            &&& (r matches Ok(v) ==> v@.len() == concat_entries(pool@, bootstraps@, pool@.len()).len()
                && (forall|k: int| 0 <= k < v@.len() ==> site_states(pool@, bootstraps@, since,
                    concat_entries(pool@, bootstraps@, pool@.len())[k], #[trigger] v@[k]))
                && forall|j: int| 0 <= j < pool@.len() ==> !concat_entry_refused(pool@, bootstraps@, #[trigger] pool@[j]))
            &&& (r matches Err(e) ==> is_stop(e) || e is BudgetExceeded
                || exists|j: int| 0 <= j < pool@.len() && concat_entry_refused(pool@, bootstraps@, #[trigger] pool@[j]))
        }),
        r matches Err(e) ==> is_stop(e) || e is BudgetExceeded || is_invalid(e, "classfile_invalid_constant_pool_index"@),
        old(diagnostics)@.is_prefix_of(final(diagnostics)@),
{
    let tag_rule = match constant_pool_tag(TAG_INVOKE_DYNAMIC, major) {
        ConstantPoolTagStatus::Registered { rule } => rule,
        _ => return Ok(Vec::new()),
    };
    let ghost since = tag_rule.since;
    assert(invoke_dynamic_since(major) == Some(since));
    let ghost sorted = crate::cpool::facts_sorted(pool@);
    let mut sites: Vec<ConcatSite> = Vec::new();
    let mut i: usize = 0;
    while i < pool.len()
        invariant
            i <= pool@.len(),
            budget.limits_of() == old(budget).limits_of(),
            sorted == crate::cpool::facts_sorted(pool@),
            invoke_dynamic_since(major) == Some(since),
            tag_rule.tag == TAG_INVOKE_DYNAMIC,
            tag_rule.since == since,
            old(diagnostics)@.is_prefix_of(diagnostics@),
            forall|k: int| 0 <= k < sites@.len() ==> concat_site_ok(pool@, #[trigger] sites@[k]),
            sorted ==> sites@.len() == concat_entries(pool@, bootstraps@, i as nat).len(),
            sorted ==> forall|k: int| 0 <= k < sites@.len() ==> site_states(pool@, bootstraps@, since,
                concat_entries(pool@, bootstraps@, i as nat)[k], #[trigger] sites@[k]),
            sorted ==> forall|j: int| 0 <= j < i ==> !concat_entry_refused(pool@, bootstraps@, #[trigger] pool@[j]),
        decreases pool@.len() - i,
    {
        budget.poll()?;
        let entry = &pool[i];
        let ghost e = pool@[i as int];
        let ghost before = concat_entries(pool@, bootstraps@, i as nat);
        assert(concat_entries(pool@, bootstraps@, (i + 1) as nat) == if is_concat_entry(pool@, bootstraps@, e) {
            before.push(e)
        } else {
            before
        });
        assert(pool@.contains(*entry));
        match &entry.kind {
            CpEntryKind::InvokeDynamic { bootstrap_method_attr_index, name, descriptor, .. } => {
                let bootstrap_index = *bootstrap_method_attr_index;
                if (bootstrap_index as usize) < bootstraps.len() {
                    let bootstrap = &bootstraps[bootstrap_index as usize];
                    assert(site_bootstrap(bootstraps@, e) == Some(*bootstrap));
                    let handle = cp_entry(pool, bootstrap.method_ref)?;
                    match &handle.kind {
                        CpEntryKind::MethodHandle { reference_index, .. } => {
                            let factory = match cp_entry(pool, *reference_index) {
                                Ok(fact) => match &fact.kind {
                                    CpEntryKind::MethodRef { owner, name: method_name, descriptor: method_descriptor, .. } =>
                                        Some((owner.duplicate(), method_name.duplicate(), method_descriptor.duplicate())),
                                    _ => None,
                                },
                                Err(_) => None,
                            };
                            assert(sorted ==> (factory is None <==> handle_factory(pool@, *bootstrap) is None));
                            assert(sorted && factory is Some ==> (handle_factory(pool@, *bootstrap) matches Some(
                                CpKind::MethodRef { owner, name: n, descriptor: d, .. })
                                && owner == factory->Some_0.0.0@ && n == factory->Some_0.1.0@ && d == factory->Some_0.2.0@));
                            match factory {
                                None => {
                                    let mut m = crate::text::prefixed_number("invokedynamic entry ", entry.index as u64);
                                    m.append(" names bootstrap handle ");
                                    crate::text::push_decimal(&mut m, bootstrap.method_ref as u64);
                                    m.append(" whose reference is not a CONSTANT_MethodRef, so no factory can be named for the site");
                                    let ghost d0 = diagnostics@;
                                    diagnostics.push(fact_diagnostic("classfile_concat_handle_unresolved", DiagnosticSeverity::Info, m));
                                    assert(d0.is_prefix_of(diagnostics@));
                                },
                                Some((owner, factory_name, factory_descriptor)) => {
                                    if crate::names::is_string_concat_factory(owner.0.as_slice()) {
                                        let strategy = if crate::names::is_make_concat(name.0.as_slice()) {
                                            ConcatStrategy::Concat
                                        } else if crate::names::is_make_concat_with_constants(name.0.as_slice()) {
                                            ConcatStrategy::ConcatWithConstants
                                        } else {
                                            ConcatStrategy::Other
                                        };
                                        assert(strategy == strategy_of(name.0@));
                                        assert(site_name(e) == name.0@);
                                        let recipe = match strategy {
                                            ConcatStrategy::ConcatWithConstants => if bootstrap.arguments.len() > 0 {
                                                match &cp_entry(pool, bootstrap.arguments[0])?.kind {
                                                    CpEntryKind::String { value, .. } => Some(value.duplicate()),
                                                    _ => None,
                                                }
                                            } else {
                                                None
                                            },
                                            _ => None,
                                        };
                                        budget.charge(CountedBudgetDimension::ResultItems, 1)?;
                                        let site = ConcatSite {
                                            constant_pool_index: entry.index,
                                            span: span_copy(&entry.span),
                                            name: name.duplicate(),
                                            descriptor: descriptor.duplicate(),
                                            bootstrap_index,
                                            strategy,
                                            factory_owner: owner,
                                            factory_name,
                                            factory_descriptor,
                                            recipe,
                                            tag_rule,
                                        };
                                        proof {
                                            assert(crate::names::make_concat_name().len() == 10);
                                            assert(crate::names::make_concat_with_constants_name().len() == 23);
                                            assert(entry.kind@ matches CpKind::InvokeDynamic { bootstrap_method_attr_index, name, descriptor, .. }
                                                && bootstrap_method_attr_index == site.bootstrap_index && name == site.name.0@ && descriptor == site.descriptor.0@);
                                            assert(pool@.contains(*entry) && entry.index == site.constant_pool_index);
                                            if sorted {
                                                assert(is_concat_entry(pool@, bootstraps@, e));
                                                assert(site_states(pool@, bootstraps@, since, e, site));
                                            }
                                        }
                                        assert(concat_site_ok(pool@, site));
                                        sites.push(site);
                                    } else {
                                        assert(sorted ==> !is_concat_entry(pool@, bootstraps@, e));
                                    }
                                },
                            }
                        },
                        _ => {
                            assert(sorted ==> handle_factory(pool@, *bootstrap) is None);
                        },
                    }
                }
            },
            _ => {},
        }
        assert(sorted ==> !concat_entry_refused(pool@, bootstraps@, e));
        i = i + 1;
    }
    Ok(sites)
}


/// `attribute_name_index` of one class-level shell, read back from the entry's own span.
fn shell_name_index(bytes: &[u8], shell: &AttributeShell) -> (r: Result<u16>)
    ensures
        r matches Ok(v) ==> shell.span.start + 2 <= bytes@.len() && v == crate::bytes::be16(bytes@, shell.span.start as int),
        shell.span.start + 2 <= bytes@.len() ==> r is Ok,
        r matches Err(e) ==> e is InvalidInput,
{
    let n = bytes.len();
    if shell.span.start > usize::MAX as u64 {
        assert(n <= usize::MAX);
        return Err(Error::invalid_input("classfile_invalid_attribute_span", "attribute start does not fit a byte offset"));
    }
    crate::bytes::read_u16(bytes, shell.span.start as usize)
}

/// Where the `m`-th `attribute_info` of a list whose first entry starts at `s` lies.
pub open spec fn attr_entry_at(c: Seq<u8>, s: int, m: nat) -> int
    decreases m,
{
    if m == 0 {
        s
    } else {
        let q = attr_entry_at(c, s, (m - 1) as nat);
        q + 6 + crate::bytes::be32(c, q + 2)
    }
}

/// Where the `k`-th component of a `Record` content lies: after the `u16` count, each
/// component is a name index, a descriptor index and a counted attribute list.
pub open spec fn component_at(c: Seq<u8>, k: nat) -> int
    decreases k,
{
    if k == 0 {
        2
    } else {
        let p = component_at(c, (k - 1) as nat);
        attr_entry_at(c, p + 6, crate::bytes::be16(c, p + 4) as nat)
    }
}

/// The component at `p` is whole, its attributes are whole and named, and its name and
/// descriptor indexes are `CONSTANT_Utf8` entries.
pub open spec fn component_ok(pool: Seq<CpEntryFacts>, c: Seq<u8>, p: int) -> bool {
    &&& p + 6 <= c.len()
    &&& forall|m: nat| m < crate::bytes::be16(c, p + 4)
        ==> crate::attributes::nested_entry_ok(pool, c, #[trigger] attr_entry_at(c, p + 6, m))
    &&& crate::attributes::entry_with(pool, crate::bytes::be16(c, p), |q: CpKind| q is Utf8)
    &&& crate::attributes::entry_with(pool, crate::bytes::be16(c, p + 2), |q: CpKind| q is Utf8)
}

/// A `Record` content whose components are all sound and which ends with its last component.
pub open spec fn record_content_ok(pool: Seq<CpEntryFacts>, c: Seq<u8>) -> bool {
    &&& 2 <= c.len()
    &&& forall|k: nat| k < crate::bytes::be16(c, 0) ==> component_ok(pool, c, #[trigger] component_at(c, k))
    &&& component_at(c, crate::bytes::be16(c, 0) as nat) == c.len()
}

/// `f` states the `k`-th component, at `p`, of the `Record` content `c` that `cs` spans.
pub open spec fn component_states(pool: Seq<CpEntryFacts>, cs: ByteSpan, c: Seq<u8>, p: int, k: int, f: RecordComponentFacts) -> bool {
    &&& f.index == k
    &&& f.name_index == crate::bytes::be16(c, p)
    &&& crate::attributes::utf8_named(pool, f.name_index, f.name.0@)
    &&& f.descriptor_index == crate::bytes::be16(c, p + 2)
    &&& crate::attributes::utf8_named(pool, f.descriptor_index, f.descriptor.0@)
    &&& f.attributes@.len() == crate::bytes::be16(c, p + 4)
    &&& forall|m: int| 0 <= m < f.attributes@.len() ==> crate::attributes::is_nested(pool, cs, c,
        attr_entry_at(c, p + 6, m as nat), #[trigger] f.attributes@[m])
}

/// The shell is a readable `Record` attribute of these bytes.
pub open spec fn record_readable(bytes: Seq<u8>, shell: AttributeShell, pool: Seq<CpEntryFacts>) -> bool {
    crate::attributes::shell_matches_inside(bytes, shell)
        && record_content_ok(pool, crate::attributes::content_of(bytes, shell))
}

/// The components a `Record` shell declares, as read: one per declared entry, in order.
pub open spec fn record_read(bytes: Seq<u8>, shell: AttributeShell, pool: Seq<CpEntryFacts>, f: RecordFacts) -> bool {
    let c = crate::attributes::content_of(bytes, shell);
    &&& f.components@.len() == crate::bytes::be16(c, 0)
    &&& forall|k: int| 0 <= k < f.components@.len() ==> component_states(pool, shell.content_span, c,
        component_at(c, k as nat), k, #[trigger] f.components@[k])
}

/// The classes a `PermittedSubclasses` shell declares, as read.
pub open spec fn permitted_read(bytes: Seq<u8>, shell: AttributeShell, pool: Seq<CpEntryFacts>, p: PermittedSubclassesFacts) -> bool {
    let c = crate::attributes::content_of(bytes, shell);
    &&& p.span == shell.span && p.content_span == shell.content_span
    &&& crate::attributes::class_run_ok(pool, c, 0)
    &&& crate::attributes::class_run_names(pool, c, 0, p.permitted@)
}

/// The bootstrap table a read works from: that of a legal `BootstrapMethods` shell of the class,
/// entry by entry, or none when the class has no legal shell of that name.
pub open spec fn bootstraps_of(bytes: Seq<u8>, facts: ClassFacts, bs: Seq<BootstrapMethodFacts>) -> bool {
    ||| bs.len() == 0 && forall|j: int| 0 <= j < facts.attributes@.len()
        ==> !#[trigger] legal_shell(facts, j, crate::names::bootstrap_methods_name())
    ||| exists|j: int| 0 <= j < facts.attributes@.len()
        && #[trigger] legal_shell(facts, j, crate::names::bootstrap_methods_name()) && {
            let c = crate::attributes::content_of(bytes, facts.attributes@[j]);
            &&& bs.len() == crate::bytes::be16(c, 0)
            &&& forall|i: int| 0 <= i < bs.len() ==> crate::attributes::is_bootstrap(c,
                crate::attributes::bootstrap_at(c, i as nat), #[trigger] bs[i])
        }
}

/// The string-concat sites of a read: none before the release that places `invoke_dynamic`, and
/// otherwise one per concat entry of the pool under the class's bootstrap table, in pool order.
pub open spec fn concat_of(bytes: Seq<u8>, facts: ClassFacts, concat: Seq<ConcatSite>) -> bool {
    match invoke_dynamic_since(facts.major_version) {
        None => concat.len() == 0,
        Some(since) => crate::cpool::facts_sorted(facts.constant_pool@) ==> exists|bs: Seq<BootstrapMethodFacts>|
            #[trigger] bootstraps_of(bytes, facts, bs)
            && concat.len() == concat_entries(facts.constant_pool@, bs, facts.constant_pool@.len()).len()
            && forall|k: int| 0 <= k < concat.len() ==> site_states(facts.constant_pool@, bs, since,
                concat_entries(facts.constant_pool@, bs, facts.constant_pool@.len())[k], #[trigger] concat[k]),
    }
}

/// At most one class-level shell is a legally placed `BootstrapMethods` attribute.
pub open spec fn one_bootstrap_shell(facts: ClassFacts) -> bool {
    forall|i: int, j: int| i < j && #[trigger] legal_shell(facts, i, crate::names::bootstrap_methods_name())
        ==> !#[trigger] legal_shell(facts, j, crate::names::bootstrap_methods_name())
}

/// Every entry the concat scan lists is a concat entry of the table.
proof fn lemma_concat_entries_are_sites(pool: Seq<CpEntryFacts>, bootstraps: Seq<BootstrapMethodFacts>, n: nat)
    requires
        n <= pool.len(),
    ensures
        forall|i: int| 0 <= i < concat_entries(pool, bootstraps, n).len()
            ==> is_concat_entry(pool, bootstraps, #[trigger] concat_entries(pool, bootstraps, n)[i]),
    decreases n,
{
    if n > 0 {
        lemma_concat_entries_are_sites(pool, bootstraps, (n - 1) as nat);
        let before = concat_entries(pool, bootstraps, (n - 1) as nat);
        let after = concat_entries(pool, bootstraps, n);
        assert forall|i: int| 0 <= i < after.len() implies is_concat_entry(pool, bootstraps, #[trigger] after[i]) by {
            if i < before.len() {
                assert(after[i] == before[i]);
            }
        }
    }
}

/// A `makeConcatWithConstants` site carries its recipe: when the first static argument of the
/// site's bootstrap entry, as the class's one `BootstrapMethods` attribute declares it, is a
/// `CONSTANT_String` entry of the table, the site's recipe is that string's bytes.
pub proof fn law_concat_recipe_is_first_string_argument(bytes: Seq<u8>, facts: ClassFacts, concat: Seq<ConcatSite>, k: int,
    shell: int, arg: CpEntryFacts, value: Seq<u8>)
    requires
        concat_of(bytes, facts, concat),
        crate::cpool::facts_sorted(facts.constant_pool@),
        one_bootstrap_shell(facts),
        0 <= k < concat.len(),
        concat[k].name.0@ == crate::names::make_concat_with_constants_name(),
        legal_shell(facts, shell, crate::names::bootstrap_methods_name()),
        ({
            let c = crate::attributes::content_of(bytes, facts.attributes@[shell]);
            let p = crate::attributes::bootstrap_at(c, concat[k].bootstrap_index as nat);
            &&& crate::bytes::be16(c, p + 2) > 0
            &&& arg.index == crate::bytes::be16(c, p + 4)
        }),
        facts.constant_pool@.contains(arg),
        arg.kind@ matches CpKind::String { value: v, .. } && v == value,
    ensures
        concat[k].recipe matches Some(r) && r.0@ == value,
{
    let pool = facts.constant_pool@;
    assert(invoke_dynamic_since(facts.major_version) is Some);
    let since = invoke_dynamic_since(facts.major_version)->Some_0;
    let bs = choose|bs: Seq<BootstrapMethodFacts>| #[trigger] bootstraps_of(bytes, facts, bs)
        && concat.len() == concat_entries(pool, bs, pool.len()).len()
        && forall|x: int| 0 <= x < concat.len() ==> site_states(pool, bs, since,
            concat_entries(pool, bs, pool.len())[x], #[trigger] concat[x]);
    let e = concat_entries(pool, bs, pool.len())[k];
    assert(site_states(pool, bs, since, e, concat[k]));
    lemma_concat_entries_are_sites(pool, bs, pool.len());
    assert(is_concat_entry(pool, bs, e));
    let bi = concat[k].bootstrap_index;
    assert(bi < bs.len());
    let c = crate::attributes::content_of(bytes, facts.attributes@[shell]);
    let p = crate::attributes::bootstrap_at(c, bi as nat);
    assert(crate::attributes::is_bootstrap(c, p, bs[bi as int])) by {
        assert(!(bs.len() == 0));
        let j = choose|j: int| 0 <= j < facts.attributes@.len()
            && #[trigger] legal_shell(facts, j, crate::names::bootstrap_methods_name()) && {
                let cj = crate::attributes::content_of(bytes, facts.attributes@[j]);
                &&& bs.len() == crate::bytes::be16(cj, 0)
                &&& forall|i: int| 0 <= i < bs.len() ==> crate::attributes::is_bootstrap(cj,
                    crate::attributes::bootstrap_at(cj, i as nat), #[trigger] bs[i])
            };
        if j < shell {
            assert(!legal_shell(facts, shell, crate::names::bootstrap_methods_name()));
        } else if shell < j {
            assert(!legal_shell(facts, j, crate::names::bootstrap_methods_name()));
        }
        assert(j == shell);
        assert(crate::attributes::is_bootstrap(c, crate::attributes::bootstrap_at(c, bi as nat), bs[bi as int]));
    }
    assert(bs[bi as int].arguments@[0] == crate::bytes::be16(c, p + 4 + 2 * 0));
    crate::cpool::lemma_fact_at(pool, arg);
    assert(crate::names::make_concat_name().len() == 10);
    assert(crate::names::make_concat_with_constants_name().len() == 23);
    assert(strategy_of(concat[k].name.0@) == ConcatStrategy::ConcatWithConstants);
    assert(recipe_of(pool, bs[bi as int], ConcatStrategy::ConcatWithConstants) == Some(value));
}

/// The constant-dynamic graph of a read is what the pool and the class's bootstrap table state
/// of each other.
pub open spec fn condy_read(bytes: Seq<u8>, facts: ClassFacts, g: CondyGraph) -> bool {
    exists|bs: Seq<BootstrapMethodFacts>| #[trigger] bootstraps_of(bytes, facts, bs) && condy_of(facts.constant_pool@, bs, g)
}

/// The `Record` facts of a read are those of the class's one legal `Record` shell, and there are
/// none without one.
pub open spec fn record_of(bytes: Seq<u8>, facts: ClassFacts, record: Option<RecordFacts>) -> bool {
    match record {
        None => forall|j: int| 0 <= j < facts.attributes@.len()
            ==> !#[trigger] legal_shell(facts, j, modern_name(UniqueAttribute::Record)),
        Some(rec) => exists|j: int| 0 <= j < facts.attributes@.len()
            && #[trigger] legal_shell(facts, j, modern_name(UniqueAttribute::Record))
            && record_read(bytes, facts.attributes@[j], facts.constant_pool@, rec),
    }
}

/// The `PermittedSubclasses` facts of a read are those of the class's one legal shell of that
/// name, and there are none without one.
pub open spec fn permitted_of(bytes: Seq<u8>, facts: ClassFacts, permitted: Option<PermittedSubclassesFacts>) -> bool {
    match permitted {
        None => forall|j: int| 0 <= j < facts.attributes@.len()
            ==> !#[trigger] legal_shell(facts, j, modern_name(UniqueAttribute::PermittedSubclasses)),
        Some(p) => exists|j: int| 0 <= j < facts.attributes@.len()
            && #[trigger] legal_shell(facts, j, modern_name(UniqueAttribute::PermittedSubclasses))
            && permitted_read(bytes, facts.attributes@[j], facts.constant_pool@, p),
    }
}

/// Reads the `Record` attribute's components.
#[verifier::rlimit(80)]
fn read_record(bytes: &[u8], shell: &AttributeShell, pool: &[CpEntryFacts], rule: AttributeRule, name_index: u16,
    budget: &mut Budget) -> (r: Result<RecordFacts>)
    ensures
        r matches Err(e) ==> crate::budget::honest_refusal(e, old(budget).limits_of()),
        final(budget).limits_of() == old(budget).limits_of(),
        r matches Err(e) ==> !graph_refusal(e),
        r matches Ok(f) ==> f.name_index == name_index && f.span == shell.span && f.content_span == shell.content_span
            && f.rule == rule && forall|k: int| 0 <= k < f.components@.len() ==> (#[trigger] f.components@[k]).index == k,
        r matches Ok(f) ==> record_readable(bytes@, *shell, pool@) && record_read(bytes@, *shell, pool@, f),
        r matches Err(e) ==> (!is_stop(e) && !(e is BudgetExceeded) && crate::cpool::facts_sorted(pool@)
            ==> !record_readable(bytes@, *shell, pool@)),
{
    let content = match attribute_content(bytes, shell, budget) {
        Ok(c) => c,
        Err(e) => {
            return Err(e);
        },
    };
    let ghost c = content@;
    let ghost sorted = crate::cpool::facts_sorted(pool@);
    assert(c == crate::attributes::content_of(bytes@, *shell));
    let mut reader = AttributeReader::new(content);
    let count = reader.u16()?;
    let cs = span_copy(&shell.content_span);
    let n = bytes.len();
    let mut components: Vec<RecordComponentFacts> = Vec::new();
    let mut index: u16 = 0;
    while index < count
        invariant
            reader.wf(),
            reader.content@ == content@,
            c == content@,
            c == crate::attributes::content_of(bytes@, *shell),
            crate::attributes::shell_matches_inside(bytes@, *shell),
            sorted == crate::cpool::facts_sorted(pool@),
            content@.len() == cs.length,
            cs == shell.content_span,
            cs.start + cs.length <= bytes@.len(),
            n == bytes@.len(),
            2 <= c.len(),
            count == crate::bytes::be16(c, 0),
            budget.limits_of() == old(budget).limits_of(),
            index <= count,
            components@.len() == index,
            reader.position == component_at(c, index as nat),
            forall|k: nat| k < index ==> component_ok(pool@, c, #[trigger] component_at(c, k)),
            forall|k: int| 0 <= k < components@.len() ==> (#[trigger] components@[k]).index == k,
            forall|k: int| 0 <= k < components@.len() ==> component_states(pool@, cs, c,
                component_at(c, k as nat), k, #[trigger] components@[k]),
        decreases count - index,
    {
        let ghost p = reader.position as int;
        budget.poll()?;
        let component_name_index = reader.u16()?;
        let descriptor_index = reader.u16()?;
        let attribute_count = reader.u16()?;
        assert(component_at(c, (index + 1) as nat) == attr_entry_at(c, p + 6, attribute_count as nat));
        let mut attributes: Vec<NestedAttributeFact> = Vec::new();
        let mut a: u16 = 0;
        while a < attribute_count
            invariant
                reader.wf(),
                reader.content@ == content@,
                c == content@,
                c == crate::attributes::content_of(bytes@, *shell),
                crate::attributes::shell_matches_inside(bytes@, *shell),
                sorted == crate::cpool::facts_sorted(pool@),
                content@.len() == cs.length,
                cs == shell.content_span,
                cs.start + cs.length <= bytes@.len(),
                n == bytes@.len(),
                2 <= c.len(),
                count == crate::bytes::be16(c, 0),
                index < count,
                p == component_at(c, index as nat),
                p + 6 <= c.len(),
                attribute_count == crate::bytes::be16(c, p + 4),
                budget.limits_of() == old(budget).limits_of(),
                a <= attribute_count,
                attributes@.len() == a,
                reader.position == attr_entry_at(c, p + 6, a as nat),
                forall|m: nat| m < a ==> crate::attributes::nested_entry_ok(pool@, c, #[trigger] attr_entry_at(c, p + 6, m)),
                forall|m: int| 0 <= m < attributes@.len() ==> crate::attributes::is_nested(pool@, cs, c,
                    attr_entry_at(c, p + 6, m as nat), #[trigger] attributes@[m]),
            decreases attribute_count - a,
        {
            let ghost q = reader.position as int;
            assert(attr_entry_at(c, p + 6, (a + 1) as nat) == q + 6 + crate::bytes::be32(c, q + 2));
            budget.poll()?;
            let start = entry_offset(&cs, reader.position())?;
            let nested_name_index = reader.u16()?;
            let length = reader.u32()?;
            let content_start = entry_offset(&cs, reader.position())?;
            reader.skip(length as usize)?;
            let end = entry_offset(&cs, reader.position())?;
            let name = match cp_utf8(pool, nested_name_index) {
                Ok(n) => n,
                Err(e) => {
                    proof {
                        if sorted {
                            crate::attributes::lemma_refused(pool@, nested_name_index, |k: CpKind| k is Utf8);
                            assert(!crate::attributes::nested_entry_ok(pool@, c, attr_entry_at(c, p + 6, a as nat)));
                            assert(!component_ok(pool@, c, component_at(c, index as nat)));
                        }
                    }
                    return Err(e);
                },
            };
            let fact = NestedAttributeFact {
                name_index: nested_name_index,
                name,
                span: ByteSpan::new(start, end - start),
                content_span: ByteSpan::new(content_start, length as u64),
            };
            proof {
                crate::attributes::lemma_utf8_entry(pool@, nested_name_index, fact.name.0@);
            }
            assert(crate::attributes::is_nested(pool@, cs, c, q, fact));
            assert(crate::attributes::nested_entry_ok(pool@, c, q));
            attributes.push(fact);
            a = a + 1;
        }
        budget.charge(CountedBudgetDimension::ResultItems, 1)?;
        let name = match cp_utf8(pool, component_name_index) {
            Ok(n) => n,
            Err(e) => {
                proof {
                    if sorted {
                        crate::attributes::lemma_refused(pool@, component_name_index, |k: CpKind| k is Utf8);
                        assert(!component_ok(pool@, c, component_at(c, index as nat)));
                    }
                }
                return Err(e);
            },
        };
        let descriptor = match cp_utf8(pool, descriptor_index) {
            Ok(n) => n,
            Err(e) => {
                proof {
                    if sorted {
                        crate::attributes::lemma_refused(pool@, descriptor_index, |k: CpKind| k is Utf8);
                        assert(!component_ok(pool@, c, component_at(c, index as nat)));
                    }
                }
                return Err(e);
            },
        };
        proof {
            crate::attributes::lemma_utf8_entry(pool@, component_name_index, name.0@);
            crate::attributes::lemma_utf8_entry(pool@, descriptor_index, descriptor.0@);
        }
        let f = RecordComponentFacts { index, name_index: component_name_index, name, descriptor_index, descriptor, attributes };
        assert(component_states(pool@, cs, c, p, index as int, f));
        assert(component_ok(pool@, c, p));
        components.push(f);
        index = index + 1;
    }
    reader.expect_end()?;
    Ok(RecordFacts { name_index, span: span_copy(&shell.span), content_span: cs, components, rule })
}

/// The name a class-level attribute read by this pass is spelled with.
pub open spec fn modern_name(k: UniqueAttribute) -> Seq<u8> {
    match k {
        UniqueAttribute::Record => crate::names::record_name(),
        UniqueAttribute::PermittedSubclasses => crate::names::permitted_subclasses_name(),
        _ => crate::names::bootstrap_methods_name(),
    }
}

/// The class-level attributes this pass reads.
pub open spec fn modern_kind(k: UniqueAttribute) -> bool {
    k == UniqueAttribute::Record || k == UniqueAttribute::PermittedSubclasses || k == UniqueAttribute::BootstrapMethods
}

/// The class-level shell at `i` has a registry rule for the class's release.
pub open spec fn listed_shell(facts: ClassFacts, i: int) -> bool {
    crate::release::placement_spec(facts.attributes@[i].name.raw_bytes(), ClassfileLocation::ClassFile, facts.major_version) <= 2
}

/// The class-level shell at `i` is legally placed and spelled `name`.
pub open spec fn legal_shell(facts: ClassFacts, i: int, name: Seq<u8>) -> bool {
    &&& 0 <= i < facts.attributes@.len()
    &&& crate::release::placement_spec(facts.attributes@[i].name.raw_bytes(), ClassfileLocation::ClassFile, facts.major_version) == 0
    &&& facts.attributes@[i].name.raw_bytes() == name
}

/// The class-level shell at `i` reads as this pass reads it.
pub open spec fn modern_shell_ok(bytes: Seq<u8>, facts: ClassFacts, i: int) -> bool {
    let shell = facts.attributes@[i];
    let pool = facts.constant_pool@;
    &&& listed_shell(facts, i) ==> shell.span.start + 2 <= bytes.len()
    &&& legal_shell(facts, i, crate::names::record_name()) ==> record_readable(bytes, shell, pool)
    &&& legal_shell(facts, i, crate::names::permitted_subclasses_name()) ==> crate::attributes::shell_matches_inside(bytes, shell)
        && crate::attributes::class_run_ok(pool, crate::attributes::content_of(bytes, shell), 0)
    &&& legal_shell(facts, i, crate::names::bootstrap_methods_name()) ==> crate::attributes::bootstrap_readable(bytes, shell, pool)
}

/// The modern facts of a class read: every table entry has an index, every listed class-level
/// shell names itself inside the bytes, the `Record`, `PermittedSubclasses` and
/// `BootstrapMethods` attributes the release places legally are declared once each and read.
pub open spec fn modern_readable(bytes: Seq<u8>, facts: ClassFacts) -> bool {
    &&& forall|i: int| 0 <= i < facts.constant_pool@.len() ==> (#[trigger] facts.constant_pool@[i]).index != 0
    &&& forall|i: int| 0 <= i < facts.attributes@.len() ==> #[trigger] modern_shell_ok(bytes, facts, i)
    &&& forall|i: int, j: int, k: UniqueAttribute| i < j && modern_kind(k) && #[trigger] legal_shell(facts, i, modern_name(k))
        ==> !#[trigger] legal_shell(facts, j, modern_name(k))
}

/// The class-level shell at `i` reads as the attribute pass reads it, before the bootstrap
/// table is read: a listed shell's name index lies inside the bytes, and a legally placed
/// `Record` or `PermittedSubclasses` reads.
pub open spec fn pass_shell_ok(bytes: Seq<u8>, facts: ClassFacts, i: int) -> bool {
    let shell = facts.attributes@[i];
    let pool = facts.constant_pool@;
    &&& listed_shell(facts, i) ==> shell.span.start + 2 <= bytes.len()
    &&& legal_shell(facts, i, crate::names::record_name()) ==> record_readable(bytes, shell, pool)
    &&& legal_shell(facts, i, crate::names::permitted_subclasses_name()) ==> crate::attributes::shell_matches_inside(bytes, shell)
        && crate::attributes::class_run_ok(pool, crate::attributes::content_of(bytes, shell), 0)
}

/// The class-level shell at `i` is legally placed under the name of a `Record`,
/// `PermittedSubclasses` or `BootstrapMethods` attribute that an earlier shell already declared.
pub open spec fn modern_repeat_at(facts: ClassFacts, i: int) -> bool {
    exists|j: int, k: UniqueAttribute| 0 <= j < i && modern_kind(k) && #[trigger] legal_shell(facts, j, modern_name(k))
        && legal_shell(facts, i, modern_name(k))
}

/// The attribute pass stops at a repeated single-valued attribute: the repeat's name index lies
/// inside the bytes, and every shell before it reads.
pub open spec fn modern_stops_at_repeat(bytes: Seq<u8>, facts: ClassFacts) -> bool {
    exists|i: int| 0 <= i < facts.attributes@.len() && #[trigger] modern_repeat_at(facts, i)
        && facts.attributes@[i].span.start + 2 <= bytes.len()
        && forall|j: int| 0 <= j < i ==> #[trigger] pass_shell_ok(bytes, facts, j)
}

/// A pass that stops at a shell which does not read, with no repeat before it and none at it
/// unless its name index lies outside the bytes, has not stopped at a repeat.
proof fn lemma_pass_stop(bytes: Seq<u8>, facts: ClassFacts, i: int)
    requires
        0 <= i < facts.attributes@.len(),
        forall|j: int| 0 <= j < i ==> !#[trigger] modern_repeat_at(facts, j),
        !pass_shell_ok(bytes, facts, i),
        !modern_repeat_at(facts, i) || facts.attributes@[i].span.start + 2 > bytes.len(),
    ensures
        !modern_stops_at_repeat(bytes, facts),
{
    if modern_stops_at_repeat(bytes, facts) {
        let i2 = choose|i2: int| 0 <= i2 < facts.attributes@.len() && #[trigger] modern_repeat_at(facts, i2)
            && facts.attributes@[i2].span.start + 2 <= bytes.len()
            && forall|j: int| 0 <= j < i2 ==> #[trigger] pass_shell_ok(bytes, facts, j);
        if i2 < i {
            assert(!modern_repeat_at(facts, i2));
        } else if i2 == i {
        } else {
            assert(pass_shell_ok(bytes, facts, i));
        }
    }
}

/// The names of the three attributes this pass reads are distinct.
proof fn lemma_modern_names_distinct(a: UniqueAttribute, b: UniqueAttribute)
    requires
        modern_kind(a),
        modern_kind(b),
        modern_name(a) == modern_name(b),
    ensures
        a == b,
{
    assert(crate::names::record_name().len() == 6);
    assert(crate::names::permitted_subclasses_name().len() == 19);
    assert(crate::names::bootstrap_methods_name().len() == 16);
}

/// A pass that stops reading the `Record` or `PermittedSubclasses` shell at `i`, the first of
/// its kind, after no repeat before it, has not stopped at a repeat.
proof fn lemma_read_stop(bytes: Seq<u8>, facts: ClassFacts, i: int, k: UniqueAttribute)
    requires
        0 <= i < facts.attributes@.len(),
        forall|j: int| 0 <= j < i ==> !#[trigger] modern_repeat_at(facts, j),
        k == UniqueAttribute::Record || k == UniqueAttribute::PermittedSubclasses,
        legal_shell(facts, i, modern_name(k)),
        !(exists|j: int| 0 <= j < i && #[trigger] legal_shell(facts, j, modern_name(k))),
        !modern_shell_ok(bytes, facts, i),
    ensures
        !modern_stops_at_repeat(bytes, facts),
{
    if legal_shell(facts, i, crate::names::bootstrap_methods_name()) {
        lemma_modern_names_distinct(k, UniqueAttribute::BootstrapMethods);
    }
    assert(!modern_repeat_at(facts, i)) by {
        if modern_repeat_at(facts, i) {
            let (j, q) = choose|j: int, q: UniqueAttribute| 0 <= j < i && modern_kind(q) && #[trigger] legal_shell(facts, j, modern_name(q))
                && legal_shell(facts, i, modern_name(q));
            lemma_modern_names_distinct(q, k);
            assert(legal_shell(facts, j, modern_name(k)));
        }
    }
    lemma_pass_stop(bytes, facts, i);
}

/// A pass in which no shell repeats an earlier one has not stopped at a repeat.
proof fn lemma_no_repeat(bytes: Seq<u8>, facts: ClassFacts)
    requires
        forall|j: int| 0 <= j < facts.attributes@.len() ==> !#[trigger] modern_repeat_at(facts, j),
    ensures
        !modern_stops_at_repeat(bytes, facts),
{
}

proof fn lemma_entry_present(pool: Seq<CpEntryFacts>, index: u16, p: spec_fn(CpKind) -> bool)
    requires
        crate::attributes::entry_with(pool, index, p),
    ensures
        present(pool, index),
{
    let e = choose|e: CpEntryFacts| pool.contains(e) && e.index == index && index != 0 && p(e.kind@);
    let j = choose|j: int| 0 <= j < pool.len() && pool[j] == e;
    assert(pool[j].index == index);
}

/// The entries a readable `BootstrapMethods` attribute states name entries of the table.
proof fn lemma_bootstraps_present(bytes: Seq<u8>, shell: AttributeShell, pool: Seq<CpEntryFacts>, v: Seq<BootstrapMethodFacts>)
    requires
        crate::attributes::bootstrap_readable(bytes, shell, pool),
        v.len() == crate::bytes::be16(crate::attributes::content_of(bytes, shell), 0),
        forall|i: int| 0 <= i < v.len() ==> crate::attributes::is_bootstrap(crate::attributes::content_of(bytes, shell),
            crate::attributes::bootstrap_at(crate::attributes::content_of(bytes, shell), i as nat), #[trigger] v[i]),
    ensures
        bootstraps_present(pool, v),
{
    let c = crate::attributes::content_of(bytes, shell);
    assert forall|b: int| 0 <= b < v.len() implies {
        &&& present(pool, (#[trigger] v[b]).method_ref)
        &&& v[b].arguments@.len() <= 0x10000
        &&& forall|a: int| 0 <= a < v[b].arguments@.len() ==> present(pool, v[b].arguments@[a])
    } by {
        let p = crate::attributes::bootstrap_at(c, b as nat);
        assert(crate::attributes::is_bootstrap(c, p, v[b]));
        assert(crate::attributes::bootstrap_entry_ok(pool, c, p));
        lemma_entry_present(pool, v[b].method_ref, |k: CpKind| k is MethodHandle);
        assert forall|a: int| 0 <= a < v[b].arguments@.len() implies present(pool, v[b].arguments@[a]) by {
            assert(v[b].arguments@[a] == crate::bytes::be16(c, p + 4 + 2 * a));
            lemma_entry_present(pool, crate::bytes::be16(c, p + 4 + 2 * a), |k: CpKind| crate::attributes::is_loadable(k));
        }
    }
}

/// No entry of the table stops the concat scan when every bootstrap entry names table entries.
proof fn lemma_no_refusal(pool: Seq<CpEntryFacts>, bootstraps: Seq<BootstrapMethodFacts>)
    requires
        bootstraps_present(pool, bootstraps),
    ensures
        forall|j: int| 0 <= j < pool.len() ==> !concat_entry_refused(pool, bootstraps, #[trigger] pool[j]),
{
    assert forall|j: int| 0 <= j < pool.len() implies !concat_entry_refused(pool, bootstraps, #[trigger] pool[j]) by {
        match pool[j].kind@ {
            CpKind::InvokeDynamic { bootstrap_method_attr_index, .. } => {
                if bootstrap_method_attr_index < bootstraps.len() {
                    assert(bootstraps[bootstrap_method_attr_index as int] == bootstraps[bootstrap_method_attr_index as int]);
                }
            },
            _ => {},
        }
    }
}

/// Reads the modern structural facts of one class under `level`, from the [`ClassFacts`] read
/// of the same bytes: the registry's placement of every class-level attribute it holds a rule
/// for, the `Record` and `PermittedSubclasses` facts where the release places them legally, the
/// constant-dynamic graph and the concat sites, and the output-level answer over them.
#[verifier::rlimit(100)]
pub fn modern_facts(bytes: &[u8], facts: &ClassFacts, level: OutputLevel, budget: &mut Budget) -> (r: Result<ModernFacts>)
    ensures
        r matches Err(e) ==> crate::budget::honest_refusal(e, old(budget).limits_of()),
        final(budget).limits_of() == old(budget).limits_of(),
        r matches Ok(m) ==> m.major_version == facts.major_version
            && graph_wf(m.condy.nodes@, m.condy.edges@, m.condy.use_sites@)
            && (forall|k: int| 0 <= k < m.concat@.len() ==> concat_site_ok(facts.constant_pool@, #[trigger] m.concat@[k]))
            && (m.record matches Some(rec) ==> rec.rule.since <= facts.major_version)
            && (m.permitted_subclasses matches Some(p) ==> p.rule.since <= facts.major_version)
            && record_of(bytes@, *facts, m.record) && permitted_of(bytes@, *facts, m.permitted_subclasses)
            && level_assessed(m, level, m.output_level)
            && concat_of(bytes@, *facts, m.concat@)
            && condy_read(bytes@, *facts, m.condy)
            && condy_stop_ok(m.condy.budget.stopped, old(budget).limits_of())
            && one_bootstrap_shell(*facts),
        r matches Err(e) ==> !graph_refusal(e),
        crate::cpool::facts_sorted(facts.constant_pool@) ==> (r matches Err(e) ==> is_stop(e) || e is BudgetExceeded
            || is_invalid(e, "classfile_size_overflow"@) || !modern_readable(bytes@, *facts)),
        r matches Err(e) ==> (!is_stop(e) && !(e is BudgetExceeded) && crate::cpool::facts_sorted(facts.constant_pool@)
            && modern_stops_at_repeat(bytes@, *facts) ==> is_invalid(e, "classfile_duplicate_attribute"@)),
{
    budget.poll()?;
    let major = facts.major_version;
    let ghost pool = facts.constant_pool@;
    let ghost sorted = crate::cpool::facts_sorted(pool);
    let ghost readable = modern_readable(bytes@, *facts);
    let mut attributes: Vec<ModernAttributePlacement> = Vec::new();
    let mut diagnostics: Vec<Diagnostic> = Vec::new();
    let mut seen: Vec<UniqueAttribute> = Vec::new();
    let mut record: Option<RecordFacts> = None;
    let mut permitted_subclasses: Option<PermittedSubclassesFacts> = None;
    let mut bootstrap_shell: Option<usize> = None;
    let mut i: usize = 0;
    while i < facts.attributes.len()
        invariant
            i <= facts.attributes@.len(),
            major == facts.major_version,
            pool == facts.constant_pool@,
            sorted == crate::cpool::facts_sorted(pool),
            readable == modern_readable(bytes@, *facts),
            budget.limits_of() == old(budget).limits_of(),
            record matches Some(rec) ==> rec.rule.since <= major,
            permitted_subclasses matches Some(p) ==> p.rule.since <= major,
            bootstrap_shell matches Some(b) ==> b < i && legal_shell(*facts, b as int, crate::names::bootstrap_methods_name()),
            bootstrap_shell is None ==> forall|j: int| 0 <= j < i ==> !legal_shell(*facts, j, crate::names::bootstrap_methods_name()),
            forall|k: UniqueAttribute| seen@.contains(k) ==> modern_kind(k),
            forall|k: UniqueAttribute| modern_kind(k) ==> (seen@.contains(k)
                <==> exists|j: int| 0 <= j < i && #[trigger] legal_shell(*facts, j, modern_name(k))),
            record is Some <==> seen@.contains(UniqueAttribute::Record),
            permitted_subclasses is Some <==> seen@.contains(UniqueAttribute::PermittedSubclasses),
            record matches Some(rec) ==> exists|j: int| 0 <= j < i
                && #[trigger] legal_shell(*facts, j, modern_name(UniqueAttribute::Record))
                && record_read(bytes@, facts.attributes@[j], pool, rec),
            permitted_subclasses matches Some(p) ==> exists|j: int| 0 <= j < i
                && #[trigger] legal_shell(*facts, j, modern_name(UniqueAttribute::PermittedSubclasses))
                && permitted_read(bytes@, facts.attributes@[j], pool, p),
            forall|j: int| 0 <= j < i ==> #[trigger] pass_shell_ok(bytes@, *facts, j),
            forall|j: int| 0 <= j < i ==> !#[trigger] modern_repeat_at(*facts, j),
        decreases facts.attributes@.len() - i,
    {
        budget.poll()?;
        let shell = &facts.attributes[i];
        let raw = shell.name.raw().0.as_slice();
        let placement = attribute_placement(raw, ClassfileLocation::ClassFile, major);
        let rule = match placement {
            AttributePlacement::Legal { rule } => Some(rule),
            AttributePlacement::VersionNotApplicable { .. } | AttributePlacement::LocationNotApplicable { .. } => {
                match attribute_diagnostic(raw, ClassfileLocation::ClassFile, major) {
                    Some(d) => diagnostics.push(d),
                    None => {},
                }
                None
            },
            _ => {
                proof {
                    assert(!legal_shell(*facts, i as int, crate::names::bootstrap_methods_name()));
                    assert forall|k: UniqueAttribute| modern_kind(k) implies (seen@.contains(k)
                        <==> exists|j: int| 0 <= j < i + 1 && #[trigger] legal_shell(*facts, j, modern_name(k))) by {
                        assert(!legal_shell(*facts, i as int, modern_name(k)));
                    }
                    assert(pass_shell_ok(bytes@, *facts, i as int));
                    assert(!modern_repeat_at(*facts, i as int));
                }
                i = i + 1;
                continue;
            },
        };
        assert(listed_shell(*facts, i as int));
        let name_index = match shell_name_index(bytes, shell) {
            Ok(v) => v,
            Err(e) => {
                proof {
                    assert(!modern_shell_ok(bytes@, *facts, i as int));
                    lemma_pass_stop(bytes@, *facts, i as int);
                }
                return Err(e);
            },
        };
        let mut read = false;
        let ghost seen0 = seen@;
        let ghost rec0 = record is Some;
        let ghost per0 = permitted_subclasses is Some;
        let ghost mut pushed: Option<UniqueAttribute> = None;
        let ghost legal = rule is Some;
        assert(forall|name: Seq<u8>| legal_shell(*facts, i as int, name) <==> (legal && raw@ == name));
        match rule {
            Some(rule) => {
                assert(rule.since <= major);
                if crate::names::is_record(raw) {
                    assert(legal_shell(*facts, i as int, modern_name(UniqueAttribute::Record)));
                    match ensure_unique(&mut seen, UniqueAttribute::Record) {
                        Ok(()) => {
                            proof {
                                pushed = Some(UniqueAttribute::Record);
                                assert(!seen0.contains(UniqueAttribute::Record));
                            }
                        },
                        Err(e) => {
                            proof {
                                assert(modern_kind(UniqueAttribute::Record));
                                assert(seen0.contains(UniqueAttribute::Record));
                                assert(exists|j: int| 0 <= j < i && #[trigger] legal_shell(*facts, j, modern_name(UniqueAttribute::Record)));
                                lemma_duplicate(bytes@, *facts, i as int, UniqueAttribute::Record);
                            }
                            return Err(e);
                        },
                    }
                    let rec = match read_record(bytes, shell, facts.constant_pool.as_slice(), rule, name_index, budget) {
                        Ok(x) => x,
                        Err(e) => {
                            proof {
                                assert(!is_stop(e) && !(e is BudgetExceeded) && sorted ==> !modern_shell_ok(bytes@, *facts, i as int));
                                if !is_stop(e) && !(e is BudgetExceeded) && sorted {
                                    assert(modern_kind(UniqueAttribute::Record));
                                    lemma_read_stop(bytes@, *facts, i as int, UniqueAttribute::Record);
                                }
                            }
                            return Err(e);
                        },
                    };
                    assert(record_readable(bytes@, facts.attributes@[i as int], pool));
                    record = Some(rec);
                    read = true;
                } else if crate::names::is_permitted_subclasses(raw) {
                    assert(legal_shell(*facts, i as int, modern_name(UniqueAttribute::PermittedSubclasses)));
                    match ensure_unique(&mut seen, UniqueAttribute::PermittedSubclasses) {
                        Ok(()) => {
                            proof {
                                pushed = Some(UniqueAttribute::PermittedSubclasses);
                                assert(!seen0.contains(UniqueAttribute::PermittedSubclasses));
                            }
                        },
                        Err(e) => {
                            proof {
                                assert(modern_kind(UniqueAttribute::PermittedSubclasses));
                                assert(seen0.contains(UniqueAttribute::PermittedSubclasses));
                                assert(exists|j: int| 0 <= j < i && #[trigger] legal_shell(*facts, j, modern_name(UniqueAttribute::PermittedSubclasses)));
                                lemma_duplicate(bytes@, *facts, i as int, UniqueAttribute::PermittedSubclasses);
                            }
                            return Err(e);
                        },
                    }
                    let content = match attribute_content(bytes, shell, budget) {
                        Ok(c) => c,
                        Err(e) => {
                            proof {
                                assert(!is_stop(e) && !(e is BudgetExceeded) ==> !modern_shell_ok(bytes@, *facts, i as int));
                                if !is_stop(e) && !(e is BudgetExceeded) {
                                    assert(modern_kind(UniqueAttribute::PermittedSubclasses));
                                    lemma_read_stop(bytes@, *facts, i as int, UniqueAttribute::PermittedSubclasses);
                                }
                            }
                            return Err(e);
                        },
                    };
                    let mut reader = AttributeReader::new(content);
                    let permitted = match read_class_name_list(&mut reader, facts.constant_pool.as_slice(), budget) {
                        Ok(v) => v,
                        Err(e) => {
                            proof {
                                assert(content@ == crate::attributes::content_of(bytes@, facts.attributes@[i as int]));
                                assert(!is_stop(e) && sorted ==> !modern_shell_ok(bytes@, *facts, i as int));
                                if !is_stop(e) && sorted {
                                    assert(modern_kind(UniqueAttribute::PermittedSubclasses));
                                    lemma_read_stop(bytes@, *facts, i as int, UniqueAttribute::PermittedSubclasses);
                                }
                            }
                            return Err(e);
                        },
                    };
                    assert(content@ == crate::attributes::content_of(bytes@, facts.attributes@[i as int]));
                    assert(crate::attributes::shell_matches_inside(bytes@, facts.attributes@[i as int])
                        && crate::attributes::class_run_ok(pool, crate::attributes::content_of(bytes@, facts.attributes@[i as int]), 0));
                    permitted_subclasses = Some(PermittedSubclassesFacts {
                        name_index,
                        span: span_copy(&shell.span),
                        content_span: span_copy(&shell.content_span),
                        permitted,
                        rule,
                    });
                    read = true;
                } else if crate::names::is_bootstrap_methods(raw) {
                    assert(legal_shell(*facts, i as int, modern_name(UniqueAttribute::BootstrapMethods)));
                    match ensure_unique(&mut seen, UniqueAttribute::BootstrapMethods) {
                        Ok(()) => {
                            proof {
                                pushed = Some(UniqueAttribute::BootstrapMethods);
                                assert(!seen0.contains(UniqueAttribute::BootstrapMethods));
                            }
                        },
                        Err(e) => {
                            proof {
                                assert(modern_kind(UniqueAttribute::BootstrapMethods));
                                assert(seen0.contains(UniqueAttribute::BootstrapMethods));
                                assert(exists|j: int| 0 <= j < i && #[trigger] legal_shell(*facts, j, modern_name(UniqueAttribute::BootstrapMethods)));
                                lemma_duplicate(bytes@, *facts, i as int, UniqueAttribute::BootstrapMethods);
                            }
                            return Err(e);
                        },
                    }
                    bootstrap_shell = Some(i);
                    read = true;
                }
            },
            None => {},
        }
        proof {
            assert(seen@ == match pushed { None => seen0, Some(k) => seen0.push(k) });
            assert(record is Some <==> (rec0 || pushed == Some(UniqueAttribute::Record)));
            assert(permitted_subclasses is Some <==> (per0 || pushed == Some(UniqueAttribute::PermittedSubclasses)));
            if pushed is Some {
                let k = pushed->Some_0;
                assert forall|q: UniqueAttribute| seen@.contains(q) <==> (seen0.contains(q) || q == k) by {
                    if seen@.contains(q) && q != k {
                        let x = choose|x: int| 0 <= x < seen@.len() && seen@[x] == q;
                        assert(seen0[x] == q);
                    }
                    if seen0.contains(q) {
                        let x = choose|x: int| 0 <= x < seen0.len() && seen0[x] == q;
                        assert(seen@[x] == q);
                    }
                    if q == k {
                        assert(seen@[seen@.len() - 1] == k);
                    }
                }
            }
            assert forall|k: UniqueAttribute| seen@.contains(k) implies modern_kind(k) by {
                if !seen0.contains(k) {
                    assert(seen@ == seen0.push(seen@.last()));
                    assert(seen@.last() == k);
                }
            }
            assert forall|k: UniqueAttribute| modern_kind(k) implies (seen@.contains(k)
                <==> exists|j: int| 0 <= j < i + 1 && #[trigger] legal_shell(*facts, j, modern_name(k))) by {
                if legal_shell(*facts, i as int, modern_name(k)) {
                    assert(seen@.contains(k)) by {
                        assert(seen@.last() == k);
                    }
                } else {
                    assert(seen@ == seen0 || (seen@ == seen0.push(seen@.last()) && seen@.last() != k));
                    if seen@.contains(k) && seen@ != seen0 {
                        let x = choose|x: int| 0 <= x < seen@.len() && seen@[x] == k;
                        assert(seen0[x] == k);
                    }
                    if seen0.contains(k) {
                        let x = choose|x: int| 0 <= x < seen0.len() && seen0[x] == k;
                        assert(seen@[x] == k);
                    }
                    if exists|j: int| 0 <= j < i + 1 && #[trigger] legal_shell(*facts, j, modern_name(k)) {
                        let j = choose|j: int| 0 <= j < i + 1 && #[trigger] legal_shell(*facts, j, modern_name(k));
                        assert(j < i);
                    }
                }
            }
        }
        proof {
            assert(pass_shell_ok(bytes@, *facts, i as int));
            assert(!modern_repeat_at(*facts, i as int)) by {
                if modern_repeat_at(*facts, i as int) {
                    let (j, q) = choose|j: int, q: UniqueAttribute| 0 <= j < i && modern_kind(q)
                        && #[trigger] legal_shell(*facts, j, modern_name(q)) && legal_shell(*facts, i as int, modern_name(q));
                    assert(seen0.contains(q));
                    assert(seen@.contains(q));
                    assert(pushed == Some(q));
                }
            }
        }
        budget.charge(CountedBudgetDimension::ResultItems, 1)?;
        attributes.push(ModernAttributePlacement {
            name: shell.name.raw().duplicate(),
            name_index,
            span: span_copy(&shell.span),
            content_span: span_copy(&shell.content_span),
            placement,
            read,
        });
        i = i + 1;
    }
    proof {
        lemma_no_repeat(bytes@, *facts);
        assert(one_bootstrap_shell(*facts)) by {
            assert forall|x: int, y: int| x < y && #[trigger] legal_shell(*facts, x, crate::names::bootstrap_methods_name())
                implies !#[trigger] legal_shell(*facts, y, crate::names::bootstrap_methods_name()) by {
                if legal_shell(*facts, y, crate::names::bootstrap_methods_name()) {
                    assert(modern_kind(UniqueAttribute::BootstrapMethods));
                    assert(legal_shell(*facts, x, modern_name(UniqueAttribute::BootstrapMethods)));
                    assert(modern_repeat_at(*facts, y));
                }
            }
        }
        assert(modern_kind(UniqueAttribute::Record));
        assert(modern_kind(UniqueAttribute::PermittedSubclasses));
        assert(record_of(bytes@, *facts, record));
        assert(permitted_of(bytes@, *facts, permitted_subclasses));
    }
    let bootstraps = match bootstrap_shell {
        Some(b) => match bootstrap_methods(bytes, &facts.attributes[b], facts.constant_pool.as_slice(), budget) {
            Ok(v) => {
                proof {
                    lemma_bootstraps_present(bytes@, facts.attributes@[b as int], pool, v@);
                }
                v
            },
            Err(e) => {
                proof {
                    assert(!is_stop(e) && !(e is BudgetExceeded) && sorted ==> !modern_shell_ok(bytes@, *facts, b as int));
                }
                return Err(e);
            },
        },
        None => Vec::new(),
    };
    assert(bootstraps_of(bytes@, *facts, bootstraps@)) by {
        if bootstrap_shell is Some {
            assert(legal_shell(*facts, bootstrap_shell->Some_0 as int, crate::names::bootstrap_methods_name()));
        }
    }
    assert(bootstraps_present(pool, bootstraps@) || (bootstrap_shell is Some
        && !crate::attributes::bootstrap_readable(bytes@, facts.attributes@[bootstrap_shell->Some_0 as int], pool)));
    if bootstraps.len() > u16::MAX as usize {
        return Err(size_overflow("bootstrap method count does not fit u16"));
    }
    let bootstrap_entries = bootstraps.len() as u16;
    let dynamic_tag = constant_pool_tag(TAG_DYNAMIC, major);
    let condy = match condy_graph(facts.constant_pool.as_slice(), bootstraps.as_slice(), bootstrap_entries,
        bootstrap_shell.is_some(), dynamic_tag, budget, &mut diagnostics) {
        Ok(g) => g,
        Err(e) => {
            proof {
                if readable && sorted && bootstrap_shell is Some {
                    assert(modern_shell_ok(bytes@, *facts, bootstrap_shell->Some_0 as int));
                }
            }
            return Err(e);
        },
    };
    let concat = match concat_sites(facts.constant_pool.as_slice(), bootstraps.as_slice(), major, budget, &mut diagnostics) {
        Ok(v) => v,
        Err(e) => {
            proof {
                if readable && sorted {
                    if bootstrap_shell is Some {
                        assert(modern_shell_ok(bytes@, *facts, bootstrap_shell->Some_0 as int));
                    }
                    lemma_no_refusal(pool, bootstraps@);
                }
            }
            return Err(e);
        },
    };
    assert(condy_read(bytes@, *facts, condy)) by {
        assert(bootstraps_of(bytes@, *facts, bootstraps@));
    }
    assert(concat_of(bytes@, *facts, concat@)) by {
        if invoke_dynamic_since(major) is Some && crate::cpool::facts_sorted(pool) {
            assert(bootstraps_of(bytes@, *facts, bootstraps@));
        }
    }
    let mut result = ModernFacts {
        major_version: major,
        attributes,
        record,
        permitted_subclasses,
        concat,
        condy,
        output_level: OutputLevelStatus::NotEvaluated,
        diagnostics,
    };
    let assessed = result.assess_output_level(level);
    let ghost before = result;
    result.output_level = assessed;
    proof {
        assert(result.record == before.record);
        assert(result.permitted_subclasses == before.permitted_subclasses);
        assert(result.concat@ == before.concat@);
        assert(conflict_count(result) == conflict_count(before));
        if conflict_count(before) > 0 {
            let cs = assessed->Conflict_conflicts@;
            assert(conflicts_of(before, level, cs));
            assert(conflict_head(result) == conflict_head(before));
            assert forall|k: int| 0 <= k < result.concat@.len() implies concat_conflict(#[trigger] cs[conflict_head(result) + k], level, result.concat@[k]) by {
                assert(concat_conflict(cs[conflict_head(before) + k], level, before.concat@[k]));
            }
            assert(conflicts_of(result, level, cs));
        }
        assert(level_assessed(result, level, assessed));
    }
    Ok(result)
}

/// A second legal shell of a kind already seen is a duplicate the read refuses.
proof fn lemma_duplicate(bytes: Seq<u8>, facts: ClassFacts, i: int, k: UniqueAttribute)
    requires
        modern_kind(k),
        legal_shell(facts, i, modern_name(k)),
        exists|j: int| 0 <= j < i && #[trigger] legal_shell(facts, j, modern_name(k)),
    ensures
        !modern_readable(bytes, facts),
{
    let j = choose|j: int| 0 <= j < i && #[trigger] legal_shell(facts, j, modern_name(k));
    assert(legal_shell(facts, j, modern_name(k)) && legal_shell(facts, i, modern_name(k)));
}

} // verus!
