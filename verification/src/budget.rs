//! The budget that bounds one request: counted dimensions with their limits, high-water depth
//! dimensions, the request's cancellation token and its wall clock.

use crate::error::{Error, Result, is_budget, is_stop};
use vstd::prelude::*;

verus! {

/// Every dimension a request is bounded in.
#[derive(Clone, Copy, Debug, PartialEq, Eq, Hash, Structural)]
pub enum BudgetDimension {
    InputBytes,
    ArchiveEntries,
    EntryBytes,
    ReadBytes,
    ClassBytes,
    AttributeBytes,
    CodeBytes,
    ResultItems,
    OutputBytes,
    ClassHeaders,
    MethodBodies,
    IrItems,
    IrEdges,
    AnalysisSteps,
    NormalizationClones,
    NestedDepth,
    DependencyDepth,
    ElapsedMillis,
}

/// The dimensions whose usage is a running sum of charges.
#[derive(Clone, Copy, Debug, PartialEq, Eq, Hash)]
pub enum CountedBudgetDimension {
    InputBytes,
    ArchiveEntries,
    EntryBytes,
    ReadBytes,
    ClassBytes,
    AttributeBytes,
    CodeBytes,
    ResultItems,
    OutputBytes,
    ClassHeaders,
    MethodBodies,
    IrItems,
    IrEdges,
    AnalysisSteps,
    NormalizationClones,
}

impl CountedBudgetDimension {
    /// The dimension this counted dimension is, in the full vocabulary.
    pub open spec fn dim(self) -> BudgetDimension {
        match self {
            CountedBudgetDimension::InputBytes => BudgetDimension::InputBytes,
            CountedBudgetDimension::ArchiveEntries => BudgetDimension::ArchiveEntries,
            CountedBudgetDimension::EntryBytes => BudgetDimension::EntryBytes,
            CountedBudgetDimension::ReadBytes => BudgetDimension::ReadBytes,
            CountedBudgetDimension::ClassBytes => BudgetDimension::ClassBytes,
            CountedBudgetDimension::AttributeBytes => BudgetDimension::AttributeBytes,
            CountedBudgetDimension::CodeBytes => BudgetDimension::CodeBytes,
            CountedBudgetDimension::ResultItems => BudgetDimension::ResultItems,
            CountedBudgetDimension::OutputBytes => BudgetDimension::OutputBytes,
            CountedBudgetDimension::ClassHeaders => BudgetDimension::ClassHeaders,
            CountedBudgetDimension::MethodBodies => BudgetDimension::MethodBodies,
            CountedBudgetDimension::IrItems => BudgetDimension::IrItems,
            CountedBudgetDimension::IrEdges => BudgetDimension::IrEdges,
            CountedBudgetDimension::AnalysisSteps => BudgetDimension::AnalysisSteps,
            CountedBudgetDimension::NormalizationClones => BudgetDimension::NormalizationClones,
        }
    }

    pub fn dimension(self) -> (d: BudgetDimension)
        ensures
            d == self.dim(),
    {
        match self {
            CountedBudgetDimension::InputBytes => BudgetDimension::InputBytes,
            CountedBudgetDimension::ArchiveEntries => BudgetDimension::ArchiveEntries,
            CountedBudgetDimension::EntryBytes => BudgetDimension::EntryBytes,
            CountedBudgetDimension::ReadBytes => BudgetDimension::ReadBytes,
            CountedBudgetDimension::ClassBytes => BudgetDimension::ClassBytes,
            CountedBudgetDimension::AttributeBytes => BudgetDimension::AttributeBytes,
            CountedBudgetDimension::CodeBytes => BudgetDimension::CodeBytes,
            CountedBudgetDimension::ResultItems => BudgetDimension::ResultItems,
            CountedBudgetDimension::OutputBytes => BudgetDimension::OutputBytes,
            CountedBudgetDimension::ClassHeaders => BudgetDimension::ClassHeaders,
            CountedBudgetDimension::MethodBodies => BudgetDimension::MethodBodies,
            CountedBudgetDimension::IrItems => BudgetDimension::IrItems,
            CountedBudgetDimension::IrEdges => BudgetDimension::IrEdges,
            CountedBudgetDimension::AnalysisSteps => BudgetDimension::AnalysisSteps,
            CountedBudgetDimension::NormalizationClones => BudgetDimension::NormalizationClones,
        }
    }
}

/// The limits of one request, one per dimension.
#[derive(Clone, Copy, Debug, PartialEq, Eq)]
pub struct Limits {
    pub input_bytes: u64,
    pub archive_entries: u64,
    pub entry_bytes: u64,
    pub read_bytes: u64,
    pub class_bytes: u64,
    pub attribute_bytes: u64,
    pub code_bytes: u64,
    pub result_items: u64,
    pub output_bytes: u64,
    pub class_headers: u64,
    pub method_bodies: u64,
    pub ir_items: u64,
    pub ir_edges: u64,
    pub analysis_steps: u64,
    pub normalization_clones: u64,
    pub nested_depth: u64,
    pub dependency_depth: u64,
    pub elapsed_millis: u64,
}

impl Limits {
    /// The limit of one dimension.
    #[verifier::opaque]
    pub open spec fn limit_of(self, d: BudgetDimension) -> u64 {
        match d {
            BudgetDimension::InputBytes => self.input_bytes,
            BudgetDimension::ArchiveEntries => self.archive_entries,
            BudgetDimension::EntryBytes => self.entry_bytes,
            BudgetDimension::ReadBytes => self.read_bytes,
            BudgetDimension::ClassBytes => self.class_bytes,
            BudgetDimension::AttributeBytes => self.attribute_bytes,
            BudgetDimension::CodeBytes => self.code_bytes,
            BudgetDimension::ResultItems => self.result_items,
            BudgetDimension::OutputBytes => self.output_bytes,
            BudgetDimension::ClassHeaders => self.class_headers,
            BudgetDimension::MethodBodies => self.method_bodies,
            BudgetDimension::IrItems => self.ir_items,
            BudgetDimension::IrEdges => self.ir_edges,
            BudgetDimension::AnalysisSteps => self.analysis_steps,
            BudgetDimension::NormalizationClones => self.normalization_clones,
            BudgetDimension::NestedDepth => self.nested_depth,
            BudgetDimension::DependencyDepth => self.dependency_depth,
            BudgetDimension::ElapsedMillis => self.elapsed_millis,
        }
    }
}

/// A refusal the request's own accounting explains: its deadline, or a limit of `limits` that
/// what was consumed and what was requested exceed together.
pub open spec fn honest_refusal(e: Error, limits: Limits) -> bool {
    e matches Error::BudgetExceeded { dimension, limit, consumed, requested } ==>
        dimension == BudgetDimension::ElapsedMillis || (limit == limits.limit_of(dimension) && consumed + requested > limit)
}

/// An error that is no budget refusal is explained by any limits.
pub proof fn lemma_honest_other(e: Error, limits: Limits)
    requires
        !(e is BudgetExceeded),
    ensures
        honest_refusal(e, limits),
{
}

/// A deadline refusal is explained by any limits.
pub proof fn lemma_honest_deadline(e: Error, limits: Limits)
    requires
        is_budget(e, BudgetDimension::ElapsedMillis),
    ensures
        honest_refusal(e, limits),
{
}

/// A counted refusal whose figures exceed the limit of its dimension is explained by the limits.
pub proof fn lemma_honest_counted(e: Error, limits: Limits, d: CountedBudgetDimension, consumed: u64, requested: u64)
    requires
        counted_refusal(e, d, limits.counted(d), consumed, requested),
        consumed + requested > limits.counted(d),
    ensures
        honest_refusal(e, limits),
{
    reveal(Limits::limit_of);
}

/// A depth refusal whose depth exceeds the limit of its dimension is explained by the limits.
pub proof fn lemma_honest_depth(e: Error, limits: Limits, d: BudgetDimension, limit: u64, depth: u64)
    requires
        d == BudgetDimension::NestedDepth || d == BudgetDimension::DependencyDepth,
        limit == (if d == BudgetDimension::NestedDepth { limits.nested_depth } else { limits.dependency_depth }),
        depth > limit,
        e == (Error::BudgetExceeded { dimension: d, limit, consumed: if depth > 0 { (depth - 1) as u64 } else { 0 }, requested: 1 }),
    ensures
        honest_refusal(e, limits),
{
    reveal(Limits::limit_of);
}

/// The refusal of a request for `requested` units of `d` when `consumed` were already taken.
pub open spec fn counted_refusal(e: Error, d: CountedBudgetDimension, limit: u64, consumed: u64, requested: u64) -> bool {
    e == (Error::BudgetExceeded { dimension: d.dim(), limit, consumed, requested })
}

/// What one request consumed, one figure per dimension.
#[derive(Clone, Copy, Debug, PartialEq, Eq)]
pub struct UsageSnapshot {
    pub input_bytes: u64,
    pub archive_entries: u64,
    pub entry_bytes: u64,
    pub read_bytes: u64,
    pub class_bytes: u64,
    pub attribute_bytes: u64,
    pub code_bytes: u64,
    pub result_items: u64,
    pub output_bytes: u64,
    pub class_headers: u64,
    pub method_bodies: u64,
    pub ir_items: u64,
    pub ir_edges: u64,
    pub analysis_steps: u64,
    pub normalization_clones: u64,
    pub nested_depth: u64,
    pub dependency_depth: u64,
    pub elapsed_millis: u64,
}

impl Limits {
    /// The limit of one counted dimension.
    pub open spec fn counted(&self, d: CountedBudgetDimension) -> u64 {
        match d {
            CountedBudgetDimension::InputBytes => self.input_bytes,
            CountedBudgetDimension::ArchiveEntries => self.archive_entries,
            CountedBudgetDimension::EntryBytes => self.entry_bytes,
            CountedBudgetDimension::ReadBytes => self.read_bytes,
            CountedBudgetDimension::ClassBytes => self.class_bytes,
            CountedBudgetDimension::AttributeBytes => self.attribute_bytes,
            CountedBudgetDimension::CodeBytes => self.code_bytes,
            CountedBudgetDimension::ResultItems => self.result_items,
            CountedBudgetDimension::OutputBytes => self.output_bytes,
            CountedBudgetDimension::ClassHeaders => self.class_headers,
            CountedBudgetDimension::MethodBodies => self.method_bodies,
            CountedBudgetDimension::IrItems => self.ir_items,
            CountedBudgetDimension::IrEdges => self.ir_edges,
            CountedBudgetDimension::AnalysisSteps => self.analysis_steps,
            CountedBudgetDimension::NormalizationClones => self.normalization_clones,
        }
    }

    pub fn counted_limit(&self, d: CountedBudgetDimension) -> (v: u64)
        ensures
            v == self.counted(d),
    {
        match d {
            CountedBudgetDimension::InputBytes => self.input_bytes,
            CountedBudgetDimension::ArchiveEntries => self.archive_entries,
            CountedBudgetDimension::EntryBytes => self.entry_bytes,
            CountedBudgetDimension::ReadBytes => self.read_bytes,
            CountedBudgetDimension::ClassBytes => self.class_bytes,
            CountedBudgetDimension::AttributeBytes => self.attribute_bytes,
            CountedBudgetDimension::CodeBytes => self.code_bytes,
            CountedBudgetDimension::ResultItems => self.result_items,
            CountedBudgetDimension::OutputBytes => self.output_bytes,
            CountedBudgetDimension::ClassHeaders => self.class_headers,
            CountedBudgetDimension::MethodBodies => self.method_bodies,
            CountedBudgetDimension::IrItems => self.ir_items,
            CountedBudgetDimension::IrEdges => self.ir_edges,
            CountedBudgetDimension::AnalysisSteps => self.analysis_steps,
            CountedBudgetDimension::NormalizationClones => self.normalization_clones,
        }
    }
}

impl UsageSnapshot {
    /// Nothing consumed.
    pub open spec fn spec_zero() -> UsageSnapshot {
        UsageSnapshot {
            input_bytes: 0,
            archive_entries: 0,
            entry_bytes: 0,
            read_bytes: 0,
            class_bytes: 0,
            attribute_bytes: 0,
            code_bytes: 0,
            result_items: 0,
            output_bytes: 0,
            class_headers: 0,
            method_bodies: 0,
            ir_items: 0,
            ir_edges: 0,
            analysis_steps: 0,
            normalization_clones: 0,
            nested_depth: 0,
            dependency_depth: 0,
            elapsed_millis: 0,
        }
    }

    pub fn zero() -> (u: UsageSnapshot)
        ensures
            u == UsageSnapshot::spec_zero(),
    {
        UsageSnapshot {
            input_bytes: 0,
            archive_entries: 0,
            entry_bytes: 0,
            read_bytes: 0,
            class_bytes: 0,
            attribute_bytes: 0,
            code_bytes: 0,
            result_items: 0,
            output_bytes: 0,
            class_headers: 0,
            method_bodies: 0,
            ir_items: 0,
            ir_edges: 0,
            analysis_steps: 0,
            normalization_clones: 0,
            nested_depth: 0,
            dependency_depth: 0,
            elapsed_millis: 0,
        }
    }

    /// The usage of one counted dimension.
    pub open spec fn counted(&self, d: CountedBudgetDimension) -> u64 {
        match d {
            CountedBudgetDimension::InputBytes => self.input_bytes,
            CountedBudgetDimension::ArchiveEntries => self.archive_entries,
            CountedBudgetDimension::EntryBytes => self.entry_bytes,
            CountedBudgetDimension::ReadBytes => self.read_bytes,
            CountedBudgetDimension::ClassBytes => self.class_bytes,
            CountedBudgetDimension::AttributeBytes => self.attribute_bytes,
            CountedBudgetDimension::CodeBytes => self.code_bytes,
            CountedBudgetDimension::ResultItems => self.result_items,
            CountedBudgetDimension::OutputBytes => self.output_bytes,
            CountedBudgetDimension::ClassHeaders => self.class_headers,
            CountedBudgetDimension::MethodBodies => self.method_bodies,
            CountedBudgetDimension::IrItems => self.ir_items,
            CountedBudgetDimension::IrEdges => self.ir_edges,
            CountedBudgetDimension::AnalysisSteps => self.analysis_steps,
            CountedBudgetDimension::NormalizationClones => self.normalization_clones,
        }
    }

    /// This usage with one counted dimension replaced by `v`.
    pub open spec fn with_counted(self, d: CountedBudgetDimension, v: u64) -> UsageSnapshot {
        match d {
            CountedBudgetDimension::InputBytes => UsageSnapshot { input_bytes: v, ..self },
            CountedBudgetDimension::ArchiveEntries => UsageSnapshot { archive_entries: v, ..self },
            CountedBudgetDimension::EntryBytes => UsageSnapshot { entry_bytes: v, ..self },
            CountedBudgetDimension::ReadBytes => UsageSnapshot { read_bytes: v, ..self },
            CountedBudgetDimension::ClassBytes => UsageSnapshot { class_bytes: v, ..self },
            CountedBudgetDimension::AttributeBytes => UsageSnapshot { attribute_bytes: v, ..self },
            CountedBudgetDimension::CodeBytes => UsageSnapshot { code_bytes: v, ..self },
            CountedBudgetDimension::ResultItems => UsageSnapshot { result_items: v, ..self },
            CountedBudgetDimension::OutputBytes => UsageSnapshot { output_bytes: v, ..self },
            CountedBudgetDimension::ClassHeaders => UsageSnapshot { class_headers: v, ..self },
            CountedBudgetDimension::MethodBodies => UsageSnapshot { method_bodies: v, ..self },
            CountedBudgetDimension::IrItems => UsageSnapshot { ir_items: v, ..self },
            CountedBudgetDimension::IrEdges => UsageSnapshot { ir_edges: v, ..self },
            CountedBudgetDimension::AnalysisSteps => UsageSnapshot { analysis_steps: v, ..self },
            CountedBudgetDimension::NormalizationClones => UsageSnapshot {
                normalization_clones: v,
                ..self
            },
        }
    }

    pub fn counted_usage(&self, d: CountedBudgetDimension) -> (v: u64)
        ensures
            v == self.counted(d),
    {
        match d {
            CountedBudgetDimension::InputBytes => self.input_bytes,
            CountedBudgetDimension::ArchiveEntries => self.archive_entries,
            CountedBudgetDimension::EntryBytes => self.entry_bytes,
            CountedBudgetDimension::ReadBytes => self.read_bytes,
            CountedBudgetDimension::ClassBytes => self.class_bytes,
            CountedBudgetDimension::AttributeBytes => self.attribute_bytes,
            CountedBudgetDimension::CodeBytes => self.code_bytes,
            CountedBudgetDimension::ResultItems => self.result_items,
            CountedBudgetDimension::OutputBytes => self.output_bytes,
            CountedBudgetDimension::ClassHeaders => self.class_headers,
            CountedBudgetDimension::MethodBodies => self.method_bodies,
            CountedBudgetDimension::IrItems => self.ir_items,
            CountedBudgetDimension::IrEdges => self.ir_edges,
            CountedBudgetDimension::AnalysisSteps => self.analysis_steps,
            CountedBudgetDimension::NormalizationClones => self.normalization_clones,
        }
    }

    /// Replaces the usage of one counted dimension.
    pub fn set(&mut self, d: CountedBudgetDimension, v: u64)
        ensures
            *final(self) == old(self).with_counted(d, v),
    {
        match d {
            CountedBudgetDimension::InputBytes => self.input_bytes = v,
            CountedBudgetDimension::ArchiveEntries => self.archive_entries = v,
            CountedBudgetDimension::EntryBytes => self.entry_bytes = v,
            CountedBudgetDimension::ReadBytes => self.read_bytes = v,
            CountedBudgetDimension::ClassBytes => self.class_bytes = v,
            CountedBudgetDimension::AttributeBytes => self.attribute_bytes = v,
            CountedBudgetDimension::CodeBytes => self.code_bytes = v,
            CountedBudgetDimension::ResultItems => self.result_items = v,
            CountedBudgetDimension::OutputBytes => self.output_bytes = v,
            CountedBudgetDimension::ClassHeaders => self.class_headers = v,
            CountedBudgetDimension::MethodBodies => self.method_bodies = v,
            CountedBudgetDimension::IrItems => self.ir_items = v,
            CountedBudgetDimension::IrEdges => self.ir_edges = v,
            CountedBudgetDimension::AnalysisSteps => self.analysis_steps = v,
            CountedBudgetDimension::NormalizationClones => self.normalization_clones = v,
        }
    }
}

/// Replacing one counted dimension leaves every other dimension, and both depths, as they were.
pub proof fn lemma_with_counted(u: UsageSnapshot, d: CountedBudgetDimension, v: u64, x: CountedBudgetDimension)
    ensures
        u.with_counted(d, v).counted(x) == if x == d { v } else { u.counted(x) },
        u.with_counted(d, v).nested_depth == u.nested_depth,
        u.with_counted(d, v).dependency_depth == u.dependency_depth,
{
}

/// `after` took at least what `before` took in every counted dimension: no read gives budget back.
pub open spec fn spent(before: UsageSnapshot, after: UsageSnapshot) -> bool {
    forall|d: CountedBudgetDimension| #[trigger] before.counted(d) <= after.counted(d)
}

/// Changing a depth leaves every counted dimension as it was.
pub proof fn lemma_depths_apart(u: UsageSnapshot, nested: u64, dependency: u64, x: CountedBudgetDimension)
    ensures
        (UsageSnapshot { nested_depth: nested, dependency_depth: dependency, ..u }).counted(x) == u.counted(x),
{
}

impl Default for UsageSnapshot {
    fn default() -> (u: UsageSnapshot)
        ensures
            u == UsageSnapshot::spec_zero(),
    {
        UsageSnapshot::zero()
    }
}

} // verus!

use crate::cancel::{CancellationToken, instant_now, millis_since};
use std::time::Instant;

verus! {

/// The budget of one request: its limits, what it consumed so far, its cancellation token and
/// the instant its clock started.
#[derive(Debug)]
pub struct Budget {
    limits: Limits,
    usage: UsageSnapshot,
    started_at: Instant,
    cancellation: CancellationToken,
}

impl Budget {
    /// The request's limits.
    pub closed spec fn limits_of(&self) -> Limits {
        self.limits
    }

    /// The request's usage so far.
    pub closed spec fn usage_of(&self) -> UsageSnapshot {
        self.usage
    }

    /// A budget under `limits` with nothing consumed and its own token.
    pub fn new(limits: Limits) -> (b: Budget)
        ensures
            b.limits_of() == limits,
            b.usage_of() == UsageSnapshot::spec_zero(),
    {
        Budget::with_cancellation_token(limits, CancellationToken::new())
    }

    /// A budget under `limits` that observes `token`.
    pub fn with_cancellation_token(limits: Limits, token: CancellationToken) -> (b: Budget)
        ensures
            b.limits_of() == limits,
            b.usage_of() == UsageSnapshot::spec_zero(),
    {
        Budget { limits, usage: UsageSnapshot::zero(), started_at: instant_now(), cancellation: token }
    }

    pub fn limits(&self) -> (l: &Limits)
        ensures
            *l == self.limits_of(),
    {
        &self.limits
    }

    /// What this budget consumed, with the elapsed clock read now.
    pub fn usage(&self) -> (u: UsageSnapshot)
        ensures
            u == (UsageSnapshot { elapsed_millis: u.elapsed_millis, ..self.usage_of() }),
    {
        let mut usage = self.usage;
        usage.elapsed_millis = millis_since(&self.started_at);
        usage
    }

    /// The instant the request's clock started.
    pub closed spec fn started_of(&self) -> Instant {
        self.started_at
    }

    /// The cancellation token the request observes.
    pub closed spec fn cancellation_of(&self) -> CancellationToken {
        self.cancellation
    }

    /// The instant this budget's clock started.
    pub fn started_at(&self) -> (i: &Instant)
        ensures
            *i == self.started_of(),
    {
        &self.started_at
    }

    /// Another handle on this budget's cancellation token.
    pub fn cancellation_token(&self) -> (t: CancellationToken)
        ensures
            t == self.cancellation_of(),
    {
        self.cancellation.share()
    }

    /// The request's checkpoint: cancellation first, then the deadline. Nothing is consumed.
    /// Whether another holder cancelled, and what the clock reads, are outside the request, so
    /// only the shape of a refusal is stated, and that a zero deadline always refuses.
    pub fn poll(&self) -> (r: Result<()>)
        ensures
            r matches Err(e) ==> is_stop(e),
            r matches Err(e) ==> honest_refusal(e, self.limits_of()),
            r matches Err(e) ==> (e matches Error::Cancelled { reason } && reason@ == "cooperative cancellation requested"@)
                || (e matches Error::BudgetExceeded { dimension, limit, consumed, requested }
                    && dimension == BudgetDimension::ElapsedMillis && limit == self.limits_of().elapsed_millis
                    && consumed >= limit && requested == 0),
            self.limits_of().elapsed_millis == 0 ==> r is Err,
    {
        if self.cancellation.is_cancelled() {
            return Err(Error::cancelled());
        }
        let elapsed = millis_since(&self.started_at);
        if elapsed >= self.limits.elapsed_millis {
            return Err(Error::BudgetExceeded {
                dimension: BudgetDimension::ElapsedMillis,
                limit: self.limits.elapsed_millis,
                consumed: elapsed,
                requested: 0,
            });
        }
        Ok(())
    }

    /// Whether `requested` more units of `d` would fit, without taking them.
    pub fn check(&self, d: CountedBudgetDimension, requested: u64) -> (r: Result<()>)
        ensures
            r is Ok ==> self.usage_of().counted(d) + requested <= self.limits_of().counted(d),
            r matches Err(e) ==> is_stop(e) || (is_budget(e, d.dim())
                && self.usage_of().counted(d) + requested > self.limits_of().counted(d)),
            self.usage_of().counted(d) + requested > self.limits_of().counted(d) ==> r is Err,
            r matches Err(e) ==> honest_refusal(e, self.limits_of()),
            r matches Err(e) ==> is_stop(e) || counted_refusal(e, d, self.limits_of().counted(d), self.usage_of().counted(d), requested),
    {
        self.poll()?;
        let limit = self.limits.counted_limit(d);
        let consumed = self.usage.counted_usage(d);
        if requested > limit || consumed > limit - requested {
            let e = Error::BudgetExceeded { dimension: d.dimension(), limit, consumed, requested };
            proof {
                lemma_honest_counted(e, self.limits_of(), d, consumed, requested);
            }
            return Err(e);
        }
        Ok(())
    }

    /// Takes `requested` units of `d`, or refuses without taking any.
    pub fn charge(&mut self, d: CountedBudgetDimension, requested: u64) -> (r: Result<()>)
        ensures
            final(self).limits_of() == old(self).limits_of(),
            r is Ok ==> old(self).usage_of().counted(d) + requested <= old(self).limits_of().counted(d)
                && final(self).usage_of() == old(self).usage_of().with_counted(
                d,
                (old(self).usage_of().counted(d) + requested) as u64,
            ),
            r is Err ==> final(self).usage_of() == old(self).usage_of(),
            r matches Err(e) ==> is_stop(e) || (is_budget(e, d.dim())
                && old(self).usage_of().counted(d) + requested > old(self).limits_of().counted(d)),
            old(self).usage_of().counted(d) + requested > old(self).limits_of().counted(d) ==> r is Err,
            spent(old(self).usage_of(), final(self).usage_of()),
            r matches Err(e) ==> honest_refusal(e, old(self).limits_of()),
            r matches Err(e) ==> is_stop(e) || counted_refusal(e, d, old(self).limits_of().counted(d),
                old(self).usage_of().counted(d), requested),
    {
        self.check(d, requested)?;
        let consumed = self.usage.counted_usage(d);
        let ghost before = self.usage;
        self.usage.set(d, consumed + requested);
        proof {
            assert forall|x: CountedBudgetDimension| #[trigger] before.counted(x) <= self.usage.counted(x) by {
                lemma_with_counted(before, d, (consumed + requested) as u64, x);
            }
        }
        Ok(())
    }

    /// Accepts a container nesting depth, keeping the deepest one accepted; a depth above the
    /// limit is refused.
    pub fn check_nested_depth(&mut self, depth: u64) -> (r: Result<()>)
        ensures
            final(self).limits_of() == old(self).limits_of(),
            r is Ok ==> depth <= old(self).limits_of().nested_depth && final(self).usage_of() == (
            UsageSnapshot {
                nested_depth: if depth > old(self).usage_of().nested_depth {
                    depth
                } else {
                    old(self).usage_of().nested_depth
                },
                ..old(self).usage_of()
            }),
            r is Err ==> final(self).usage_of() == old(self).usage_of(),
            r matches Err(e) ==> honest_refusal(e, old(self).limits_of()),
            r matches Err(e) ==> is_stop(e) || (is_budget(e, BudgetDimension::NestedDepth) && depth
                > old(self).limits_of().nested_depth),
            depth > old(self).limits_of().nested_depth ==> r is Err,
            spent(old(self).usage_of(), final(self).usage_of()),
    {
        self.poll()?;
        let limit = self.limits.nested_depth;
        if depth > limit {
            let e = Error::BudgetExceeded {
                dimension: BudgetDimension::NestedDepth,
                limit,
                consumed: if depth > 0 { depth - 1 } else { 0 },
                requested: 1,
            };
            proof {
                lemma_honest_depth(e, self.limits_of(), BudgetDimension::NestedDepth, limit, depth);
            }
            return Err(e);
        }
        if depth > self.usage.nested_depth {
            self.usage.nested_depth = depth;
        }
        Ok(())
    }

    /// Accepts a dependency depth, keeping the deepest one accepted; a depth above the limit is
    /// refused.
    pub fn observe_dependency_depth(&mut self, depth: u64) -> (r: Result<()>)
        ensures
            final(self).limits_of() == old(self).limits_of(),
            r is Ok ==> depth <= old(self).limits_of().dependency_depth && final(self).usage_of() == (
            UsageSnapshot {
                dependency_depth: if depth > old(self).usage_of().dependency_depth {
                    depth
                } else {
                    old(self).usage_of().dependency_depth
                },
                ..old(self).usage_of()
            }),
            r is Err ==> final(self).usage_of() == old(self).usage_of(),
            r matches Err(e) ==> honest_refusal(e, old(self).limits_of()),
            r matches Err(e) ==> is_stop(e) || (is_budget(e, BudgetDimension::DependencyDepth)
                && depth > old(self).limits_of().dependency_depth),
            depth > old(self).limits_of().dependency_depth ==> r is Err,
    {
        self.poll()?;
        let limit = self.limits.dependency_depth;
        if depth > limit {
            let e = Error::BudgetExceeded {
                dimension: BudgetDimension::DependencyDepth,
                limit,
                consumed: if depth > 0 { depth - 1 } else { 0 },
                requested: 1,
            };
            proof {
                lemma_honest_depth(e, self.limits_of(), BudgetDimension::DependencyDepth, limit, depth);
            }
            return Err(e);
        }
        if depth > self.usage.dependency_depth {
            self.usage.dependency_depth = depth;
        }
        Ok(())
    }
}


} // verus!
