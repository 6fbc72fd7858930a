//! One operation's total: the shared ledger every worker of a bulk operation bills its work to.
//!
//! The total is the entry usage plus what each of the three owners was charged, for every
//! counted dimension; the depth dimensions keep the deepest accepted value. The first stop the
//! operation observes is recorded once and never replaced.

use crate::budget::{Budget, BudgetDimension, CountedBudgetDimension, Limits, UsageSnapshot, lemma_depths_apart, lemma_with_counted};
use crate::cancel::{CancellationToken, millis_since};
use crate::error::{Error, Result, is_budget, is_stop};
use crate::model::TerminationReason;
use std::sync::Arc;
use std::time::Instant;
use vstd::prelude::*;
use vstd::rwlock::{RwLock, RwLockPredicate};

verus! {


/// Which part of one operation a charge belongs to.
#[derive(Clone, Copy, Debug, Eq, PartialEq, Ord, PartialOrd, Hash)]
pub enum UsageOwner {
    /// Walking the physical scope, reading containers and preparing classes.
    Discovery,
    /// Executing method recovery.
    Methods,
    /// Encoding and handing a finished result to the consumer.
    Delivery,
}

impl UsageOwner {
    /// Every owner, in declaration order.
    pub const ALL: [UsageOwner; 3] = [UsageOwner::Discovery, UsageOwner::Methods, UsageOwner::Delivery];

    pub open spec fn slot(self) -> int {
        match self {
            UsageOwner::Discovery => 0,
            UsageOwner::Methods => 1,
            UsageOwner::Delivery => 2,
        }
    }

    /// The position of one owner in [`Self::ALL`], which is also its slot in the ledger.
    pub fn index(self) -> (i: usize)
        ensures
            i == self.slot(),
    {
        match self {
            UsageOwner::Discovery => 0,
            UsageOwner::Methods => 1,
            UsageOwner::Delivery => 2,
        }
    }
}

/// Why an operation stopped.
#[derive(Clone, Copy, Debug, Eq, PartialEq, Hash)]
pub enum BulkStopKind {
    /// The operation's total quota ran out, or its deadline expired.
    Budget,
    /// Cooperative cancellation.
    Cancelled,
    /// The consumer stopped accepting records.
    Sink,
    /// Infrastructure the operation cannot continue past.
    Infrastructure,
}

/// The first stop an operation observed: what happened, and where it was seen.
#[derive(Clone, Copy, Debug, Eq, PartialEq, Hash)]
pub struct BulkStop {
    pub owner: Option<UsageOwner>,
    pub kind: BulkStopKind,
    pub dimension: Option<BudgetDimension>,
}

impl BulkStop {
    /// The stop as a termination reason: only a budget stop that names its dimension is one.
    pub fn termination(&self) -> (r: Option<TerminationReason>)
        ensures
            (self.kind is Budget && self.dimension is Some) <==> r is Some,
            r matches Some(t) ==> t == (TerminationReason::BudgetExceeded { dimension: self.dimension->0 }),
    {
        match self.kind {
            BulkStopKind::Budget => match self.dimension {
                Some(dimension) => Some(TerminationReason::BudgetExceeded { dimension }),
                None => None,
            },
            _ => None,
        }
    }
}

/// Everything the operation's total is made of.
pub struct LedgerState {
    pub limits: Limits,
    pub started_at: Instant,
    pub cancellation: CancellationToken,
    pub entry: UsageSnapshot,
    pub total: UsageSnapshot,
    pub owners: [UsageSnapshot; 3],
    pub stop: Option<BulkStop>,
}

/// A stop as the ledger records one: one attributed to an owner is that owner's budget
/// refusal, and one that names a dimension is a budget stop.
pub open spec fn stop_valid(b: BulkStop) -> bool {
    &&& (b.owner is Some ==> b.kind is Budget && b.dimension is Some)
    &&& (b.dimension is Some ==> b.kind is Budget)
}

/// The higher of two depths.
pub open spec fn deeper(a: u64, b: u64) -> u64 {
    if a >= b { a } else { b }
}

/// `e` refuses `requested` more units of `d` under `limits`, on top of a consumption no lower
/// than the entry usage `entry`.
pub open spec fn ledger_refusal(e: Error, d: CountedBudgetDimension, limits: Limits, entry: UsageSnapshot, requested: u64) -> bool {
    e matches Error::BudgetExceeded { dimension, limit, consumed, requested: q } && dimension == d.dim()
        && limit == limits.counted(d) && q == requested && consumed >= entry.counted(d) && consumed + q > limit
}

/// `e` refuses a container depth `depth` above the limit `limit`.
pub open spec fn depth_refused(e: Error, dimension: BudgetDimension, limit: u64, depth: u64) -> bool {
    e == (Error::BudgetExceeded { dimension, limit, consumed: if depth > 0 { (depth - 1) as u64 } else { 0 }, requested: 1 })
}

impl LedgerState {
    /// The accounting identity: every counted total is the entry usage plus the three owners'
    /// shares, and every depth total is at least the entry's and each owner's.
    pub open spec fn wf(&self) -> bool {
        &&& forall|d: CountedBudgetDimension| #[trigger] self.total.counted(d) == self.entry.counted(d)
            + self.owners[0].counted(d) + self.owners[1].counted(d) + self.owners[2].counted(d)
        &&& forall|i: int| 0 <= i < 3 ==> self.total.nested_depth >= (#[trigger] self.owners[i]).nested_depth
            && self.total.dependency_depth >= self.owners[i].dependency_depth
        &&& self.total.nested_depth >= self.entry.nested_depth
        &&& self.total.dependency_depth >= self.entry.dependency_depth
        &&& self.entry.elapsed_millis == 0
        &&& forall|d: CountedBudgetDimension| #[trigger] self.total.counted(d) <= deeper(self.entry.counted(d), self.limits.counted(d))
        &&& self.total.nested_depth <= deeper(self.entry.nested_depth, self.limits.nested_depth)
        &&& self.total.dependency_depth <= deeper(self.entry.dependency_depth, self.limits.dependency_depth)
        &&& (self.stop matches Some(b) ==> stop_valid(b))
    }

    /// Records `stop` when the operation has none yet, and cancels the operation's token.
    fn record(&mut self, stop: BulkStop)
        requires
            stop_valid(stop),
        ensures
            old(self).stop is Some ==> final(self).stop == old(self).stop,
            old(self).stop is None ==> final(self).stop == Some(stop),
            final(self).total == old(self).total,
            final(self).owners == old(self).owners,
            final(self).entry == old(self).entry,
            final(self).limits == old(self).limits,
    {
        if self.stop.is_none() {
            self.stop = Some(stop);
            self.cancellation.cancel();
        }
    }

    /// The operation-level checks: cancellation, then the deadline read as `elapsed`.
    fn checkpoint(&mut self, elapsed: u64) -> (r: Result<()>)
        ensures
            final(self).total == old(self).total,
            final(self).owners == old(self).owners,
            final(self).entry == old(self).entry,
            final(self).limits == old(self).limits,
            old(self).stop is Some ==> final(self).stop == old(self).stop,
            r matches Err(e) ==> is_stop(e),
            r is Err ==> final(self).stop is Some,
            elapsed >= old(self).limits.elapsed_millis ==> r is Err,
            (old(self).stop matches Some(b) ==> stop_valid(b)) ==> (final(self).stop matches Some(b) ==> stop_valid(b)),
    {
        if self.cancellation.is_cancelled() {
            self.record(BulkStop { owner: None, kind: BulkStopKind::Cancelled, dimension: None });
            return Err(Error::cancelled());
        }
        if elapsed >= self.limits.elapsed_millis {
            self.record(BulkStop { owner: None, kind: BulkStopKind::Budget, dimension: Some(BudgetDimension::ElapsedMillis) });
            return Err(Error::BudgetExceeded {
                dimension: BudgetDimension::ElapsedMillis,
                limit: self.limits.elapsed_millis,
                consumed: elapsed,
                requested: 0,
            });
        }
        Ok(())
    }

    /// Takes `requested` units of `d` for `owner`, or refuses without taking any.
    fn charge(&mut self, owner: UsageOwner, d: CountedBudgetDimension, requested: u64, elapsed: u64) -> (r: Result<()>)
        requires
            old(self).wf(),
        ensures
            final(self).wf(),
            final(self).entry == old(self).entry,
            final(self).limits == old(self).limits,
            old(self).stop is Some ==> final(self).stop == old(self).stop,
            r is Ok ==> old(self).total.counted(d) + requested <= old(self).limits.counted(d)
                && final(self).total == old(self).total.with_counted(d, (old(self).total.counted(d) + requested) as u64)
                && final(self).owners[owner.slot()] == old(self).owners[owner.slot()].with_counted(d,
                    (old(self).owners[owner.slot()].counted(d) + requested) as u64)
                && forall|i: int| 0 <= i < 3 && i != owner.slot() ==> final(self).owners[i] == old(self).owners[i],
            r is Err ==> final(self).total == old(self).total && final(self).owners == old(self).owners
                && final(self).stop is Some,
            r matches Err(e) ==> is_stop(e) || is_budget(e, d.dim()),
            r matches Err(e) ==> is_stop(e) || ledger_refusal(e, d, old(self).limits, old(self).entry, requested),
            old(self).total.counted(d) + requested > old(self).limits.counted(d) ==> r is Err,
            elapsed >= old(self).limits.elapsed_millis ==> r is Err,
    {
        self.checkpoint(elapsed)?;
        let limit = self.limits.counted_limit(d);
        let consumed = self.total.counted_usage(d);
        if requested > limit || consumed > limit - requested {
            self.record(BulkStop { owner: Some(owner), kind: BulkStopKind::Budget, dimension: Some(d.dimension()) });
            return Err(Error::BudgetExceeded { dimension: d.dimension(), limit, consumed, requested });
        }
        let slot = owner.index();
        let owner_consumed = self.owners[slot].counted_usage(d);
        assert(owner_consumed <= consumed);
        let ghost before = *self;
        self.total.set(d, consumed + requested);
        let mut share = self.owners[slot];
        share.set(d, owner_consumed + requested);
        self.owners.set(slot, share);
        proof {
            assert forall|x: CountedBudgetDimension| #[trigger] self.total.counted(x) == self.entry.counted(x)
                + self.owners[0].counted(x) + self.owners[1].counted(x) + self.owners[2].counted(x) by {
                assert(before.total.counted(x) == before.entry.counted(x)
                    + before.owners[0].counted(x) + before.owners[1].counted(x) + before.owners[2].counted(x));
                lemma_with_counted(before.total, d, (consumed + requested) as u64, x);
                lemma_with_counted(before.owners[slot as int], d, (owner_consumed + requested) as u64, x);
            }
            assert forall|x: CountedBudgetDimension| #[trigger] self.total.counted(x) <= deeper(self.entry.counted(x), self.limits.counted(x)) by {
                assert(before.total.counted(x) <= deeper(before.entry.counted(x), before.limits.counted(x)));
                lemma_with_counted(before.total, d, (consumed + requested) as u64, x);
            }
            lemma_with_counted(before.total, d, (consumed + requested) as u64, d);
            lemma_with_counted(before.owners[slot as int], d, (owner_consumed + requested) as u64, d);
            assert forall|i: int| 0 <= i < 3 implies self.total.nested_depth >= (#[trigger] self.owners[i]).nested_depth
                && self.total.dependency_depth >= self.owners[i].dependency_depth by {
                assert(before.total.nested_depth >= before.owners[i].nested_depth);
            }
        }
        Ok(())
    }
}

/// A refused or accepted depth, as a high-water mark.
fn depth_refusal(dimension: BudgetDimension, limit: u64, depth: u64) -> (e: Error)
    ensures
        is_budget(e, dimension),
        depth_refused(e, dimension, limit, depth),
{
    Error::BudgetExceeded { dimension, limit, consumed: if depth > 0 { depth - 1 } else { 0 }, requested: 1 }
}

/// The lock invariant of a ledger: its accounting identity.
pub struct LedgerInvariant {
    pub limits: Limits,
    pub entry: UsageSnapshot,
}

impl RwLockPredicate<LedgerState> for LedgerInvariant {
    open spec fn inv(self, v: LedgerState) -> bool {
        &&& v.wf()
        &&& v.limits == self.limits
        &&& v.entry == self.entry
    }
}

/// One operation's total, shared by every worker of that operation.
#[derive(Clone)]
pub struct OperationLedger {
    state: Arc<RwLock<LedgerState, LedgerInvariant>>,
}

/// A zero share for each owner.
fn zero_shares() -> (s: [UsageSnapshot; 3])
    ensures
        forall|i: int| 0 <= i < 3 ==> s[i] == UsageSnapshot::spec_zero(),
{
    [UsageSnapshot::zero(), UsageSnapshot::zero(), UsageSnapshot::zero()]
}

impl OperationLedger {
    /// The operation's limits, fixed when the ledger was made.
    pub closed spec fn limits_of(&self) -> Limits {
        self.state.pred().limits
    }

    /// The usage the operation started from, fixed when the ledger was made.
    pub closed spec fn entry_of(&self) -> UsageSnapshot {
        self.state.pred().entry
    }

    /// The operation's ledger, starting from `entry`'s own usage, limits, clock and token. The
    /// entry usage is the operation's starting point and is never reset.
    pub fn new(entry: &Budget) -> (l: OperationLedger)
        ensures
            l.limits_of() == entry.limits_of(),
            l.entry_of() == (UsageSnapshot { elapsed_millis: 0, ..entry.usage_of() }),
    {
        let mut start = entry.usage();
        start.elapsed_millis = 0;
        let shares = zero_shares();
        let state = LedgerState {
            limits: *entry.limits(),
            started_at: *entry.started_at(),
            cancellation: entry.cancellation_token(),
            entry: start,
            total: start,
            owners: shares,
            stop: None,
        };
        proof {
            assert forall|d: CountedBudgetDimension| #[trigger] state.total.counted(d) == state.entry.counted(d)
                + state.owners[0].counted(d) + state.owners[1].counted(d) + state.owners[2].counted(d) by {
                assert(state.owners[0] == UsageSnapshot::spec_zero());
                assert(state.owners[1] == UsageSnapshot::spec_zero());
                assert(state.owners[2] == UsageSnapshot::spec_zero());
            }
        }
        let ghost pred = LedgerInvariant { limits: state.limits, entry: state.entry };
        OperationLedger { state: Arc::new(RwLock::new(state, Ghost(pred))) }
    }

    /// Takes `requested` units of `dimension` for `owner`'s work, or refuses without taking any:
    /// the operation's checks, the total's limit and the booking of the owner's share happen in
    /// one critical section, and a refusal is recorded as the operation's stop.
    pub fn charge(&self, owner: UsageOwner, dimension: CountedBudgetDimension, requested: u64) -> (r: Result<()>)
        ensures
            r matches Err(e) ==> is_stop(e) || is_budget(e, dimension.dim()),
            r matches Err(e) ==> is_stop(e) || ledger_refusal(e, dimension, self.limits_of(), self.entry_of(), requested),
            self.entry_of().counted(dimension) + requested > self.limits_of().counted(dimension) ==> r is Err,
            self.limits_of().elapsed_millis == 0 ==> r is Err,
    {
        let (mut state, handle) = self.state.acquire_write();
        let elapsed = millis_since(&state.started_at);
        let r = state.charge(owner, dimension, requested, elapsed);
        handle.release_write(state);
        r
    }

    /// Whether the operation could still take `requested` units of `dimension`, without taking
    /// them and without recording anything.
    pub fn check(&self, dimension: CountedBudgetDimension, requested: u64) -> (r: Result<()>)
        ensures
            r matches Err(e) ==> is_stop(e) || is_budget(e, dimension.dim()),
            r matches Err(e) ==> is_stop(e) || ledger_refusal(e, dimension, self.limits_of(), self.entry_of(), requested),
            self.entry_of().counted(dimension) + requested > self.limits_of().counted(dimension) ==> r is Err,
            self.limits_of().elapsed_millis == 0 ==> r is Err,
    {
        let handle = self.state.acquire_read();
        let state = handle.borrow();
        let r = if state.cancellation.is_cancelled() {
            Err(Error::cancelled())
        } else {
            let elapsed = millis_since(&state.started_at);
            if elapsed >= state.limits.elapsed_millis {
                Err(Error::BudgetExceeded { dimension: BudgetDimension::ElapsedMillis, limit: state.limits.elapsed_millis, consumed: elapsed, requested: 0 })
            } else {
                let limit = state.limits.counted_limit(dimension);
                let consumed = state.total.counted_usage(dimension);
                if requested > limit || consumed > limit - requested {
                    Err(Error::BudgetExceeded { dimension: dimension.dimension(), limit, consumed, requested })
                } else {
                    Ok(())
                }
            }
        };
        handle.release_read();
        r
    }

    /// Accepts a container nesting depth for `owner`, keeping the deepest one accepted. A deeper
    /// one than the operation allows is refused, and is not the operation's stop.
    pub fn check_nested_depth(&self, owner: UsageOwner, depth: u64) -> (r: Result<()>)
        ensures
            r matches Err(e) ==> is_stop(e) || (is_budget(e, BudgetDimension::NestedDepth) && depth > self.limits_of().nested_depth),
            r matches Err(e) ==> is_stop(e) || depth_refused(e, BudgetDimension::NestedDepth, self.limits_of().nested_depth, depth),
            depth > self.limits_of().nested_depth ==> r is Err,
            self.limits_of().elapsed_millis == 0 ==> r is Err,
    {
        let (mut state, handle) = self.state.acquire_write();
        let elapsed = millis_since(&state.started_at);
        match state.checkpoint(elapsed) {
            Err(e) => {
                handle.release_write(state);
                return Err(e);
            },
            Ok(()) => {},
        }
        let limit = state.limits.nested_depth;
        if depth > limit {
            handle.release_write(state);
            return Err(depth_refusal(BudgetDimension::NestedDepth, limit, depth));
        }
        let ghost before = state;
        if depth > state.total.nested_depth {
            state.total.nested_depth = depth;
        }
        let slot = owner.index();
        let mut share = state.owners[slot];
        if depth > share.nested_depth {
            share.nested_depth = depth;
        }
        state.owners.set(slot, share);
        proof {
            assert forall|x: CountedBudgetDimension| #[trigger] state.total.counted(x) == state.entry.counted(x)
                + state.owners[0].counted(x) + state.owners[1].counted(x) + state.owners[2].counted(x) by {
                assert(before.total.counted(x) == before.entry.counted(x)
                    + before.owners[0].counted(x) + before.owners[1].counted(x) + before.owners[2].counted(x));
                lemma_depths_apart(before.total, state.total.nested_depth, state.total.dependency_depth, x);
                lemma_depths_apart(before.owners[slot as int], share.nested_depth, share.dependency_depth, x);
                assert(state.total == (UsageSnapshot { nested_depth: state.total.nested_depth, dependency_depth: state.total.dependency_depth, ..before.total }));
                assert(share == (UsageSnapshot { nested_depth: share.nested_depth, dependency_depth: share.dependency_depth, ..before.owners[slot as int] }));
            }
            assert forall|x: CountedBudgetDimension| #[trigger] state.total.counted(x) <= deeper(state.entry.counted(x), state.limits.counted(x)) by {
                assert(before.total.counted(x) <= deeper(before.entry.counted(x), before.limits.counted(x)));
                lemma_depths_apart(before.total, state.total.nested_depth, state.total.dependency_depth, x);
                assert(state.total == (UsageSnapshot { nested_depth: state.total.nested_depth, dependency_depth: state.total.dependency_depth, ..before.total }));
            }
            assert forall|i: int| 0 <= i < 3 implies state.total.nested_depth >= (#[trigger] state.owners[i]).nested_depth
                && state.total.dependency_depth >= state.owners[i].dependency_depth by {
                assert(before.total.nested_depth >= before.owners[i].nested_depth);
                assert(before.total.dependency_depth >= before.owners[i].dependency_depth);
            }
        }
        handle.release_write(state);
        Ok(())
    }

    /// Accepts a dependency-closure depth for `owner`, keeping the deepest one accepted, with the
    /// refusal rule of [`Self::check_nested_depth`].
    pub fn observe_dependency_depth(&self, owner: UsageOwner, depth: u64) -> (r: Result<()>)
        ensures
            r matches Err(e) ==> is_stop(e) || (is_budget(e, BudgetDimension::DependencyDepth)
                && depth > self.limits_of().dependency_depth),
            r matches Err(e) ==> is_stop(e) || depth_refused(e, BudgetDimension::DependencyDepth, self.limits_of().dependency_depth, depth),
            depth > self.limits_of().dependency_depth ==> r is Err,
            self.limits_of().elapsed_millis == 0 ==> r is Err,
    {
        let (mut state, handle) = self.state.acquire_write();
        let elapsed = millis_since(&state.started_at);
        match state.checkpoint(elapsed) {
            Err(e) => {
                handle.release_write(state);
                return Err(e);
            },
            Ok(()) => {},
        }
        let limit = state.limits.dependency_depth;
        if depth > limit {
            handle.release_write(state);
            return Err(depth_refusal(BudgetDimension::DependencyDepth, limit, depth));
        }
        let ghost before = state;
        if depth > state.total.dependency_depth {
            state.total.dependency_depth = depth;
        }
        let slot = owner.index();
        let mut share = state.owners[slot];
        if depth > share.dependency_depth {
            share.dependency_depth = depth;
        }
        state.owners.set(slot, share);
        proof {
            assert forall|x: CountedBudgetDimension| #[trigger] state.total.counted(x) == state.entry.counted(x)
                + state.owners[0].counted(x) + state.owners[1].counted(x) + state.owners[2].counted(x) by {
                assert(before.total.counted(x) == before.entry.counted(x)
                    + before.owners[0].counted(x) + before.owners[1].counted(x) + before.owners[2].counted(x));
                lemma_depths_apart(before.total, state.total.nested_depth, state.total.dependency_depth, x);
                lemma_depths_apart(before.owners[slot as int], share.nested_depth, share.dependency_depth, x);
                assert(state.total == (UsageSnapshot { nested_depth: state.total.nested_depth, dependency_depth: state.total.dependency_depth, ..before.total }));
                assert(share == (UsageSnapshot { nested_depth: share.nested_depth, dependency_depth: share.dependency_depth, ..before.owners[slot as int] }));
            }
            assert forall|x: CountedBudgetDimension| #[trigger] state.total.counted(x) <= deeper(state.entry.counted(x), state.limits.counted(x)) by {
                assert(before.total.counted(x) <= deeper(before.entry.counted(x), before.limits.counted(x)));
                lemma_depths_apart(before.total, state.total.nested_depth, state.total.dependency_depth, x);
                assert(state.total == (UsageSnapshot { nested_depth: state.total.nested_depth, dependency_depth: state.total.dependency_depth, ..before.total }));
            }
            assert forall|i: int| 0 <= i < 3 implies state.total.nested_depth >= (#[trigger] state.owners[i]).nested_depth
                && state.total.dependency_depth >= state.owners[i].dependency_depth by {
                assert(before.total.nested_depth >= before.owners[i].nested_depth);
                assert(before.total.dependency_depth >= before.owners[i].dependency_depth);
            }
        }
        handle.release_write(state);
        Ok(())
    }

    /// The operation's deadline and cancellation, without accounting anything.
    pub fn poll(&self) -> (r: Result<()>)
        ensures
            r matches Err(e) ==> is_stop(e),
            self.limits_of().elapsed_millis == 0 ==> r is Err,
    {
        let (mut state, handle) = self.state.acquire_write();
        let elapsed = millis_since(&state.started_at);
        let r = state.checkpoint(elapsed);
        handle.release_write(state);
        r
    }

    /// The operation's totals right now, with the wall clock read once from the start.
    pub fn usage(&self) -> (u: UsageSnapshot)
        ensures
            forall|d: CountedBudgetDimension| self.entry_of().counted(d) <= #[trigger] u.counted(d)
                <= deeper(self.entry_of().counted(d), self.limits_of().counted(d)),
            self.entry_of().nested_depth <= u.nested_depth <= deeper(self.entry_of().nested_depth, self.limits_of().nested_depth),
            self.entry_of().dependency_depth <= u.dependency_depth
                <= deeper(self.entry_of().dependency_depth, self.limits_of().dependency_depth),
    {
        let handle = self.state.acquire_read();
        let st = handle.borrow();
        let total = st.total;
        assert(self.state.inv(*st));
        let elapsed = millis_since(&st.started_at);
        let mut usage = total;
        usage.elapsed_millis = elapsed;
        handle.release_read();
        proof {
            assert forall|d: CountedBudgetDimension| self.entry_of().counted(d) <= #[trigger] usage.counted(d)
                <= deeper(self.entry_of().counted(d), self.limits_of().counted(d)) by {
                assert(total.counted(d) == st.entry.counted(d) + st.owners[0].counted(d) + st.owners[1].counted(d) + st.owners[2].counted(d));
                assert(total.counted(d) <= deeper(st.entry.counted(d), st.limits.counted(d)));
                assert(usage.counted(d) == total.counted(d));
            }
        }
        usage
    }

    /// The usage the operation started from; its clock reading is zero.
    pub fn entry_usage(&self) -> (u: UsageSnapshot)
        ensures
            u.elapsed_millis == 0,
            u == self.entry_of(),
    {
        let handle = self.state.acquire_read();
        let usage = handle.borrow().entry;
        handle.release_read();
        usage
    }

    /// What one part of the operation has been charged, with the operation's clock.
    pub fn cumulative(&self, owner: UsageOwner) -> (u: UsageSnapshot)
        ensures
            forall|d: CountedBudgetDimension| self.entry_of().counted(d) + #[trigger] u.counted(d)
                <= deeper(self.entry_of().counted(d), self.limits_of().counted(d)),
            u.nested_depth <= deeper(self.entry_of().nested_depth, self.limits_of().nested_depth),
            u.dependency_depth <= deeper(self.entry_of().dependency_depth, self.limits_of().dependency_depth),
    {
        let handle = self.state.acquire_read();
        let st = handle.borrow();
        let share = st.owners[owner.index()];
        assert(self.state.inv(*st));
        let elapsed = millis_since(&st.started_at);
        let mut usage = share;
        usage.elapsed_millis = elapsed;
        handle.release_read();
        proof {
            assert forall|d: CountedBudgetDimension| self.entry_of().counted(d) + #[trigger] usage.counted(d)
                <= deeper(self.entry_of().counted(d), self.limits_of().counted(d)) by {
                assert(st.total.counted(d) == st.entry.counted(d) + st.owners[0].counted(d) + st.owners[1].counted(d) + st.owners[2].counted(d));
                assert(st.total.counted(d) <= deeper(st.entry.counted(d), st.limits.counted(d)));
                assert(usage.counted(d) == share.counted(d));
            }
            assert(st.total.nested_depth >= st.owners[owner.slot()].nested_depth);
            assert(st.total.dependency_depth >= st.owners[owner.slot()].dependency_depth);
        }
        usage
    }

    /// Records that the operation is stopping, and stops every worker of it. The first recorded
    /// stop is kept.
    pub fn cancel(&self, reason: BulkStopKind) {
        let (mut state, handle) = self.state.acquire_write();
        state.record(BulkStop { owner: None, kind: reason, dimension: None });
        handle.release_write(state);
    }

    /// The operation's first stop, when it has one; a cancellation the token already carries is
    /// recorded first.
    pub fn stop_reason(&self) -> (s: Option<BulkStop>)
        ensures
            s matches Some(b) ==> stop_valid(b),
    {
        let (mut state, handle) = self.state.acquire_write();
        if state.stop.is_none() && state.cancellation.is_cancelled() {
            state.record(BulkStop { owner: None, kind: BulkStopKind::Cancelled, dimension: None });
        }
        let stop = state.stop;
        handle.release_write(state);
        stop
    }
}

} // verus!
