//! Incremental entry traversal: every entry of a scope, one at a time, classified.
//!
//! Containers are walked depth first: a container's entries are yielded in ordinal order before
//! the walk descends, in entry order, into the nested archives that container holds. The
//! whole-snapshot scope is the root container's own entries; the artifact-tree scope descends. A
//! container's directory is read completely when the walk reaches it, and a nested archive is
//! materialized only when the walk descends into it.
//!
//! The root container failing is an error: there is no scope to walk. A child container failing
//! for what its bytes are leaves that subtree unknown, names the entry it hangs from, and the
//! walk goes on; a cancellation or a budget refusal ends the walk for good.

use crate::artifact::{ArtifactKind, ArtifactSnapshot, ContainerFacts, NestedArchiveState, PhysicalEntry, PhysicalScope, child_container_facts, class_candidate_name, is_class_candidate_name, merge_tree_error, root_origin, stops_walk, tree_diagnostic, walk_stops};
use crate::budget::{Budget, CountedBudgetDimension, spent};
use crate::cancel::arc_share;
use crate::error::{Error, Result, is_invalid, is_stop};
use crate::model::{ContainerOrigin, CoverageState, Diagnostic, DiagnosticSeverity, ExecutionReport, SnapshotId};
use crate::text::{decimal, push_decimal};
use std::sync::Arc;
use vstd::prelude::*;

verus! {


/// What one entry is for a walk over a scope.
#[derive(Clone, Copy, Debug, PartialEq, Eq, Structural)]
pub enum ScopeEntryKind {
    /// The raw name is a class candidate: it ends with `.class`. A claim about the name, never
    /// about the bytes.
    ClassCandidate,
    /// The record marks a nested archive: the entry a walk descends through.
    NestedContainer,
    /// Every other entry: a resource, a directory record, a signature file.
    Other,
}

/// The kind a walk gives an entry: a nested archive first, then a class candidate.
pub open spec fn kind_of(e: PhysicalEntry) -> ScopeEntryKind {
    if e.nested_archive == NestedArchiveState::CandidateNotScanned {
        ScopeEntryKind::NestedContainer
    } else if class_candidate_name(e.id.raw_name.0@) {
        ScopeEntryKind::ClassCandidate
    } else {
        ScopeEntryKind::Other
    }
}

/// One entry the walk yielded, with the container's own verified record.
#[derive(Clone, Debug, PartialEq, Eq)]
pub struct ScopeEntry {
    /// The record the container's complete central directory holds for this entry.
    pub entry: PhysicalEntry,
    /// How deep the container holding it is: 0 for the root container.
    pub depth: u64,
    /// What the entry is for this walk.
    pub kind: ScopeEntryKind,
}

/// One container this walk knows about, with the entry count its own directory declares.
#[derive(Clone, Debug, PartialEq, Eq)]
pub struct ScopeContainer {
    pub origin: ContainerOrigin,
    /// Entries the container's own directory declared.
    pub entries: u64,
    /// Whether the walk opened this container and validated its directory.
    pub walked: bool,
}

/// One container the walk is inside.
struct ContainerWalk {
    facts: Arc<ContainerFacts>,
    /// The next entry of this container the walk yields.
    position: usize,
    /// The next nested-archive candidate of this container the walk descends through.
    descend_from: usize,
}

/// The walk's positions lie inside their containers.
spec fn walk_wf(w: ContainerWalk) -> bool {
    w.position <= w.facts.entries_of().len() && w.descend_from <= w.facts.entries_of().len()
}

/// What is left to do in one container: its entries not yet yielded, its candidates not yet
/// looked at, and leaving it.
spec fn walk_left(w: ContainerWalk) -> int {
    (w.facts.entries_of().len() - w.position) + (w.facts.entries_of().len() - w.descend_from) + 1
}

/// What is left to do in every container of the stack.
spec fn stack_left(s: Seq<ContainerWalk>) -> int
    decreases s.len(),
{
    if s.len() == 0 {
        0
    } else {
        stack_left(s.drop_last()) + walk_left(s.last())
    }
}

/// The entries of one scope, pulled one at a time.
pub struct EntryCursor {
    snapshot: ArtifactSnapshot,
    /// Whether the scope descends into nested containers.
    descend: bool,
    /// The containers being walked, outermost first; the last one is the current one.
    stack: Vec<ContainerWalk>,
    /// Every container this walk knows about, in the order it reached them.
    containers: Vec<ScopeContainer>,
    /// Every failure that ended a subtree, and every repeated raw name of an opened container.
    diagnostics: Vec<Diagnostic>,
    /// The state the first subtree failure means.
    issue: Option<ExecutionReport>,
    /// Whether nothing was left unknown so far.
    complete: bool,
    /// Whether the walk reached the end of the scope.
    exhausted: bool,
    /// Whether the walk has stopped; a stopped cursor yields nothing further.
    stopped: bool,
}

impl ArtifactSnapshot {
    /// Opens one scope for incremental entry traversal. Opening reads nothing: the root
    /// container is opened by the first pull.
    ///
    /// A standalone class snapshot has no container to walk (`navigation_not_zip`), and an
    /// artifact-tree scope must name this snapshot's root container
    /// (`navigation_root_container_mismatch`).
    pub fn entry_cursor(&self, scope: &PhysicalScope) -> (r: Result<EntryCursor>)
        ensures
            self.kind_of() == ArtifactKind::StandaloneClass ==> (r matches Err(e) && is_invalid(e, "navigation_not_zip"@)),
            self.kind_of() == ArtifactKind::Zip ==> match scope {
                PhysicalScope::SnapshotAll => r is Ok,
                PhysicalScope::ArtifactTree { root_container } => if root_container.0@ == "root"@ {
                    r is Ok
                } else {
                    r matches Err(e) && is_invalid(e, "navigation_root_container_mismatch"@)
                },
            },
            r matches Ok(c) ==> c.wf() && c.snapshot_of() == *self && !c.stopped_of() && !c.exhausted_of()
                && c.complete_of() && c.containers_of().len() == 0 && c.diagnostics_of().len() == 0
                && c.issue_of() is None
                && c.descends() == (scope is ArtifactTree),
    {
        EntryCursor::new(self.clone(), scope)
    }
}

impl EntryCursor {
    pub closed spec fn wf(&self) -> bool {
        &&& forall|k: int| 0 <= k < self.stack@.len() ==> walk_wf(#[trigger] self.stack@[k])
        &&& (self.exhausted ==> self.stack@.len() == 0)
    }

    pub closed spec fn snapshot_of(&self) -> ArtifactSnapshot {
        self.snapshot
    }

    /// What is left to walk in the containers the cursor is inside.
    pub closed spec fn left_of(&self) -> int {
        stack_left(self.stack@)
    }

    /// The walk has not opened its root container yet.
    pub closed spec fn unopened(&self) -> bool {
        self.stack@.len() == 0 && !self.exhausted
    }

    pub closed spec fn descends(&self) -> bool {
        self.descend
    }

    pub closed spec fn containers_of(&self) -> Seq<ScopeContainer> {
        self.containers@
    }

    pub closed spec fn diagnostics_of(&self) -> Seq<Diagnostic> {
        self.diagnostics@
    }

    pub closed spec fn issue_of(&self) -> Option<ExecutionReport> {
        self.issue
    }

    pub closed spec fn complete_of(&self) -> bool {
        self.complete
    }

    pub closed spec fn exhausted_of(&self) -> bool {
        self.exhausted
    }

    pub closed spec fn stopped_of(&self) -> bool {
        self.stopped
    }

    pub(crate) fn new(snapshot: ArtifactSnapshot, scope: &PhysicalScope) -> (r: Result<EntryCursor>)
        ensures
            snapshot.kind_of() == ArtifactKind::StandaloneClass ==> (r matches Err(e) && is_invalid(e, "navigation_not_zip"@)),
            snapshot.kind_of() == ArtifactKind::Zip ==> match scope {
                PhysicalScope::SnapshotAll => r is Ok,
                PhysicalScope::ArtifactTree { root_container } => if root_container.0@ == "root"@ {
                    r is Ok
                } else {
                    r matches Err(e) && is_invalid(e, "navigation_root_container_mismatch"@)
                },
            },
            r matches Ok(c) ==> c.wf() && c.snapshot_of() == snapshot && !c.stopped_of() && !c.exhausted_of()
                && c.complete_of() && c.containers_of().len() == 0 && c.diagnostics_of().len() == 0
                && c.issue_of() is None
                && c.descends() == (scope is ArtifactTree),
    {
        let root_container = root_origin(snapshot.id()).root_container;
        let descend = match (snapshot.kind(), scope) {
            (ArtifactKind::StandaloneClass, _) => {
                return Err(Error::invalid_input(
                    "navigation_not_zip",
                    "entry traversal requires a ZIP snapshot; a standalone CLASS snapshot holds no container",
                ));
            },
            (ArtifactKind::Zip, PhysicalScope::SnapshotAll) => false,
            (ArtifactKind::Zip, PhysicalScope::ArtifactTree { root_container: named }) => {
                if named.0 != root_container.0 {
                    return Err(Error::invalid_input(
                        "navigation_root_container_mismatch",
                        "the tree scope's root container is not this snapshot's root container",
                    ));
                }
                true
            },
        };
        Ok(EntryCursor {
            snapshot,
            descend,
            stack: Vec::new(),
            containers: Vec::new(),
            diagnostics: Vec::new(),
            issue: None,
            complete: true,
            exhausted: false,
            stopped: false,
        })
    }

    /// The snapshot this cursor walks.
    pub fn snapshot(&self) -> (s: &SnapshotId)
        ensures
            *s == self.snapshot_of().id_of(),
    {
        self.snapshot.id()
    }

    /// Every container this walk knows about, in the order it reached it. A container the walk
    /// never reached is absent.
    pub fn containers(&self) -> (c: &[ScopeContainer])
        ensures
            c@ == self.containers_of(),
    {
        self.containers.as_slice()
    }

    /// Every failure that ended a subtree, each naming the entry it hangs from, and every
    /// repeated raw name of a container the walk opened.
    pub fn diagnostics(&self) -> (d: &[Diagnostic])
        ensures
            d@ == self.diagnostics_of(),
    {
        self.diagnostics.as_slice()
    }

    /// The state the first subtree failure means, or `None` when every container was read.
    pub fn issue(&self) -> (i: Option<&ExecutionReport>)
        ensures
            match i {
                Some(r) => self.issue_of() == Some(*r),
                None => self.issue_of() is None,
            },
    {
        match &self.issue {
            Some(r) => Some(r),
            None => None,
        }
    }

    /// `CompleteWithinSchema` once the walk reached the end of the scope with nothing left
    /// unknown; `Partial` otherwise.
    pub fn coverage_state(&self) -> (c: CoverageState)
        ensures
            c == coverage_of(*self),
    {
        if self.exhausted && self.complete {
            CoverageState::CompleteWithinSchema
        } else {
            CoverageState::Partial
        }
    }
}

proof fn lemma_left_update_last(s: Seq<ContainerWalk>, w: ContainerWalk)
    requires
        s.len() > 0,
    ensures
        stack_left(s.update(s.len() - 1, w)) == stack_left(s) - walk_left(s.last()) + walk_left(w),
{
    assert(s.update(s.len() - 1, w).drop_last() =~= s.drop_last());
}

proof fn lemma_left_nonnegative(s: Seq<ContainerWalk>)
    requires
        forall|k: int| 0 <= k < s.len() ==> walk_wf(#[trigger] s[k]),
    ensures
        stack_left(s) >= 0,
    decreases s.len(),
{
    if s.len() > 0 {
        assert(walk_wf(s[s.len() - 1]));
        lemma_left_nonnegative(s.drop_last());
    }
}

/// The room left in the `EntryBytes` dimension.
pub open spec fn entry_room(b: Budget) -> int {
    let used = b.usage_of().counted(CountedBudgetDimension::EntryBytes);
    let limit = b.limits_of().counted(CountedBudgetDimension::EntryBytes);
    if used <= limit { limit - used } else { 0 }
}

/// A walk that went from (`room0`, `left0`) to (`room1`, `left1`) made progress: it spent room in
/// `EntryBytes`, or spent none and has less left to walk.
pub open spec fn progressed(room0: int, left0: int, room1: int, left1: int) -> bool {
    (0 <= room1 < room0) || (room1 == room0 && 0 <= left1 < left0)
}

/// A walk made progress from `a` under budget `x` to `b` under budget `y`: it opened its root
/// container, or it progressed inside the containers it is in.
pub open spec fn walk_progressed(a: EntryCursor, x: Budget, b: EntryCursor, y: Budget) -> bool {
    ||| (a.unopened() && !b.unopened())
    ||| (a.unopened() == b.unopened() && progressed(entry_room(x), a.left_of(), entry_room(y), b.left_of()))
}

/// `b` extends `a`.
pub open spec fn extends<T>(a: Seq<T>, b: Seq<T>) -> bool {
    a.len() <= b.len() && forall|i: int| 0 <= i < a.len() ==> b[i] == a[i]
}

/// A container the walk knows of only by the root's own end record: the snapshot's root,
/// never walked.
pub open spec fn unopened_root(c: ScopeContainer, snapshot: ArtifactSnapshot) -> bool {
    &&& c.origin.snapshot.0@ == snapshot.id_of().0@
    &&& c.origin.root_container.0@ == "root"@
    &&& c.origin.steps@.len() == 0
    &&& !c.walked
}

/// The diagnostic of the `k`-th repeated raw name, `(ordinal, first)`, of an opened container.
pub open spec fn repeat_diagnostic(d: Diagnostic, repeat: (u64, u64)) -> bool {
    &&& d.code@ == "duplicate_raw_name"@
    &&& d.severity == DiagnosticSeverity::Warning
    &&& d.message@ == duplicate_message(repeat.0, repeat.1)
    &&& d.provenance is None
}

/// `"entry {ordinal} repeats raw name first seen at ordinal {first}"`.
pub open spec fn duplicate_message(ordinal: u64, first: u64) -> Seq<char> {
    "entry "@ + decimal(ordinal as nat) + " repeats raw name first seen at ordinal "@ + decimal(first as nat)
}

/// The duplicate-name diagnostic one repeated record publishes.
fn duplicate_diagnostic(ordinal: u64, first: u64) -> (d: Diagnostic)
    ensures
        d.code@ == "duplicate_raw_name"@,
        d.severity == DiagnosticSeverity::Warning,
        d.message@ == duplicate_message(ordinal, first),
        d.provenance is None,
{
    let mut message = String::from_str("entry ");
    push_decimal(&mut message, ordinal);
    message.append(" repeats raw name first seen at ordinal ");
    push_decimal(&mut message, first);
    assert(message@ =~= duplicate_message(ordinal, first));
    Diagnostic {
        code: String::from_str("duplicate_raw_name"),
        severity: DiagnosticSeverity::Warning,
        message,
        provenance: None,
    }
}

/// What every step of a walk keeps: the snapshot and scope, the containers and diagnostics it
/// already stated, its first failure, and that it once left something unknown or reached the end.
pub open spec fn keeps(a: EntryCursor, b: EntryCursor) -> bool {
    &&& b.snapshot_of() == a.snapshot_of()
    &&& b.descends() == a.descends()
    &&& extends(a.containers_of(), b.containers_of())
    &&& extends(a.diagnostics_of(), b.diagnostics_of())
    &&& (a.issue_of() is Some ==> b.issue_of() == a.issue_of())
    &&& (!a.complete_of() ==> !b.complete_of())
    &&& (a.exhausted_of() ==> b.exhausted_of())
}

/// The coverage a cursor in this state reports: `CompleteWithinSchema` once its walk reached the
/// end of the scope with nothing left unknown, `Partial` otherwise.
pub open spec fn coverage_of(c: EntryCursor) -> CoverageState {
    if c.exhausted_of() && c.complete_of() {
        CoverageState::CompleteWithinSchema
    } else {
        CoverageState::Partial
    }
}

/// Coverage follows the history of pulls: what two pulls keep, the pair of them keeps, and once
/// a walk has lost a subtree or failed, every later state of it reports `Partial`.
pub proof fn law_coverage_follows_history(a: EntryCursor, b: EntryCursor, c: EntryCursor)
    requires
        keeps(a, b),
        keeps(b, c),
    ensures
        keeps(a, c),
        !a.complete_of() ==> coverage_of(b) == CoverageState::Partial && coverage_of(c) == CoverageState::Partial,
{
    assert(extends(a.containers_of(), c.containers_of())) by {
        assert forall|i: int| 0 <= i < a.containers_of().len() implies c.containers_of()[i] == a.containers_of()[i] by {
            assert(b.containers_of()[i] == a.containers_of()[i]);
        }
    }
    assert(extends(a.diagnostics_of(), c.diagnostics_of())) by {
        assert forall|i: int| 0 <= i < a.diagnostics_of().len() implies c.diagnostics_of()[i] == a.diagnostics_of()[i] by {
            assert(b.diagnostics_of()[i] == a.diagnostics_of()[i]);
        }
    }
}

impl EntryCursor {
    /// The next entry in the scope's own physical order, or `None` when the walk is over.
    ///
    /// The request is polled before every entry, so a cancelled request yields nothing more. A
    /// stop ends the walk for good: a stopped or finished cursor answers `None`, polls nothing and
    /// changes nothing, and a
    /// walk that stopped before it opened the root container states the root's declared entry
    /// count as a container it did not walk.
    pub fn next_entry(&mut self, budget: &mut Budget) -> (r: Result<Option<ScopeEntry>>)
        requires
            old(self).wf(),
        ensures
            r matches Err(e) ==> crate::budget::honest_refusal(e, old(budget).limits_of()),
            final(self).wf(),
            final(budget).limits_of() == old(budget).limits_of(),
            spent(old(budget).usage_of(), final(budget).usage_of()),
            keeps(*old(self), *final(self)),
            old(self).stopped_of() || old(self).exhausted_of() ==> (r matches Ok(None) && *final(self) == *old(self)
                && *final(budget) == *old(budget)),
            r is Err ==> final(self).stopped_of() && !final(self).complete_of(),
            r matches Ok(None) ==> final(self).exhausted_of() || old(self).stopped_of(),
            r matches Ok(Some(e)) ==> e.kind == kind_of(e.entry) && e.depth == e.entry.id.origin.steps@.len(),
            r matches Ok(Some(_)) ==> walk_progressed(*old(self), *old(budget), *final(self), *final(budget)),
            r matches Err(e) ==> stops_walk(e) || crate::zip::is_open_error(e) || crate::zip::is_directory_error(e),
            r matches Err(e) ==> stops_walk(e) || !crate::artifact::zip_readable(old(self).snapshot_of().bytes_of()),
    {
        if self.stopped || self.exhausted {
            return Ok(None);
        }
        match self.advance(budget) {
            Ok(item) => Ok(item),
            Err(error) => {
                self.complete = false;
                self.stopped = true;
                self.declare_unopened_root();
                Err(error)
            },
        }
    }

    /// States the range a walk owes when it stopped before it could open the root container: the
    /// root's own end record declares its entry count, recorded as not walked and read without
    /// any charge.
    fn declare_unopened_root(&mut self)
        requires
            old(self).wf(),
        ensures
            final(self).wf(),
            keeps(*old(self), *final(self)),
            final(self).stack == old(self).stack,
            final(self).stopped == old(self).stopped,
            final(self).complete == old(self).complete,
            final(self).snapshot == old(self).snapshot,
            old(self).containers@.len() != 0 ==> final(self).containers@ == old(self).containers@,
            old(self).containers@.len() == 0 ==> final(self).containers@.len() == 0 || (final(self).containers@.len() == 1
                && unopened_root(final(self).containers@[0], old(self).snapshot)),
            old(self).containers@.len() == 0 && old(self).snapshot.kind_of() == ArtifactKind::StandaloneClass
                ==> final(self).containers@.len() == 0,
            old(self).containers@.len() == 0 && old(self).snapshot.kind_of() == ArtifactKind::Zip ==> forall|p: int|
                #[trigger] crate::zip::last_eocd(old(self).snapshot.bytes_of(), p) && crate::zip::eocd_valid(old(self).snapshot.bytes_of(), p)
                ==> final(self).containers@.len() == 1
                    && final(self).containers@[0].entries == crate::zip::le16(old(self).snapshot.bytes_of(), p + 10),
    {
        if self.containers.len() != 0 {
            return;
        }
        match self.snapshot.declared_root_entries() {
            Some(entries) => {
                let origin = root_origin(self.snapshot.id());
                self.containers.push(ScopeContainer { origin, entries, walked: false });
            },
            None => {},
        }
    }

    /// One step of the walk; the root container is opened by the first one.
    fn advance(&mut self, budget: &mut Budget) -> (r: Result<Option<ScopeEntry>>)
        requires
            old(self).wf(),
            !old(self).stopped,
        ensures
            r matches Err(e) ==> crate::budget::honest_refusal(e, old(budget).limits_of()),
            final(self).wf(),
            final(budget).limits_of() == old(budget).limits_of(),
            spent(old(budget).usage_of(), final(budget).usage_of()),
            keeps(*old(self), *final(self)),
            final(self).stopped == old(self).stopped,
            r matches Ok(None) ==> final(self).exhausted,
            old(self).exhausted ==> (r matches Ok(None) || (r matches Err(e) && is_stop(e))) && final(self).exhausted,
            r matches Ok(Some(e)) ==> e.kind == kind_of(e.entry) && e.depth == e.entry.id.origin.steps@.len(),
            r matches Ok(Some(_)) ==> walk_progressed(*old(self), *old(budget), *final(self), *final(budget)),
            r matches Err(e) ==> stops_walk(e) || crate::zip::is_open_error(e) || crate::zip::is_directory_error(e),
            r matches Err(e) ==> stops_walk(e) || !crate::artifact::zip_readable(old(self).snapshot.bytes_of()),
    {
        budget.poll()?;
        if self.stack.len() == 0 && self.exhausted {
            return Ok(None);
        }
        let ghost unopened = self.stack@.len() == 0 && !self.exhausted;
        let ghost room0 = entry_room(*budget);
        let ghost left0 = stack_left(self.stack@);
        if self.stack.len() == 0 {
            let facts = self.snapshot.root_container_facts(budget)?;
            self.note_container(&facts);
            let ghost before = self.stack@;
            let walk = ContainerWalk { facts, position: 0, descend_from: 0 };
            self.stack.push(walk);
            proof {
                assert forall|k: int| 0 <= k < self.stack@.len() implies walk_wf(#[trigger] self.stack@[k]) by {
                    if k < before.len() {
                        assert(self.stack@[k] == before[k]);
                    }
                }
            }
        }
        self.next_of_current(budget)
    }

    /// Records one verified container: its declared denominator and its repeated raw names.
    fn note_container(&mut self, facts: &ContainerFacts)
        ensures
            final(self).snapshot == old(self).snapshot,
            final(self).descend == old(self).descend,
            final(self).stack == old(self).stack,
            final(self).issue == old(self).issue,
            final(self).complete == old(self).complete,
            final(self).exhausted == old(self).exhausted,
            final(self).stopped == old(self).stopped,
            extends(old(self).containers@, final(self).containers@),
            extends(old(self).diagnostics@, final(self).diagnostics@),
            final(self).containers@.len() == old(self).containers@.len() + 1,
            crate::model::same_origin(final(self).containers@.last().origin, facts.origin_of()),
            final(self).containers@.last().entries == facts.entries_of().len(),
            final(self).containers@.last().walked,
            final(self).diagnostics@.len() == old(self).diagnostics@.len() + facts.repeated_of().len(),
            forall|k: int| 0 <= k < facts.repeated_of().len() ==> repeat_diagnostic(
                #[trigger] final(self).diagnostics@[old(self).diagnostics@.len() + k], facts.repeated_of()[k]),
    {
        let entries = facts.entries().len() as u64;
        self.containers.push(ScopeContainer { origin: facts.origin().duplicate(), entries, walked: true });
        let repeated = facts.repeated_names();
        let ghost start = self.diagnostics@;
        let mut i: usize = 0;
        while i < repeated.len()
            invariant
                i <= repeated@.len(),
                extends(start, self.diagnostics@),
                self.snapshot == old(self).snapshot,
                self.descend == old(self).descend,
                self.stack == old(self).stack,
                self.issue == old(self).issue,
                self.complete == old(self).complete,
                self.exhausted == old(self).exhausted,
                self.stopped == old(self).stopped,
                extends(old(self).containers@, self.containers@),
                extends(old(self).diagnostics@, start),
                start == old(self).diagnostics@,
                repeated@ == facts.repeated_of(),
                self.containers@.len() == old(self).containers@.len() + 1,
                crate::model::same_origin(self.containers@.last().origin, facts.origin_of()),
                self.containers@.last().entries == facts.entries_of().len(),
                self.containers@.last().walked,
                self.diagnostics@.len() == start.len() + i,
                forall|k: int| 0 <= k < i ==> repeat_diagnostic(#[trigger] self.diagnostics@[start.len() + k], repeated@[k]),
            decreases repeated@.len() - i,
        {
            let (ordinal, first) = repeated[i];
            let ghost before = self.diagnostics@;
            self.diagnostics.push(duplicate_diagnostic(ordinal, first));
            proof {
                assert forall|k: int| 0 <= k < i + 1 implies repeat_diagnostic(#[trigger] self.diagnostics@[start.len() + k], repeated@[k]) by {
                    if k < i {
                        assert(self.diagnostics@[start.len() + k] == before[start.len() + k]);
                    }
                }
            }
            i = i + 1;
        }
    }

    /// One entry of the container the walk is inside, as the walk hands it over.
    fn entry_at(&self, position: usize) -> (e: ScopeEntry)
        requires
            self.stack@.len() > 0,
            position < self.stack@.last().facts.entries_of().len(),
        ensures
            e.kind == kind_of(e.entry),
            e.depth == e.entry.id.origin.steps@.len(),
    {
        let top = self.stack.len() - 1;
        let facts: &ContainerFacts = &self.stack[top].facts;
        proof {
            use_type_invariant(facts);
            let s = facts.backing_of();
            let p = choose|p: int| #[trigger] crate::zip::last_eocd(s, p) && crate::zip::eocd_valid(s, p);
            assert(crate::zip::last_eocd(s, p));
            let start = crate::zip::le32(s, p + 16) as int;
            assert(crate::artifact::entry_from(s, crate::zip::record_offset(s, start, position as nat), facts.origin_of(),
                position as int, facts.entries_of()[position as int]));
        }
        let record = &facts.entries()[position];
        let depth = facts.origin().steps.len() as u64;
        let kind = if record.nested_archive == NestedArchiveState::CandidateNotScanned {
            ScopeEntryKind::NestedContainer
        } else if is_class_candidate_name(record.id.raw_name.0.as_slice()) {
            ScopeEntryKind::ClassCandidate
        } else {
            ScopeEntryKind::Other
        };
        ScopeEntry { entry: record.duplicate(), depth, kind }
    }
    /// The next nested-archive candidate of the container the walk is inside, if the scope
    /// descends and one is left.
    fn next_candidate(&mut self) -> (r: Option<usize>)
        requires
            old(self).wf(),
            old(self).stack@.len() > 0,
        ensures
            final(self).wf(),
            final(self).snapshot == old(self).snapshot,
            final(self).descend == old(self).descend,
            final(self).containers == old(self).containers,
            final(self).diagnostics == old(self).diagnostics,
            final(self).issue == old(self).issue,
            final(self).complete == old(self).complete,
            final(self).exhausted == old(self).exhausted,
            final(self).stopped == old(self).stopped,
            final(self).stack@.len() == old(self).stack@.len(),
            stack_left(final(self).stack@) <= stack_left(old(self).stack@),
            r is Some ==> stack_left(final(self).stack@) < stack_left(old(self).stack@),
            r matches Some(c) ==> c < final(self).stack@.last().facts.entries_of().len(),
            !old(self).descend ==> r is None && final(self).stack@ == old(self).stack@,
            old(self).descend ==> {
                let top = old(self).stack@.last();
                let entries = top.facts.entries_of();
                &&& final(self).stack@ == old(self).stack@.update(old(self).stack@.len() - 1, ContainerWalk {
                    descend_from: (match r { Some(c) => c + 1, None => if top.descend_from <= entries.len() { entries.len() as int } else { top.descend_from as int } }) as usize,
                    ..top
                })
                &&& forall|c: int| top.descend_from <= c < entries.len() && (r matches Some(f) ==> c < f)
                    ==> (#[trigger] entries[c]).nested_archive != NestedArchiveState::CandidateNotScanned
                &&& (r matches Some(c) ==> top.descend_from <= c < entries.len()
                    && entries[c as int].nested_archive == NestedArchiveState::CandidateNotScanned)
            },
    {
        if !self.descend {
            return None;
        }
        let top = self.stack.len() - 1;
        let ghost before = self.stack@;
        let facts = arc_share(&self.stack[top].facts);
        let position = self.stack[top].position;
        let mut from = self.stack[top].descend_from;
        let length = facts.entries().len();
        let mut found: Option<usize> = None;
        while found.is_none() && from < length
            invariant
                length == facts.entries_of().len(),
                facts == before.last().facts,
                before.last().descend_from <= from <= length || (from == before.last().descend_from && length < from),
                found matches Some(c) ==> c < length && before.last().descend_from <= c && from == c + 1
                    && facts.entries_of()[c as int].nested_archive == NestedArchiveState::CandidateNotScanned,
                forall|c: int| before.last().descend_from <= c < from && (found matches Some(f) ==> c < f)
                    ==> (#[trigger] facts.entries_of()[c]).nested_archive != NestedArchiveState::CandidateNotScanned,
            decreases length - from,
        {
            if facts.entries()[from].nested_archive == NestedArchiveState::CandidateNotScanned {
                found = Some(from);
            }
            from = from + 1;
        }
        let walk = ContainerWalk { facts, position, descend_from: from };
        proof {
            lemma_left_update_last(before, walk);
        }
        self.stack.set(top, walk);
        proof {
            assert forall|k: int| 0 <= k < self.stack@.len() implies walk_wf(#[trigger] self.stack@[k]) by {
                if k < top {
                    assert(self.stack@[k] == before[k]);
                }
            }
        }
        found
    }

    /// Opens the container one candidate entry holds, or records why its subtree stays unknown.
    /// A cancellation or a budget refusal other than the nesting depth ends the walk.
    fn descend(&mut self, candidate: usize, budget: &mut Budget) -> (r: Result<Option<ContainerFacts>>)
        requires
            old(self).stack@.len() > 0,
            candidate < old(self).stack@.last().facts.entries_of().len(),
        ensures
            r matches Err(e) ==> crate::budget::honest_refusal(e, old(budget).limits_of()),
            final(self).snapshot == old(self).snapshot,
            final(self).descend == old(self).descend,
            final(self).stack == old(self).stack,
            final(self).exhausted == old(self).exhausted,
            final(self).stopped == old(self).stopped,
            extends(old(self).containers@, final(self).containers@),
            extends(old(self).diagnostics@, final(self).diagnostics@),
            old(self).issue is Some ==> final(self).issue == old(self).issue,
            !old(self).complete ==> !final(self).complete,
            final(budget).limits_of() == old(budget).limits_of(),
            spent(old(budget).usage_of(), final(budget).usage_of()),
            r matches Ok(Some(_)) ==> old(budget).usage_of().counted(CountedBudgetDimension::EntryBytes)
                < final(budget).usage_of().counted(CountedBudgetDimension::EntryBytes)
                <= final(budget).limits_of().counted(CountedBudgetDimension::EntryBytes),
            r matches Err(e) ==> stops_walk(e),
    {
        let top = self.stack.len() - 1;
        let parent = arc_share(&self.stack[top].facts);
        let opened = child_container_facts(&parent, candidate, budget);
        match opened {
            Ok(facts) => {
                self.note_container(&facts);
                Ok(Some(facts))
            },
            Err(error) => {
                if walk_stops(&error) {
                    return Err(error);
                }
                self.complete = false;
                merge_tree_error(&mut self.issue, &error, budget);
                let entry = &parent.entries()[candidate];
                self.diagnostics.push(tree_diagnostic(&error, Some(entry)));
                Ok(None)
            },
        }
    }

    /// The next entry of the container the walk is inside, or `None` once the scope ends. The
    /// request is polled before every entry is looked at.
    fn next_of_current(&mut self, budget: &mut Budget) -> (r: Result<Option<ScopeEntry>>)
        requires
            old(self).wf(),
        ensures
            r matches Err(e) ==> crate::budget::honest_refusal(e, old(budget).limits_of()),
            final(self).wf(),
            final(budget).limits_of() == old(budget).limits_of(),
            spent(old(budget).usage_of(), final(budget).usage_of()),
            keeps(*old(self), *final(self)),
            final(self).stopped == old(self).stopped,
            r matches Ok(None) ==> final(self).exhausted,
            r matches Ok(Some(e)) ==> e.kind == kind_of(e.entry) && e.depth == e.entry.id.origin.steps@.len(),
            r matches Ok(Some(_)) ==> final(self).stack@.len() > 0 && progressed(entry_room(*old(budget)),
                stack_left(old(self).stack@), entry_room(*final(budget)), stack_left(final(self).stack@)),
            r matches Err(e) ==> stops_walk(e),
    {
        let ghost room0 = entry_room(*budget);
        let ghost left0 = stack_left(self.stack@);
        loop
            invariant
                room0 == entry_room(*old(budget)),
                left0 == stack_left(old(self).stack@),
                (0 <= entry_room(*budget) < room0) || (entry_room(*budget) == room0 && stack_left(self.stack@) <= left0),
                self.wf(),
                budget.limits_of() == old(budget).limits_of(),
                spent(old(budget).usage_of(), budget.usage_of()),
                keeps(*old(self), *self),
                self.stopped == old(self).stopped,
            decreases entry_room(*budget), stack_left(self.stack@),
        {
            proof {
                lemma_left_nonnegative(self.stack@);
            }
            budget.poll()?;
            if self.stack.len() == 0 {
                self.exhausted = true;
                return Ok(None);
            }
            let top = self.stack.len() - 1;
            let position = self.stack[top].position;
            let length = self.stack[top].facts.entries().len();
            if position < length {
                let ghost before = self.stack@;
                let walk = ContainerWalk {
                    facts: arc_share(&self.stack[top].facts),
                    position: position + 1,
                    descend_from: self.stack[top].descend_from,
                };
                self.stack.set(top, walk);
                proof {
                    assert forall|k: int| 0 <= k < self.stack@.len() implies walk_wf(#[trigger] self.stack@[k]) by {
                        if k < top {
                            assert(self.stack@[k] == before[k]);
                        }
                    }
                    lemma_left_update_last(before, walk);
                    lemma_left_nonnegative(self.stack@);
                    assert(walk_left(walk) == walk_left(before.last()) - 1);
                    assert(stack_left(self.stack@) == stack_left(before) - 1);
                }
                return Ok(Some(self.entry_at(position)));
            }
            let ghost room = entry_room(*budget);
            let ghost left = stack_left(self.stack@);
            match self.next_candidate() {
                Some(candidate) => {
                    let ghost mid = *budget;
                    match self.descend(candidate, budget) {
                        Ok(Some(facts)) => {
                            let ghost before = self.stack@;
                            let walk = ContainerWalk { facts: Arc::new(facts), position: 0, descend_from: 0 };
                            self.stack.push(walk);
                            proof {
                                assert forall|k: int| 0 <= k < self.stack@.len() implies walk_wf(#[trigger] self.stack@[k]) by {
                                    if k < before.len() {
                                        assert(self.stack@[k] == before[k]);
                                    }
                                }
                                assert(entry_room(*budget) < room);
                                assert(entry_room(*budget) >= 0);
                            }
                        },
                        Ok(None) => {
                            proof {
                                assert(mid.usage_of().counted(CountedBudgetDimension::EntryBytes)
                                    <= budget.usage_of().counted(CountedBudgetDimension::EntryBytes));
                                assert(entry_room(*budget) <= room);
                                assert(stack_left(self.stack@) < left);
                                lemma_left_nonnegative(self.stack@);
                            }
                        },
                        Err(e) => {
                            return Err(e);
                        },
                    }
                },
                None => {
                    let ghost before = self.stack@;
                    self.stack.pop();
                    proof {
                        assert(before.drop_last() =~= self.stack@);
                        assert(walk_wf(before[before.len() - 1]));
                        assert(stack_left(before) == stack_left(before.drop_last()) + walk_left(before.last()));
                        assert(stack_left(self.stack@) < left);
                        assert forall|k: int| 0 <= k < self.stack@.len() implies walk_wf(#[trigger] self.stack@[k]) by {
                            assert(self.stack@[k] == before[k]);
                        }
                        lemma_left_nonnegative(self.stack@);
                        assert(entry_room(*budget) == room);
                    }
                },
            }
        }
    }
}

impl EntryCursor {
    /// The containers and diagnostics the walk stated, and its coverage, as owned values.
    pub(crate) fn into_parts(self) -> (r: (Vec<ScopeContainer>, Vec<Diagnostic>, CoverageState))
        ensures
            r.0@ == self.containers_of(),
            r.1@ == self.diagnostics_of(),
            r.2 == (if self.exhausted_of() && self.complete_of() {
                CoverageState::CompleteWithinSchema
            } else {
                CoverageState::Partial
            }),
    {
        let coverage = self.coverage_state();
        (self.containers, self.diagnostics, coverage)
    }
}

/// One container of an artifact-tree report: where it is, how deep, and its entries.
#[derive(Clone, Debug, PartialEq, Eq)]
pub struct TreeContainer {
    pub origin: ContainerOrigin,
    pub depth: u64,
    pub entries: Vec<PhysicalEntry>,
}

/// Every container of a snapshot's artifact tree the walk opened, in the order a depth-first walk
/// reaches them, each with its entries in ordinal order; the subtrees it could not read are
/// named by its diagnostics.
#[derive(Clone, Debug, PartialEq, Eq)]
pub struct ArtifactTreeReport {
    pub containers: Vec<TreeContainer>,
    pub diagnostics: Vec<Diagnostic>,
    pub coverage: CoverageState,
}

impl ArtifactSnapshot {
    /// Enumerates the whole artifact tree: the walk of the artifact-tree scope pulled to its end,
    /// its entries grouped by the container that holds them.
    pub fn enumerate_artifact_tree(&self, budget: &mut Budget) -> (r: Result<ArtifactTreeReport>)
        ensures
            r matches Err(e) ==> crate::budget::honest_refusal(e, old(budget).limits_of()),
            final(budget).limits_of() == old(budget).limits_of(),
            self.kind_of() == ArtifactKind::StandaloneClass ==> r is Err,
            r matches Ok(report) ==> forall|i: int| 0 <= i < report.containers@.len()
                ==> (#[trigger] report.containers@[i]).depth == report.containers@[i].origin.steps@.len(),
            self.kind_of() == ArtifactKind::Zip ==> (r matches Err(e) ==> stops_walk(e)
                || !crate::artifact::zip_readable(self.bytes_of())),
    {
        let scope = PhysicalScope::ArtifactTree { root_container: crate::model::ContainerId(String::from_str("root")) };
        let mut cursor = self.entry_cursor(&scope)?;
        let mut yielded: Vec<ScopeEntry> = Vec::new();
        loop
            invariant
                cursor.wf(),
                cursor.snapshot_of() == *self,
                budget.limits_of() == old(budget).limits_of(),
            decreases (if cursor.unopened() { 1int } else { 0int }), entry_room(*budget), cursor.left_of(),
        {
            match cursor.next_entry(budget)? {
                Some(entry) => yielded.push(entry),
                None => break,
            }
        }
        let (reached, diagnostics, coverage) = cursor.into_parts();
        let mut containers: Vec<TreeContainer> = Vec::new();
        let mut at: usize = 0;
        let mut c: usize = 0;
        while c < reached.len()
            invariant
                at <= yielded@.len(),
                forall|i: int| 0 <= i < containers@.len()
                    ==> (#[trigger] containers@[i]).depth == containers@[i].origin.steps@.len(),
            decreases reached@.len() - c,
        {
            let container = &reached[c];
            if container.walked {
                let mut entries: Vec<PhysicalEntry> = Vec::new();
                let mut k: u64 = 0;
                while k < container.entries && at < yielded.len()
                    invariant
                        at <= yielded@.len(),
                    decreases yielded@.len() - at,
                {
                    entries.push(yielded[at].entry.duplicate());
                    at = at + 1;
                    k = k + 1;
                }
                let origin = container.origin.duplicate();
                let depth = container.origin.steps.len() as u64;
                containers.push(TreeContainer { origin, depth, entries });
            }
            c = c + 1;
        }
        Ok(ArtifactTreeReport { containers, diagnostics, coverage })
    }
}

} // verus!
