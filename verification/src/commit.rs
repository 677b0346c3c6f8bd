//! The course of a commit: what it does in which order, and what it says it
//! did. The caller talks to the repo and to the remote; the course decides.
use vstd::prelude::*;
use vstd::string::*;
use crate::drift::{Entries, TreeValue};
use crate::error::{is_invalid_scope, DotsyncError, SkippedCommitPath};
use crate::home::{home_side, take_home, Overrides};
use crate::lineage::lists_lineage;
use crate::paths::{
    all_paths, keys, lemma_sorted_value, lemma_value_at, sorted_paths, value_at, Components,
    FilePath,
};
use crate::pause::{PausedCommit, PausedRun};
use crate::repo::PushReport;
use crate::scope_graph::{
    below, below_by, is_parent, lemma_below_self, lemma_below_step, names_of, ref_views,
    ScopeGraph, ScopeView,
};
use crate::selection::{copy_paths, Selection};
use crate::sync::SyncReport;
use crate::text::{cat3, list1, same_text, texts, Text};

verus! {

/// What a commit did.
#[derive(Debug, Clone)]
pub struct CommitReport {
    pub committed_scope: String,
    /// This machine's own scope.
    pub machine_scope: String,
    /// Paths a named directory matched that this commit left alone.
    pub skipped: Vec<SkippedCommitPath>,
    pub push: PushReport,
    /// What the commit recorded, or `None` when it found nothing to record: it
    /// then wrote no history, ran no cascade and no home sync.
    pub recorded: Option<RecordedCommit>,
}

/// The half of a commit report that only exists when the commit recorded
/// something.
#[derive(Debug, Clone)]
pub struct RecordedCommit {
    /// Paths this commit put on the scope for the first time.
    pub newly_tracked: Vec<FilePath>,
    /// Paths recorded on the authority of `--force` rather than of a change
    /// made on this machine.
    pub forced_overwrites: Vec<FilePath>,
    pub sync: SyncReport,
}

/// A commit that stopped part-way, and what it had already overwritten.
#[derive(Debug)]
pub struct CommitFailure {
    pub forced_overwrites: Vec<FilePath>,
    pub error: DotsyncError,
}

impl CommitFailure {
    /// Everything that can go wrong before any history exists.
    pub fn before_history(error: DotsyncError) -> (failure: CommitFailure)
        ensures
            failure.error == error,
            failure.forced_overwrites@.len() == 0,
    {
        CommitFailure { forced_overwrites: Vec::new(), error }
    }
}

impl CommitReport {
    /// A commit that found nothing to add. It still names the scope it targeted
    /// and reports what it published on behalf of earlier runs.
    pub fn nothing_to_commit(
        scope: &str,
        machine_scope: &str,
        skipped: Vec<SkippedCommitPath>,
        push: PushReport,
    ) -> (report: CommitReport)
        ensures
            report.committed_scope@ == scope@,
            report.machine_scope@ == machine_scope@,
            report.skipped == skipped,
            report.push == push,
            report.recorded is None,
    {
        CommitReport {
            committed_scope: scope.to_owned(),
            machine_scope: machine_scope.to_owned(),
            skipped,
            push,
            recorded: None,
        }
    }
}

/// What a commit does next.
pub enum CommitState {
    /// Fetch from the remote.
    Fetch,
    /// Publish what earlier runs left behind: this commit may turn out to add
    /// nothing, and a machine with an interrupted push behind it must still
    /// heal.
    PublishPending,
    /// Decide what to record.
    Select { push: PushReport },
    /// Merge home's side into the scope.
    Merge { push: PushReport, selection: Selection },
    /// Write the commit, and cascade it.
    Record { selection: Selection },
    /// Publish it, before anything that can legitimately stop.
    Publish { selection: Selection },
    /// Bring home to this machine's scope.
    SyncHome { selection: Selection, push: PushReport },
    /// Nothing more.
    Done(Result<CommitReport, CommitFailure>),
}

/// What a commit found when it merged home's side into the scope.
pub enum MergeFound {
    /// A file that both changed differently, and the stop that presents it.
    Conflict(DotsyncError),
    /// What the scope holds already.
    Nothing,
    /// Something to record.
    Change,
}

/// How the cascade of a commit ended.
pub enum CascadeEnd {
    Completed,
    /// It met a conflict, and this is the stop that presents it.
    Paused(DotsyncError),
}

/// What happened.
pub enum CommitEvent {
    Fetched,
    /// What earlier runs left behind was published, as far as it could be.
    PendingPublished { push: PushReport },
    Selected { selection: Selection },
    Merged { found: MergeFound },
    Recorded { cascade: CascadeEnd },
    Published { push: PushReport },
    HomeSynced { sync: SyncReport },
    /// What was to be done failed.
    Failed { error: DotsyncError },
}

/// A commit as it runs.
pub struct CommitRun {
    pub scope: String,
    pub machine_scope: String,
    pub state: CommitState,
}

/// What a commit that stops here has already overwritten for good: from the
/// moment its history exists and is offered to the remote, what it forced.
pub open spec fn overwritten(state: CommitState) -> Seq<FilePath> {
    match state {
        CommitState::Publish { selection } => selection.forced_overwrites@,
        CommitState::SyncHome { selection, push } => selection.forced_overwrites@,
        _ => Seq::empty(),
    }
}

/// Whether a commit in one state has ended with an error in another.
pub open spec fn has_failed(before: CommitState, error: DotsyncError, after: CommitState) -> bool {
    match after {
        CommitState::Done(Err(failure)) => failure.error == error && failure.forced_overwrites@
            == overwritten(before),
        _ => false,
    }
}

/// Whether a commit has ended having found nothing to record.
pub open spec fn found_nothing(
    run: CommitRun,
    skipped: Seq<SkippedCommitPath>,
    push: PushReport,
    after: CommitState,
) -> bool {
    match after {
        CommitState::Done(Ok(report)) => {
            &&& report.committed_scope@ == run.scope@
            &&& report.machine_scope@ == run.machine_scope@
            &&& report.skipped@ == skipped
            &&& report.push == push
            &&& report.recorded is None
        },
        _ => false,
    }
}

/// Whether a commit has ended having recorded what was selected.
pub open spec fn has_recorded(
    run: CommitRun,
    selection: Selection,
    push: PushReport,
    sync: SyncReport,
    after: CommitState,
) -> bool {
    match after {
        CommitState::Done(Ok(report)) => {
            &&& report.committed_scope@ == run.scope@
            &&& report.machine_scope@ == run.machine_scope@
            &&& report.skipped@ == selection.skipped@
            &&& report.push == push
            &&& report.recorded matches Some(recorded) && recorded.newly_tracked@
                == selection.newly_tracked@ && recorded.forced_overwrites@
                == selection.forced_overwrites@ && recorded.sync == sync
        },
        _ => false,
    }
}

/// The course of a commit: from a state and an event to the next state. An event
/// that does not belong to a state changes nothing.
pub open spec fn steps_to(
    graph: Seq<ScopeView>,
    run: CommitRun,
    event: CommitEvent,
    after: CommitState,
) -> bool {
    match (run.state, event) {
        (CommitState::Done(result), _) => after == run.state,
        (state, CommitEvent::Failed { error }) => has_failed(state, error, after),
        (CommitState::Fetch, CommitEvent::Fetched) => after == CommitState::PublishPending,
        (CommitState::PublishPending, CommitEvent::PendingPublished { push }) => if names_of(
            graph,
        ).contains(run.scope@) {
            after == (CommitState::Select { push })
        } else {
            match after {
                CommitState::Done(Err(failure)) => is_invalid_scope(failure.error, run.scope@)
                    && failure.forced_overwrites@.len() == 0,
                _ => false,
            }
        },
        (CommitState::Select { push }, CommitEvent::Selected { selection }) => if selection.paths@.len()
            == 0 {
            found_nothing(run, selection.skipped@, push, after)
        } else {
            after == (CommitState::Merge { push, selection })
        },
        (CommitState::Merge { push, selection }, CommitEvent::Merged { found }) => match found {
            MergeFound::Conflict(error) => has_failed(run.state, error, after),
            MergeFound::Nothing => found_nothing(run, selection.skipped@, push, after),
            MergeFound::Change => after == (CommitState::Record { selection }),
        },
        (CommitState::Record { selection }, CommitEvent::Recorded { cascade }) => match cascade {
            CascadeEnd::Completed => after == (CommitState::Publish { selection }),
            CascadeEnd::Paused(error) => has_failed(run.state, error, after),
        },
        (CommitState::Publish { selection }, CommitEvent::Published { push }) => after == (
        CommitState::SyncHome { selection, push }),
        (
            CommitState::SyncHome { selection, push },
            CommitEvent::HomeSynced { sync },
        ) => has_recorded(run, selection, push, sync, after),
        _ => after == run.state,
    }
}

impl CommitRun {
    /// A commit that has done nothing yet.
    pub fn start(scope: String, machine_scope: String) -> (run: CommitRun)
        ensures
            run.scope == scope,
            run.machine_scope == machine_scope,
            run.state is Fetch,
    {
        CommitRun { scope, machine_scope, state: CommitState::Fetch }
    }

    fn failed(state: CommitState, error: DotsyncError) -> (after: CommitState)
        ensures
            has_failed(state, error, after),
    {
        let forced_overwrites = match state {
            CommitState::Publish { selection } => selection.forced_overwrites,
            CommitState::SyncHome { selection, push } => selection.forced_overwrites,
            _ => {
                let none: Vec<FilePath> = Vec::new();
                proof {
                    assert(none@ =~= Seq::<FilePath>::empty());
                }
                none
            },
        };
        CommitState::Done(Err(CommitFailure { forced_overwrites, error }))
    }

    /// The commit after something happened.
    pub fn step(self, graph: &ScopeGraph, event: CommitEvent) -> (after: CommitRun)
        ensures
            after.scope == self.scope,
            after.machine_scope == self.machine_scope,
            steps_to(graph@, self, event, after.state),
    {
        let scope = self.scope;
        let machine_scope = self.machine_scope;
        let state = match (self.state, event) {
            (CommitState::Done(result), _) => CommitState::Done(result),
            (state, CommitEvent::Failed { error }) => CommitRun::failed(state, error),
            (CommitState::Fetch, CommitEvent::Fetched) => CommitState::PublishPending,
            (CommitState::PublishPending, CommitEvent::PendingPublished { push }) => {
                if graph.contains(scope.as_str()) {
                    CommitState::Select { push }
                } else {
                    CommitState::Done(
                        Err(
                            CommitFailure::before_history(
                                DotsyncError::InvalidScope { scope: scope.clone() },
                            ),
                        ),
                    )
                }
            },
            (CommitState::Select { push }, CommitEvent::Selected { selection }) => {
                if selection.paths.is_empty() {
                    CommitState::Done(
                        Ok(
                            CommitReport::nothing_to_commit(
                                scope.as_str(),
                                machine_scope.as_str(),
                                selection.skipped,
                                push,
                            ),
                        ),
                    )
                } else {
                    CommitState::Merge { push, selection }
                }
            },
            (CommitState::Merge { push, selection }, CommitEvent::Merged { found }) => match found {
                MergeFound::Conflict(error) => CommitRun::failed(
                    CommitState::Merge { push, selection },
                    error,
                ),
                MergeFound::Nothing => CommitState::Done(
                    Ok(
                        CommitReport::nothing_to_commit(
                            scope.as_str(),
                            machine_scope.as_str(),
                            selection.skipped,
                            push,
                        ),
                    ),
                ),
                MergeFound::Change => CommitState::Record { selection },
            },
            (CommitState::Record { selection }, CommitEvent::Recorded { cascade }) => match cascade {
                CascadeEnd::Completed => CommitState::Publish { selection },
                CascadeEnd::Paused(error) => CommitRun::failed(
                    CommitState::Record { selection },
                    error,
                ),
            },
            (CommitState::Publish { selection }, CommitEvent::Published { push }) => {
                CommitState::SyncHome { selection, push }
            },
            (CommitState::SyncHome { selection, push }, CommitEvent::HomeSynced { sync }) => {
                CommitState::Done(
                    Ok(
                        CommitReport {
                            committed_scope: scope.clone(),
                            machine_scope: machine_scope.clone(),
                            skipped: selection.skipped,
                            push,
                            recorded: Some(
                                RecordedCommit {
                                    newly_tracked: selection.newly_tracked,
                                    forced_overwrites: selection.forced_overwrites,
                                    sync,
                                },
                            ),
                        },
                    ),
                )
            },
            (state, _) => state,
        };
        CommitRun { scope, machine_scope, state }
    }
}

/// Ends a commit at the home boundary whichever way it went: its own failure
/// wins over a failure to persist.
pub fn commit_finishing(
    outcome: Result<CommitReport, CommitFailure>,
    persisted: Result<(), DotsyncError>,
) -> (ended: Result<CommitReport, CommitFailure>)
    ensures
        match (outcome, persisted) {
            (Ok(report), Err(error)) => match ended {
                Err(failure) => failure.error == error && failure.forced_overwrites@.len() == 0,
                Ok(_) => false,
            },
            _ => ended == outcome,
        },
{
    match outcome {
        Err(failure) => Err(failure),
        Ok(report) => match persisted {
            Ok(_) => Ok(report),
            Err(error) => Err(CommitFailure::before_history(error)),
        },
    }
}

/// A commit that overwrote something for good says so however it ends: by the
/// time it publishes, every failure carries what was forced.
pub proof fn law_a_late_stop_names_what_was_forced(
    graph: Seq<ScopeView>,
    run: CommitRun,
    event: CommitEvent,
    after: CommitState,
)
    requires
        steps_to(graph, run, event, after),
        run.state is Publish || run.state is SyncHome,
        after is Done,
    ensures
        match after {
            CommitState::Done(Err(failure)) => failure.forced_overwrites@ == overwritten(run.state),
            CommitState::Done(Ok(report)) => match report.recorded {
                Some(recorded) => recorded.forced_overwrites@ == overwritten(run.state),
                None => false,
            },
            _ => false,
        },
{
}

/// Home is synced only after the commit was published, and published only after
/// its cascade completed.
pub proof fn law_history_is_published_before_home_moves(
    graph: Seq<ScopeView>,
    run: CommitRun,
    event: CommitEvent,
    after: CommitState,
)
    requires
        steps_to(graph, run, event, after),
    ensures
        after is SyncHome && !(run.state is SyncHome) ==> run.state is Publish
            && event is Published,
        after is Publish && !(run.state is Publish) ==> run.state is Record && match event {
            CommitEvent::Recorded { cascade } => cascade is Completed,
            _ => false,
        },
        after is Record && !(run.state is Record) ==> run.state is Merge && match event {
            CommitEvent::Merged { found } => found is Change,
            _ => false,
        },
{
}

/// A commit that found nothing to record ends before it writes anything.
pub proof fn law_nothing_to_record_writes_nothing(
    graph: Seq<ScopeView>,
    run: CommitRun,
    event: CommitEvent,
    after: CommitState,
)
    requires
        steps_to(graph, run, event, after),
        !(run.state is Done),
        match after {
            CommitState::Done(Ok(report)) => report.recorded is None,
            _ => false,
        },
    ensures
        run.state is Select || run.state is Merge,
{
}

/// Whether a scope is another or above it.
pub open spec fn is_at_or_above(graph: Seq<ScopeView>, upper: Text, lower: Text) -> bool {
    upper == lower || below(graph, upper, lower)
}

/// Whether what is recorded on `ancestor` reaches `scope`.
pub fn scope_is_ancestor_or_self(graph: &ScopeGraph, ancestor: &str, scope: &str) -> (found: bool)
    ensures
        found == is_at_or_above(graph@, ancestor@, scope@),
{
    if same_text(ancestor, scope) {
        return true;
    }
    let above = graph.ancestors_and_self(scope);
    let ghost names = names_of(ref_views(above@));
    let mut i: usize = 0;
    while i < above.len()
        invariant
            i <= above.len(),
            ancestor@ != scope@,
            names == names_of(ref_views(above@)),
            lists_lineage(graph@, scope@, names),
            forall|j: int| 0 <= j < i ==> names[j] != ancestor@,
        decreases above.len() - i,
    {
        proof {
            assert(names[i as int] == above@[i as int]@.name);
        }
        if same_text(above[i].name.as_str(), ancestor) {
            proof {
                assert(names.contains(ancestor@));
            }
            return true;
        }
        i += 1;
    }
    proof {
        assert(names.len() == above.len());
        assert(!names.contains(ancestor@));
        if below(graph@, ancestor@, scope@) {
            crate::lineage::lemma_below_is_in(graph@, ancestor@, scope@);
        }
    }
    false
}

/// The tree a home edit is a change against.
pub enum MergeBase {
    /// The scope's own head: home was never derived from it.
    ScopeHead,
    /// The merge of these commits, the version of the scope that home was
    /// derived from.
    Ancestors(Vec<String>),
}

/// The tree a home edit is a change against.
pub open spec fn base_of(cascades_into_home: bool, common: Vec<String>) -> MergeBase {
    if !cascades_into_home || common@.len() == 0 {
        MergeBase::ScopeHead
    } else {
        MergeBase::Ancestors(common)
    }
}

/// A home that is derived from the scope is compared with all that the two had in
/// common when it was last synced, and only a home that never had a version of
/// the scope with the scope's own head.
pub proof fn law_an_edit_is_against_what_home_had(cascades_into_home: bool, common: Vec<String>)
    ensures
        cascades_into_home && common@.len() > 0 <==> base_of(cascades_into_home, common)
            is Ancestors,
        base_of(cascades_into_home, common) matches MergeBase::Ancestors(commits) ==> commits
            == common,
{
}

/// The tree a home edit is a change against: the scope as it stood when this
/// machine last synced, or its own head where this home never had a version of
/// it. `common` are the common ancestors of the head and the last sync.
pub fn merge_base(cascades_into_home: bool, common: Vec<String>) -> (base: MergeBase)
    ensures
        base == base_of(cascades_into_home, common),
{
    if !cascades_into_home || common.is_empty() {
        MergeBase::ScopeHead
    } else {
        MergeBase::Ancestors(common)
    }
}

/// What a commit lays over trees: home's side of what it records over the tree
/// its edit is a change against, and, once that is merged with the scope's head,
/// home's side of what it forces over the merge.
pub struct CommitOverlays {
    pub over_base: Overrides,
    pub over_merge: Overrides,
}

/// Whether home's side of what a commit records is laid over the tree its edit is
/// a change against, and home's side of what it forces over the merge.
pub open spec fn overlays_home(
    selection: Selection,
    snapshot: Seq<(FilePath, TreeValue)>,
    overlays: CommitOverlays,
) -> bool {
    &&& overlays.over_base@ == home_side(selection.paths@, snapshot)
    &&& overlays.over_merge@ == home_side(selection.forced_paths@, snapshot)
}

/// What a commit lays over the trees it merges.
pub fn commit_overlays(selection: &Selection, snapshot: &Entries) -> (overlays: CommitOverlays)
    ensures
        overlays_home(*selection, snapshot@, overlays),
{
    CommitOverlays {
        over_base: take_home(&selection.paths, snapshot),
        over_merge: take_home(&selection.forced_paths, snapshot),
    }
}

/// What a path holds once values are laid over a tree that holds `under` there.
pub open spec fn laid_over(
    under: Option<TreeValue>,
    overrides: Seq<(FilePath, Option<TreeValue>)>,
    path: Components,
) -> Option<TreeValue>
    decreases overrides.len(),
{
    if overrides.len() == 0 {
        under
    } else if overrides.last().0@ == path {
        overrides.last().1
    } else {
        laid_over(under, overrides.drop_last(), path)
    }
}

proof fn lemma_laid_over(
    under: Option<TreeValue>,
    paths: Seq<FilePath>,
    snapshot: Seq<(FilePath, TreeValue)>,
    path: Components,
)
    ensures
        laid_over(under, home_side(paths, snapshot), path) == if all_paths(paths).contains(path) {
            value_at(snapshot, path)
        } else {
            under
        },
    decreases paths.len(),
{
    let listed = all_paths(paths);
    if paths.len() > 0 {
        let front = paths.drop_last();
        let overrides = home_side(paths, snapshot);
        assert(overrides.drop_last() =~= home_side(front, snapshot));
        lemma_laid_over(under, front, snapshot, path);
        assert(listed =~= all_paths(front).push(paths.last()@));
        if all_paths(front).contains(path) {
            let k = choose|k: int| 0 <= k < front.len() && all_paths(front)[k] == path;
            assert(listed[k] == path);
        }
        if paths.last()@ == path {
            assert(listed[paths.len() - 1] == path);
        } else if listed.contains(path) {
            let k = choose|k: int| 0 <= k < listed.len() && listed[k] == path;
            assert(all_paths(front)[k] == path);
        }
    }
}

/// Home wins at what a commit forces, whatever the merge came to, and the merge
/// stands everywhere else.
pub proof fn law_home_wins_where_it_is_forced(
    merged: Option<TreeValue>,
    forced: Seq<FilePath>,
    snapshot: Seq<(FilePath, TreeValue)>,
    path: Components,
)
    ensures
        laid_over(merged, home_side(forced, snapshot), path) == if all_paths(forced).contains(
            path,
        ) {
            value_at(snapshot, path)
        } else {
            merged
        },
{
    lemma_laid_over(merged, forced, snapshot, path);
}

/// A commit changes nothing at a path it does not record: its own side of the
/// merge holds there what the edit is a change against.
pub proof fn law_a_commit_edits_only_what_it_records(
    base: Option<TreeValue>,
    recorded: Seq<FilePath>,
    snapshot: Seq<(FilePath, TreeValue)>,
    path: Components,
)
    requires
        !all_paths(recorded).contains(path),
    ensures
        laid_over(base, home_side(recorded, snapshot), path) == base,
{
    lemma_laid_over(base, recorded, snapshot, path);
}

/// What a commit records at a path is what home holds there, and nothing where
/// home holds nothing: a deletion is recorded like any other change. At a path it
/// does not record its own side of the merge holds what was there, and only where
/// it forces a path does home win over the merge.
pub proof fn law_a_commit_records_what_home_holds(
    selection: Selection,
    snapshot: Seq<(FilePath, TreeValue)>,
    overlays: CommitOverlays,
    base: Option<TreeValue>,
    merged: Option<TreeValue>,
    path: Components,
)
    requires
        overlays_home(selection, snapshot, overlays),
        sorted_paths(keys(snapshot)),
    ensures
        ({
            let recorded = exists|k: int|
                0 <= k < selection.paths@.len() && (#[trigger] selection.paths@[k])@ == path;
            let forced = exists|k: int|
                0 <= k < selection.forced_paths@.len() && (
                #[trigger] selection.forced_paths@[k])@ == path;
            &&& forall|i: int|
                0 <= i < snapshot.len() && (#[trigger] snapshot[i]).0@ == path ==> {
                    &&& recorded ==> laid_over(base, overlays.over_base@, path) == Some(
                        snapshot[i].1,
                    )
                    &&& forced ==> laid_over(merged, overlays.over_merge@, path) == Some(
                        snapshot[i].1,
                    )
                }
            &&& (forall|i: int| 0 <= i < snapshot.len() ==> (#[trigger] snapshot[i]).0@ != path)
                ==> {
                &&& recorded ==> laid_over(base, overlays.over_base@, path) is None
                &&& forced ==> laid_over(merged, overlays.over_merge@, path) is None
            }
            &&& !recorded ==> laid_over(base, overlays.over_base@, path) == base
            &&& !forced ==> laid_over(merged, overlays.over_merge@, path) == merged
        }),
{
    law_home_wins_where_it_is_forced(base, selection.paths@, snapshot, path);
    law_home_wins_where_it_is_forced(merged, selection.forced_paths@, snapshot, path);
    lemma_listed(selection.paths@, path);
    lemma_listed(selection.forced_paths@, path);
    lemma_value_at(snapshot, path);
    assert forall|i: int| 0 <= i < snapshot.len() && (#[trigger] snapshot[i]).0@ == path implies value_at(
        snapshot,
        path,
    ) == Some(snapshot[i].1) by {
        lemma_sorted_value(snapshot, i);
    }
}

proof fn lemma_listed(list: Seq<FilePath>, path: Components)
    ensures
        all_paths(list).contains(path) <==> exists|k: int|
            0 <= k < list.len() && (#[trigger] list[k])@ == path,
{
    if all_paths(list).contains(path) {
        let k = choose|k: int| 0 <= k < list.len() && all_paths(list)[k] == path;
        assert(list[k]@ == path);
    }
    if exists|k: int| 0 <= k < list.len() && (#[trigger] list[k])@ == path {
        let k = choose|k: int| 0 <= k < list.len() && (#[trigger] list[k])@ == path;
        assert(all_paths(list)[k] == path);
    }
}

/// A commit goes one step at a time: it fetches, publishes what earlier runs left
/// behind, selects, merges, records and cascades, publishes and then syncs home,
/// and it reports what came of each. It ends early only where its scope is not in
/// the graph, where there is nothing to record, or where something stops it.
pub proof fn law_a_commit_goes_step_by_step(
    graph: Seq<ScopeView>,
    run: CommitRun,
    event: CommitEvent,
    after: CommitState,
)
    requires
        steps_to(graph, run, event, after),
    ensures
        run.state is Fetch && event is Fetched ==> after is PublishPending,
        run.state is PublishPending ==> (event matches CommitEvent::PendingPublished { push } ==> {
            let known = exists|j: int| 0 <= j < graph.len() && (#[trigger] graph[j]).name
                == run.scope@;
            &&& known ==> after == (CommitState::Select { push })
            &&& !known ==> (after matches CommitState::Done(Err(failure)) && (
            failure.error matches DotsyncError::InvalidScope { scope } && scope@ == run.scope@))
        }),
        run.state matches CommitState::Select { push } ==> (event matches CommitEvent::Selected {
            selection,
        } ==> {
            &&& selection.paths@.len() > 0 ==> after == (CommitState::Merge { push, selection })
            &&& selection.paths@.len() == 0 ==> (after matches CommitState::Done(Ok(report))
                && report.recorded is None && report.push == push && report.skipped@
                == selection.skipped@ && report.committed_scope@ == run.scope@)
        }),
        run.state matches CommitState::Merge { push, selection } ==> (event
            matches CommitEvent::Merged { found } ==> {
            &&& found is Change ==> after == (CommitState::Record { selection })
            &&& found is Nothing ==> (after matches CommitState::Done(Ok(report))
                && report.recorded is None && report.push == push && report.skipped@
                == selection.skipped@)
            &&& found matches MergeFound::Conflict(error) ==> (after matches CommitState::Done(
                Err(failure),
            ) && failure.error == error)
        }),
        run.state matches CommitState::Record { selection } ==> (event
            matches CommitEvent::Recorded { cascade } ==> {
            &&& cascade is Completed ==> after == (CommitState::Publish { selection })
            &&& cascade matches CascadeEnd::Paused(error) ==> (after matches CommitState::Done(
                Err(failure),
            ) && failure.error == error)
        }),
        run.state matches CommitState::Publish { selection } ==> (event
            matches CommitEvent::Published { push } ==> after == (CommitState::SyncHome {
            selection,
            push,
        })),
        run.state matches CommitState::SyncHome { selection, push } ==> (event
            matches CommitEvent::HomeSynced { sync } ==> (after matches CommitState::Done(
            Ok(report),
        ) && report.push == push && report.skipped@ == selection.skipped@
            && report.committed_scope@ == run.scope@ && report.machine_scope@ == run.machine_scope@
            && (report.recorded matches Some(recorded) && recorded.sync == sync
            && recorded.newly_tracked@ == selection.newly_tracked@ && recorded.forced_overwrites@
            == selection.forced_overwrites@))),
        !(run.state is Done) ==> (event matches CommitEvent::Failed { error } ==> (after
            matches CommitState::Done(Err(failure)) && failure.error == error)),
        run.state matches CommitState::Publish { selection } ==> (after matches CommitState::Done(
            Err(failure),
        ) ==> failure.forced_overwrites@ == selection.forced_overwrites@),
        run.state matches CommitState::SyncHome { selection, push } ==> (after
            matches CommitState::Done(Err(failure)) ==> failure.forced_overwrites@
            == selection.forced_overwrites@),
{
    if run.state is PublishPending {
        let known = exists|j: int| 0 <= j < graph.len() && (#[trigger] graph[j]).name == run.scope@;
        if known {
            let j = choose|j: int| 0 <= j < graph.len() && (#[trigger] graph[j]).name == run.scope@;
            assert(names_of(graph)[j] == run.scope@);
        }
        if names_of(graph).contains(run.scope@) {
            let j = choose|j: int| 0 <= j < graph.len() && names_of(graph)[j] == run.scope@;
            assert(graph[j].name == run.scope@);
        }
    }
}

/// A commit that is to be written: on top of which commits, and with which words.
pub struct CommitWrite {
    pub parents: Vec<String>,
    pub description: String,
}

/// The commit that records a change on a scope: on top of the scope's head alone,
/// under the message it was given. `head` is the head the change was merged into.
pub fn commit_write(head: &str, message: &str) -> (write: CommitWrite)
    ensures
        texts(write.parents@) == seq![head@],
        write.description@ == message@,
{
    let parents = list1(head.to_owned());
    CommitWrite { parents, description: message.to_owned() }
}

/// What the merge of a commit came to.
pub open spec fn found_by(
    conflict: Option<DotsyncError>,
    merged_tree: Text,
    head_tree: Text,
) -> MergeFound {
    match conflict {
        Some(error) => MergeFound::Conflict(error),
        None => if merged_tree == head_tree {
            MergeFound::Nothing
        } else {
            MergeFound::Change
        },
    }
}

/// A commit has something to record exactly where its merge resolved to another
/// tree than the scope's head is, and a conflict is never recorded.
pub proof fn law_a_commit_records_what_changes_the_scope(
    conflict: Option<DotsyncError>,
    merged_tree: Text,
    head_tree: Text,
)
    ensures
        found_by(conflict, merged_tree, head_tree) is Change <==> conflict is None && merged_tree
            != head_tree,
        found_by(conflict, merged_tree, head_tree) is Nothing <==> conflict is None && merged_tree
            == head_tree,
        found_by(conflict, merged_tree, head_tree) matches MergeFound::Conflict(error) ==> conflict
            == Some(error),
{
}

/// What is recorded on a scope reaches the scope itself and everything below it.
pub proof fn law_a_scope_is_reached_from_itself_and_above(
    graph: Seq<ScopeView>,
    upper: Text,
    lower: Text,
)
    ensures
        is_at_or_above(graph, lower, lower),
        is_parent(graph, upper, lower) ==> is_at_or_above(graph, upper, lower),
        forall|between: Text|
            is_at_or_above(graph, upper, between) && #[trigger] is_parent(graph, between, lower)
                ==> is_at_or_above(graph, upper, lower),
        is_at_or_above(graph, upper, lower) && upper != lower ==> below(graph, upper, lower),
{
    if is_parent(graph, upper, lower) {
        lemma_below_self(graph, upper);
        lemma_below_step(graph, upper, upper, lower, 0);
    }
    assert forall|between: Text|
        is_at_or_above(graph, upper, between) && #[trigger] is_parent(
            graph,
            between,
            lower,
        ) implies is_at_or_above(graph, upper, lower) by {
        lemma_below_self(graph, upper);
        if upper == between {
            lemma_below_step(graph, upper, upper, lower, 0);
        } else {
            let steps = choose|steps: nat|
                steps > 0 && #[trigger] below_by(graph, upper, between, steps);
            lemma_below_step(graph, upper, between, lower, steps);
        }
    }
}

/// What the merge of a commit came to: `conflict` is the stop that presents the
/// conflicts it holds, and the trees are those that it and the scope's head are.
pub fn merge_found(
    conflict: Option<DotsyncError>,
    merged_tree: &str,
    head_tree: &str,
) -> (found: MergeFound)
    ensures
        found == found_by(conflict, merged_tree@, head_tree@),
{
    match conflict {
        Some(error) => MergeFound::Conflict(error),
        None => if same_text(merged_tree, head_tree) {
            MergeFound::Nothing
        } else {
            MergeFound::Change
        },
    }
}

pub const COMMIT_BASE_LABEL: &'static str = "the state this machine last synced";

pub const COMMIT_HOME_LABEL: &'static str = "your home edit";

/// What the scope's side of a commit's merge is called.
pub fn commit_scope_label(scope: &str) -> (label: String)
    ensures
        label@ == "scope `"@ + scope@ + "`"@,
{
    cat3("scope `", scope, "`")
}

/// The record of a commit that stopped in its own merge.
pub fn paused_commit_record(
    machine_scope: &str,
    scope: &str,
    message: &str,
    parent_commit_id: &str,
    conflicted: &Vec<FilePath>,
    checkpoint: Vec<(String, String)>,
) -> (run: PausedRun)
    ensures
        run.checkpoint == checkpoint,
        match run.paused_commit {
            Some(paused) => {
                &&& paused.machine_scope@ == machine_scope@
                &&& paused.scope@ == scope@
                &&& paused.message@ == message@
                &&& paused.parent_commit_id@ == parent_commit_id@
                &&& paused.conflicted_paths@ == conflicted@
            },
            None => false,
        },
{
    PausedRun {
        checkpoint,
        paused_commit: Some(
            PausedCommit {
                machine_scope: machine_scope.to_owned(),
                scope: scope.to_owned(),
                message: message.to_owned(),
                parent_commit_id: parent_commit_id.to_owned(),
                conflicted_paths: copy_paths(conflicted),
            },
        ),
    }
}

} // verus!
