//! The stop that presents a conflict of the pass, and the course of publishing,
//! of `continue` and of `abort`: what they do in which order. The caller talks
//! to the repo, to the remote and to home.
use vstd::prelude::*;
use vstd::string::*;
use crate::converge::{checkpoint_of, lost_a_race, push_again, PUSH_ATTEMPTS};
use crate::drift::{ClassifiedPath, Entries, FileState, StateGroup, TreeValue};
use crate::error::{
    file_views, version_views, ConflictedFile, ConflictedFileView, ConflictedVersion, DotsyncError,
};
use crate::order::lemma_ascending_no_duplicates;
use crate::pass::{head_in, lemma_with_head, with_head, HeadsView};
use crate::paths::FilePath;
use crate::pause::{
    borrowed_from, on_the_way_down, AbortPlan, AbortReport, ContinueReport, Resumed,
};
use crate::repo::{head_of, one_commit, Head, HeadView, PushReport};
use crate::scope_graph::{below, graph_wf, names_of, ScopeGraph, ScopeView};
use crate::seqs::{lemma_filter_holds, lemma_filter_keeps_order};
use crate::sync::{
    file_changes, group_changes, is_classified, lemma_group_changes, FileChange, SyncReport,
};
use crate::sync_run::entry_paths;
use crate::text::{opt_text, Text};

verus! {

/// A file that a merge stopped on, without where it stands: the merge is not
/// home's.
pub open spec fn stopped_file(entry: (FilePath, Vec<ConflictedVersion>)) -> ConflictedFileView {
    ConflictedFileView {
        path: entry.0.text@,
        state: None,
        versions: version_views(entry.1@),
    }
}

/// Whether an error puts a conflicted merge of the pass in front of whoever has to
/// resolve it.
pub open spec fn presents(
    graph: Seq<ScopeView>,
    machine_scope: Text,
    paused_scope: Text,
    conflicted: Seq<(FilePath, Vec<ConflictedVersion>)>,
    error: DotsyncError,
) -> bool {
    match error {
        DotsyncError::CascadePaused { scope, borrowed_from, files } => {
            &&& scope@ == paused_scope
            &&& opt_text(borrowed_from) == if on_the_way_down(
                graph,
                machine_scope,
                paused_scope,
            ) {
                None
            } else {
                Some(machine_scope)
            }
            &&& file_views(files@) == conflicted.map_values(
                |e: (FilePath, Vec<ConflictedVersion>)| stopped_file(e),
            )
        },
        _ => false,
    }
}

/// A paused merge is presented whole: every conflicted file, in order, with every
/// version of it. It says that home is borrowed exactly where the paused scope is
/// neither this machine's nor above it.
pub proof fn law_a_paused_merge_is_presented_whole(
    graph: Seq<ScopeView>,
    machine_scope: Text,
    paused_scope: Text,
    conflicted: Seq<(FilePath, Vec<ConflictedVersion>)>,
    error: DotsyncError,
)
    requires
        presents(graph, machine_scope, paused_scope, conflicted, error),
    ensures
        error matches DotsyncError::CascadePaused { scope, borrowed_from, files } && scope@
            == paused_scope && files@.len() == conflicted.len() && (forall|k: int|
            0 <= k < conflicted.len() ==> (#[trigger] files@[k]).path.text@ == conflicted[k].0.text@
                && version_views(files@[k].versions@) == version_views(conflicted[k].1@)) && (
        names_of(graph).contains(machine_scope) && paused_scope == machine_scope
            ==> borrowed_from is None) && (names_of(graph).contains(machine_scope) && below(
            graph,
            paused_scope,
            machine_scope,
        ) ==> borrowed_from is None) && (paused_scope != machine_scope && !below(
            graph,
            paused_scope,
            machine_scope,
        ) ==> (borrowed_from matches Some(from) && from@ == machine_scope)),
{
    let files = error->CascadePaused_files;
    let wanted = conflicted.map_values(
        |e: (FilePath, Vec<ConflictedVersion>)| stopped_file(e),
    );
    assert(file_views(files@).len() == files@.len());
    assert(wanted.len() == conflicted.len());
    assert forall|k: int| 0 <= k < conflicted.len() implies (#[trigger] files@[k]).path.text@
        == conflicted[k].0.text@ && version_views(files@[k].versions@) == version_views(
        conflicted[k].1@,
    ) by {
        assert(file_views(files@)[k] == files@[k]@);
        assert(wanted[k] == stopped_file(conflicted[k]));
    }
}

/// The stop that puts a conflicted merge of the pass in front of whoever has to
/// resolve it: every conflicted file, with every version of it.
pub fn present(
    graph: &ScopeGraph,
    machine_scope: &str,
    paused_scope: &str,
    conflicted: Vec<(FilePath, Vec<ConflictedVersion>)>,
) -> (error: DotsyncError)
    ensures
        presents(graph@, machine_scope@, paused_scope@, conflicted@, error),
{
    let ghost wanted = conflicted@.map_values(
        |e: (FilePath, Vec<ConflictedVersion>)| stopped_file(e),
    );
    let ghost count = conflicted@.len();
    let mut files: Vec<ConflictedFile> = Vec::new();
    for (path, versions) in it: conflicted
        invariant
            wanted.len() == count,
            it.seq().len() == count,
            forall|j: int| 0 <= j < count ==> #[trigger] wanted[j] == stopped_file(it.seq()[j]),
            files.len() == it.index@,
            forall|j: int| 0 <= j < it.index@ ==> (#[trigger] files@[j])@ == wanted[j],
    {
        files.push(ConflictedFile { path, state: None, versions });
    }
    proof {
        assert(file_views(files@) =~= wanted);
    }
    DotsyncError::CascadePaused {
        scope: paused_scope.to_owned(),
        borrowed_from: borrowed_from(graph, machine_scope, paused_scope),
        files,
    }
}

/// What a `continue` that ended a conflict between home and this machine's scope
/// reports: nothing was destroyed, and the resolution stays an uncommitted
/// change in home.
pub open spec fn reports_sync_conflict(
    report: ContinueReport,
    machine_scope: Text,
    head: Seq<(FilePath, TreeValue)>,
    classified: Seq<(FilePath, ClassifiedPath)>,
    push: PushReport,
) -> bool {
    &&& report.resumed is SyncConflict
    &&& report.push == push
    &&& report.sync.current_scope@ == machine_scope
    &&& report.sync.synced_paths@ == head.map_values(|e: (FilePath, TreeValue)| e.0)
    &&& report.sync.drifts@.len() == 0
    &&& report.sync.carried_changes@ == group_changes(classified, StateGroup::Drift)
}

/// What a `continue` that ended a conflict between home and this machine's scope
/// reports.
pub fn sync_conflict_report(
    machine_scope: &str,
    head: &Entries,
    classified: &Vec<(FilePath, ClassifiedPath)>,
    push: PushReport,
) -> (report: ContinueReport)
    ensures
        reports_sync_conflict(report, machine_scope@, head@, classified@, push),
{
    let sync = SyncReport {
        current_scope: machine_scope.to_owned(),
        synced_paths: entry_paths(head),
        drifts: Vec::new(),
        carried_changes: file_changes(classified, StateGroup::Drift),
    };
    ContinueReport { resumed: Resumed::SyncConflict, sync, push }
}

/// What a `continue` with no merge paused does next.
pub enum SyncConflictState {
    /// Move home to this machine's head, with home's own bytes as the resolution
    /// of every path the merge stops on.
    TakeHome,
    /// Send what other machines do not have yet.
    Publish,
    /// See where every file stands against the head.
    Classify { push: PushReport },
    Done(Result<ContinueReport, DotsyncError>),
}

/// What happened.
pub enum SyncConflictEvent {
    /// Home was taken, where there was anything to resolve.
    HomeTaken { resolved: bool },
    Published { push: PushReport },
    Classified { head: Entries, classified: Vec<(FilePath, ClassifiedPath)> },
    /// What was to be done failed, or what arrived held a conflict.
    Failed { error: DotsyncError },
}

/// A `continue` that ends a conflict between home and this machine's scope, as it
/// runs.
pub struct SyncConflictRun {
    pub machine_scope: String,
    pub state: SyncConflictState,
}

/// The course of such a `continue`. Where nothing is to be resolved, nothing was
/// paused. An event that does not belong to a state changes nothing.
pub open spec fn settles_to(
    run: SyncConflictRun,
    event: SyncConflictEvent,
    after: SyncConflictState,
) -> bool {
    match (run.state, event) {
        (SyncConflictState::Done(result), _) => after == run.state,
        (_, SyncConflictEvent::Failed { error }) => after == SyncConflictState::Done(
            Err::<ContinueReport, DotsyncError>(error),
        ),
        (SyncConflictState::TakeHome, SyncConflictEvent::HomeTaken { resolved }) => if resolved {
            after is Publish
        } else {
            after == SyncConflictState::Done(
                Err::<ContinueReport, DotsyncError>(DotsyncError::NoPausedCascade),
            )
        },
        (SyncConflictState::Publish, SyncConflictEvent::Published { push }) => after == (
        SyncConflictState::Classify { push }),
        (
            SyncConflictState::Classify { push },
            SyncConflictEvent::Classified { head, classified },
        ) => match after {
            SyncConflictState::Done(Ok(report)) => reports_sync_conflict(
                report,
                run.machine_scope@,
                head@,
                classified@,
                push,
            ),
            _ => false,
        },
        _ => after == run.state,
    }
}

impl SyncConflictRun {
    /// A `continue` that has done nothing yet.
    pub fn start(machine_scope: String) -> (run: SyncConflictRun)
        ensures
            run.machine_scope == machine_scope,
            run.state is TakeHome,
    {
        SyncConflictRun { machine_scope, state: SyncConflictState::TakeHome }
    }

    /// The `continue` after something happened.
    pub fn step(self, event: SyncConflictEvent) -> (after: SyncConflictRun)
        ensures
            after.machine_scope == self.machine_scope,
            settles_to(self, event, after.state),
    {
        let machine_scope = self.machine_scope;
        let state = match (self.state, event) {
            (SyncConflictState::Done(result), _) => SyncConflictState::Done(result),
            (_, SyncConflictEvent::Failed { error }) => SyncConflictState::Done(Err(error)),
            (SyncConflictState::TakeHome, SyncConflictEvent::HomeTaken { resolved }) => {
                if resolved {
                    SyncConflictState::Publish
                } else {
                    SyncConflictState::Done(Err(DotsyncError::NoPausedCascade))
                }
            },
            (SyncConflictState::Publish, SyncConflictEvent::Published { push }) => {
                SyncConflictState::Classify { push }
            },
            (
                SyncConflictState::Classify { push },
                SyncConflictEvent::Classified { head, classified },
            ) => SyncConflictState::Done(
                Ok(sync_conflict_report(machine_scope.as_str(), &head, &classified, push)),
            ),
            (state, _) => state,
        };
        SyncConflictRun { machine_scope, state }
    }
}

/// Nothing is published until home's side of a conflict was taken, and a
/// `continue` that finds nothing to resolve says that nothing was paused.
pub proof fn law_only_a_resolved_conflict_is_published(
    run: SyncConflictRun,
    event: SyncConflictEvent,
    after: SyncConflictState,
)
    requires
        run.state is TakeHome,
        settles_to(run, event, after),
    ensures
        after is Publish <==> event == (SyncConflictEvent::HomeTaken { resolved: true }),
        event == (SyncConflictEvent::HomeTaken { resolved: false }) ==> after
            == SyncConflictState::Done(
            Err::<ContinueReport, DotsyncError>(DotsyncError::NoPausedCascade),
        ),
        !(after is Classify),
{
}

/// What publishing does next. Attempts are counted from one.
pub enum PublishState {
    Push { attempt: usize },
    /// The remote moved: see what arrived.
    Fetch { attempt: usize },
    /// Merge what arrived.
    Converge { attempt: usize },
    Done(Result<PushReport, DotsyncError>),
}

/// What happened.
pub enum PublishEvent {
    Pushed { report: PushReport },
    Fetched,
    Converged,
    /// What was to be done failed, or what arrived held a conflict.
    Stopped { error: DotsyncError },
}

/// Whether the attempts are within their bound.
pub open spec fn within_attempts(state: PublishState) -> bool {
    match state {
        PublishState::Push { attempt } => 1 <= attempt <= PUSH_ATTEMPTS,
        PublishState::Fetch { attempt } => 1 <= attempt < PUSH_ATTEMPTS,
        PublishState::Converge { attempt } => 1 <= attempt < PUSH_ATTEMPTS,
        PublishState::Done(result) => true,
    }
}

/// The course of publishing: a push that lost a race is tried again, on top of
/// what the other machine published. An event that does not belong to a state
/// changes nothing.
pub open spec fn publishes_to(state: PublishState, event: PublishEvent) -> PublishState {
    match (state, event) {
        (PublishState::Done(result), _) => state,
        (_, PublishEvent::Stopped { error }) => PublishState::Done(Err(error)),
        (PublishState::Push { attempt }, PublishEvent::Pushed { report }) => if lost_a_race(report)
            && attempt < PUSH_ATTEMPTS {
            PublishState::Fetch { attempt }
        } else {
            PublishState::Done(Ok(report))
        },
        (PublishState::Fetch { attempt }, PublishEvent::Fetched) => PublishState::Converge {
            attempt,
        },
        (PublishState::Converge { attempt }, PublishEvent::Converged) => PublishState::Push {
            attempt: (attempt + 1) as usize,
        },
        _ => state,
    }
}

impl PublishState {
    /// Publishing, before the first push.
    pub fn start() -> (state: PublishState)
        ensures
            state == (PublishState::Push { attempt: 1 }),
            within_attempts(state),
    {
        PublishState::Push { attempt: 1 }
    }

    /// What is done next after something happened.
    pub fn step(self, event: PublishEvent) -> (after: PublishState)
        requires
            within_attempts(self),
        ensures
            after == publishes_to(self, event),
            within_attempts(after),
    {
        match (self, event) {
            (PublishState::Done(result), _) => PublishState::Done(result),
            (_, PublishEvent::Stopped { error }) => PublishState::Done(Err(error)),
            (PublishState::Push { attempt }, PublishEvent::Pushed { report }) => if push_again(
                attempt,
                &report,
            ) {
                PublishState::Fetch { attempt }
            } else {
                PublishState::Done(Ok(report))
            },
            (PublishState::Fetch { attempt }, PublishEvent::Fetched) => PublishState::Converge {
                attempt,
            },
            (PublishState::Converge { attempt }, PublishEvent::Converged) => PublishState::Push {
                attempt: attempt + 1,
            },
            (state, _) => state,
        }
    }
}

/// A write that the remote itself refuses, and one that it cannot be reached
/// for, are not tried again.
pub proof fn law_only_a_lost_race_is_pushed_again(attempt: usize, report: PushReport)
    requires
        !lost_a_race(report),
    ensures
        publishes_to((PublishState::Push { attempt }), (PublishEvent::Pushed { report }))
            == PublishState::Done(Ok::<PushReport, DotsyncError>(report)),
{
}

/// Which paused merge a `continue` finishes.
#[derive(Debug, Clone, Copy, PartialEq, Eq, Structural)]
pub enum PausedMerge {
    /// A commit's own: its resolution is recorded first, and the record of the
    /// run goes before the pass, so that a pass which stops writes one of its
    /// own.
    Commit,
    /// One of the pass: it is run again with the resolution as the answer.
    Convergence,
}

/// What a `continue` does next.
pub enum ResumeState {
    /// Read home at the conflicted paths.
    Observe,
    /// Look for conflict markers in what home holds there.
    CheckMarkers,
    /// Write the commit with home's side of the conflicted paths.
    RecordResolution,
    /// Remove the record of the run that stopped.
    ForgetRun,
    /// Run the pass.
    Converge,
    /// Publish.
    Publish,
    /// Bring home to this machine's scope.
    SyncHome { push: PushReport },
    Done(Result<ContinueReport, DotsyncError>),
}

/// What happened.
pub enum ResumeEvent {
    Observed,
    /// The conflicted files were looked at; `refused` is why they are no
    /// resolution, if they are none.
    MarkersChecked { refused: Option<DotsyncError> },
    Recorded,
    Forgotten,
    Converged,
    Published { push: PushReport },
    HomeSynced { sync: SyncReport },
    /// What was to be done failed, or met a conflict.
    Stopped { error: DotsyncError },
}

/// A `continue` as it runs.
pub struct ResumeRun {
    pub merge: PausedMerge,
    pub scope: String,
    /// This machine's own scope, when `scope` is neither it nor above it.
    pub borrowed_from: Option<String>,
    pub state: ResumeState,
}

/// Whether a `continue` has ended having recorded the resolution.
pub open spec fn has_resumed(
    run: ResumeRun,
    push: PushReport,
    sync: SyncReport,
    after: ResumeState,
) -> bool {
    match after {
        ResumeState::Done(Ok(report)) => {
            &&& report.push == push
            &&& report.sync == sync
            &&& match report.resumed {
                Resumed::Cascade { scope, borrowed_from } => scope@ == run.scope@ && opt_text(
                    borrowed_from,
                ) == opt_text(run.borrowed_from),
                Resumed::SyncConflict => false,
            }
        },
        _ => false,
    }
}

/// The course of a `continue`. An event that does not belong to a state changes
/// nothing.
pub open spec fn resumes_to(run: ResumeRun, event: ResumeEvent, after: ResumeState) -> bool {
    let commits = run.merge == PausedMerge::Commit;
    match (run.state, event) {
        (ResumeState::Done(result), _) => after == run.state,
        (_, ResumeEvent::Stopped { error }) => after == ResumeState::Done(
            Err::<ContinueReport, DotsyncError>(error),
        ),
        (ResumeState::Observe, ResumeEvent::Observed) => after == ResumeState::CheckMarkers,
        (ResumeState::CheckMarkers, ResumeEvent::MarkersChecked { refused }) => match refused {
            Some(error) => after == ResumeState::Done(Err::<ContinueReport, DotsyncError>(error)),
            None => after == if commits {
                ResumeState::RecordResolution
            } else {
                ResumeState::Converge
            },
        },
        (ResumeState::RecordResolution, ResumeEvent::Recorded) => after == ResumeState::ForgetRun,
        (ResumeState::ForgetRun, ResumeEvent::Forgotten) => after == if commits {
            ResumeState::Converge
        } else {
            ResumeState::Publish
        },
        (ResumeState::Converge, ResumeEvent::Converged) => after == if commits {
            ResumeState::Publish
        } else {
            ResumeState::ForgetRun
        },
        (ResumeState::Publish, ResumeEvent::Published { push }) => after == (
        ResumeState::SyncHome { push }),
        (ResumeState::SyncHome { push }, ResumeEvent::HomeSynced { sync }) => has_resumed(
            run,
            push,
            sync,
            after,
        ),
        _ => after == run.state,
    }
}

impl ResumeRun {
    /// A `continue` that has done nothing yet.
    pub fn start(merge: PausedMerge, scope: String, borrowed_from: Option<String>) -> (run: ResumeRun)
        ensures
            run.merge == merge,
            run.scope == scope,
            run.borrowed_from == borrowed_from,
            run.state is Observe,
    {
        ResumeRun { merge, scope, borrowed_from, state: ResumeState::Observe }
    }

    /// The `continue` after something happened.
    pub fn step(self, event: ResumeEvent) -> (after: ResumeRun)
        ensures
            after.merge == self.merge,
            after.scope == self.scope,
            after.borrowed_from == self.borrowed_from,
            resumes_to(self, event, after.state),
    {
        let merge = self.merge;
        let scope = self.scope;
        let borrowed_from = self.borrowed_from;
        let commits = matches!(merge, PausedMerge::Commit);
        let state = match (self.state, event) {
            (ResumeState::Done(result), _) => ResumeState::Done(result),
            (_, ResumeEvent::Stopped { error }) => ResumeState::Done(Err(error)),
            (ResumeState::Observe, ResumeEvent::Observed) => ResumeState::CheckMarkers,
            (ResumeState::CheckMarkers, ResumeEvent::MarkersChecked { refused }) => match refused {
                Some(error) => ResumeState::Done(Err(error)),
                None => if commits {
                    ResumeState::RecordResolution
                } else {
                    ResumeState::Converge
                },
            },
            (ResumeState::RecordResolution, ResumeEvent::Recorded) => ResumeState::ForgetRun,
            (ResumeState::ForgetRun, ResumeEvent::Forgotten) => if commits {
                ResumeState::Converge
            } else {
                ResumeState::Publish
            },
            (ResumeState::Converge, ResumeEvent::Converged) => if commits {
                ResumeState::Publish
            } else {
                ResumeState::ForgetRun
            },
            (ResumeState::Publish, ResumeEvent::Published { push }) => ResumeState::SyncHome {
                push,
            },
            (ResumeState::SyncHome { push }, ResumeEvent::HomeSynced { sync }) => {
                let from = match &borrowed_from {
                    Some(scope) => Some(scope.clone()),
                    None => None,
                };
                ResumeState::Done(
                    Ok(
                        ContinueReport {
                            resumed: Resumed::Cascade {
                                scope: scope.clone(),
                                borrowed_from: from,
                            },
                            sync,
                            push,
                        },
                    ),
                )
            },
            (state, _) => state,
        };
        ResumeRun { merge, scope, borrowed_from, state }
    }
}

/// A file that still holds conflict markers is never recorded: nothing is
/// written before the conflicted files were looked at and found to be a
/// resolution.
pub proof fn law_markers_are_never_recorded(
    run: ResumeRun,
    event: ResumeEvent,
    after: ResumeState,
)
    requires
        resumes_to(run, event, after),
        run.state is Observe || run.state is CheckMarkers,
        after != run.state,
    ensures
        after is CheckMarkers || after is Done || event == (ResumeEvent::MarkersChecked {
            refused: None,
        }),
{
}

/// What an `abort` does next.
pub enum AbortState {
    /// Put every scope of the checkpoint back.
    Restore,
    /// Remove the record of the run that stopped.
    ForgetRun,
    /// Bring home to this machine's scope, dropping what it holds.
    SyncHome,
    /// See whether the pass still stops somewhere.
    Recheck { sync: SyncReport },
    Done(Result<AbortReport, DotsyncError>),
}

/// What happened.
pub enum AbortEvent {
    Restored,
    Forgotten,
    HomeSynced { sync: SyncReport },
    Rechecked { pending: Option<String> },
    Failed { error: DotsyncError },
}

/// An `abort` as it runs.
pub struct AbortRun {
    pub plan: AbortPlan,
    pub state: AbortState,
}

/// The course of an `abort`. An event that does not belong to a state changes
/// nothing.
pub open spec fn aborts_to(run: AbortRun, event: AbortEvent, after: AbortState) -> bool {
    match (run.state, event) {
        (AbortState::Done(result), _) => after == run.state,
        (_, AbortEvent::Failed { error }) => after == AbortState::Done(
            Err::<AbortReport, DotsyncError>(error),
        ),
        (AbortState::Restore, AbortEvent::Restored) => after == AbortState::ForgetRun,
        (AbortState::ForgetRun, AbortEvent::Forgotten) => after == AbortState::SyncHome,
        (AbortState::SyncHome, AbortEvent::HomeSynced { sync }) => after == (AbortState::Recheck {
            sync,
        }),
        (AbortState::Recheck { sync }, AbortEvent::Rechecked { pending }) => match after {
            AbortState::Done(Ok(report)) => report.sync == sync && report.still_paused == pending
                && report.paused_scope@ == run.plan.paused_scope@,
            _ => false,
        },
        _ => after == run.state,
    }
}

impl AbortRun {
    /// An `abort` that has done nothing yet. There may be nothing to put back.
    pub fn start(plan: AbortPlan) -> (run: AbortRun)
        ensures
            run.plan == plan,
            if plan.restore@.len() > 0 {
                run.state is Restore
            } else {
                run.state is ForgetRun
            },
    {
        let state = if plan.restore.is_empty() {
            AbortState::ForgetRun
        } else {
            AbortState::Restore
        };
        AbortRun { plan, state }
    }

    /// The `abort` after something happened.
    pub fn step(self, event: AbortEvent) -> (after: AbortRun)
        ensures
            after.plan == self.plan,
            aborts_to(self, event, after.state),
    {
        let plan = self.plan;
        let state = match (self.state, event) {
            (AbortState::Done(result), _) => AbortState::Done(result),
            (_, AbortEvent::Failed { error }) => AbortState::Done(Err(error)),
            (AbortState::Restore, AbortEvent::Restored) => AbortState::ForgetRun,
            (AbortState::ForgetRun, AbortEvent::Forgotten) => AbortState::SyncHome,
            (AbortState::SyncHome, AbortEvent::HomeSynced { sync }) => AbortState::Recheck { sync },
            (AbortState::Recheck { sync }, AbortEvent::Rechecked { pending }) => {
                AbortState::Done(
                    Ok(
                        AbortReport {
                            paused_scope: plan.paused_scope.clone(),
                            sync,
                            still_paused: pending,
                        },
                    ),
                )
            },
            (state, _) => state,
        };
        AbortRun { plan, state }
    }
}

/// The heads once every scope of a checkpoint is put back.
pub open spec fn restored(heads: HeadsView, checkpoint: Seq<(Text, Text)>) -> HeadsView
    decreases checkpoint.len(),
{
    if checkpoint.len() == 0 {
        heads
    } else {
        with_head(
            restored(heads, checkpoint.drop_last()),
            checkpoint.last().0,
            HeadView { sides: seq![checkpoint.last().1], contested: false },
        )
    }
}

proof fn lemma_restored(heads: HeadsView, checkpoint: Seq<(Text, Text)>, at: int)
    requires
        0 <= at < checkpoint.len(),
        forall|i: int, j: int|
            0 <= i < j < checkpoint.len() ==> (#[trigger] checkpoint[i]).0 != (
            #[trigger] checkpoint[j]).0,
    ensures
        head_in(restored(heads, checkpoint), checkpoint[at].0) == (HeadView {
            sides: seq![checkpoint[at].1],
            contested: false,
        }),
    decreases checkpoint.len(),
{
    let front = checkpoint.drop_last();
    let last = checkpoint.last();
    let head = HeadView { sides: seq![last.1], contested: false };
    lemma_with_head(restored(heads, front), last.0, head, checkpoint[at].0);
    if at < front.len() {
        assert(checkpoint[at].0 != checkpoint[checkpoint.len() - 1].0);
        assert(front[at] == checkpoint[at]);
        assert forall|i: int, j: int| 0 <= i < j < front.len() implies (#[trigger] front[i]).0 != (
        #[trigger] front[j]).0 by {
            assert(front[i] == checkpoint[i] && front[j] == checkpoint[j]);
        }
        lemma_restored(heads, front, at);
    }
}

/// Whatever a run moved, putting its checkpoint back returns every scope whose
/// head was one commit to where it stood before the run.
pub proof fn law_abort_returns_to_the_checkpoint(
    graph: Seq<ScopeView>,
    start: Seq<(String, Head)>,
    now: HeadsView,
    scope: Text,
)
    requires
        graph_wf(graph),
        names_of(graph).contains(scope),
        one_commit(head_of(start, scope)) is Some,
    ensures
        head_in(restored(now, checkpoint_of(graph, start)), scope) == head_of(start, scope),
{
    let names = names_of(graph);
    let keep = |n: Text| one_commit(head_of(start, n)) is Some;
    let kept = names.filter(keep);
    let point = checkpoint_of(graph, start);
    lemma_filter_holds(names, keep);
    assert(kept.contains(scope));
    let at = choose|at: int| 0 <= at < kept.len() && kept[at] == scope;
    let differ = |a: Text, b: Text| a != b;
    lemma_ascending_no_duplicates(names);
    assert forall|i: int, j: int| 0 <= i < j < names.len() implies #[trigger] differ(
        names[i],
        names[j],
    ) by {}
    lemma_filter_keeps_order(names, keep, differ);
    assert forall|i: int, j: int| 0 <= i < j < point.len() implies (#[trigger] point[i]).0 != (
    #[trigger] point[j]).0 by {
        assert(differ(kept[i], kept[j]));
    }
    assert(point[at].0 == scope);
    lemma_restored(now, point, at);
    let head = head_of(start, scope);
    assert(seq![point[at].1] =~= head.sides);
}

/// A `continue` goes one step at a time. It reads home at the conflicted files and
/// looks at them; a commit's own merge is then recorded, its record removed and
/// the pass run, and a merge of the pass is run again before its record goes;
/// after that the result is published and home brought back. It reports the scope
/// it was for, what reached home and what reached the remote.
pub proof fn law_a_continue_goes_step_by_step(
    run: ResumeRun,
    event: ResumeEvent,
    after: ResumeState,
)
    requires
        resumes_to(run, event, after),
    ensures
        run.state is Observe && event is Observed ==> after is CheckMarkers,
        run.state is CheckMarkers ==> (event matches ResumeEvent::MarkersChecked { refused } ==> {
            &&& refused is None && run.merge == PausedMerge::Commit ==> after is RecordResolution
            &&& refused is None && run.merge == PausedMerge::Convergence ==> after is Converge
            &&& refused matches Some(error) ==> (after matches ResumeState::Done(Err(said)) && said
                == error)
        }),
        run.state is RecordResolution && event is Recorded ==> after is ForgetRun,
        run.state is ForgetRun && event is Forgotten ==> if run.merge == PausedMerge::Commit {
            after is Converge
        } else {
            after is Publish
        },
        run.state is Converge && event is Converged ==> if run.merge == PausedMerge::Commit {
            after is Publish
        } else {
            after is ForgetRun
        },
        run.state is Publish ==> (event matches ResumeEvent::Published { push } ==> after == (
        ResumeState::SyncHome { push })),
        run.state matches ResumeState::SyncHome { push } ==> (event
            matches ResumeEvent::HomeSynced { sync } ==> (after matches ResumeState::Done(
            Ok(report),
        ) && report.push == push && report.sync == sync && (report.resumed
            matches Resumed::Cascade { scope, borrowed_from } && scope@ == run.scope@ && opt_text(
            borrowed_from,
        ) == opt_text(run.borrowed_from)))),
        !(run.state is Done) ==> (event matches ResumeEvent::Stopped { error } ==> (after
            matches ResumeState::Done(Err(said)) && said == error)),
{
}

/// A `continue` that ends a conflict with home goes one step at a time: home's
/// own bytes are taken, what other machines lack is published, and every change
/// that home still holds is reported as standing. Nothing of it is destroyed.
pub proof fn law_a_sync_conflict_goes_step_by_step(
    run: SyncConflictRun,
    event: SyncConflictEvent,
    after: SyncConflictState,
)
    requires
        settles_to(run, event, after),
    ensures
        run.state is Publish ==> (event matches SyncConflictEvent::Published { push } ==> after == (
        SyncConflictState::Classify { push })),
        run.state matches SyncConflictState::Classify { push } ==> (event
            matches SyncConflictEvent::Classified { head, classified } ==> (after
            matches SyncConflictState::Done(Ok(report)) && report.push == push
            && report.resumed is SyncConflict && report.sync.current_scope@ == run.machine_scope@
            && report.sync.drifts@.len() == 0 && report.sync.synced_paths@.len() == head@.len()
            && (forall|j: int|
            0 <= j < head@.len() ==> (#[trigger] head@[j]).0 == report.sync.synced_paths@[j]))),
        !(run.state is Done) ==> (event matches SyncConflictEvent::Failed { error } ==> (after
            matches SyncConflictState::Done(Err(said)) && said == error)),
{
}

/// What home still holds of this machine's own is all reported once a conflict
/// with home is ended, under its own path and state, and nothing else is.
pub proof fn law_a_resolved_home_reports_what_it_holds(
    report: ContinueReport,
    machine_scope: Text,
    head: Seq<(FilePath, TreeValue)>,
    classified: Seq<(FilePath, ClassifiedPath)>,
    push: PushReport,
    path: FilePath,
    state: FileState,
)
    requires
        reports_sync_conflict(report, machine_scope, head, classified, push),
    ensures
        report.sync.carried_changes@.contains(FileChange { path, state }) <==> is_classified(
            classified,
            path,
            state,
        ) && match state {
            FileState::EditedInHome
            | FileState::KindDiffersFromScope
            | FileState::EditedInHomeButRemovedFromRepo
            | FileState::DeletedInHome
            | FileState::DeletedInHomeTipAlsoChanged
            | FileState::DivergedEdit
            | FileState::DivergedEditThatMerges
            | FileState::IncomingNewCollidesWithUntrackedHome => true,
            _ => false,
        },
{
    lemma_group_changes(classified, StateGroup::Drift, path, state);
}

/// A push that lost a race is made again, after what arrived was fetched and
/// merged, up to three times in all; any other answer of the remote is what the
/// run reports.
pub proof fn law_a_lost_race_is_run_again(state: PublishState, event: PublishEvent)
    ensures
        state matches PublishState::Push { attempt } ==> (event matches PublishEvent::Pushed {
            report,
        } ==> {
            let lost = report matches PushReport::Refused { scopes, rejection }
                && rejection is RemoteMoved;
            &&& lost && attempt < 3 ==> publishes_to(state, event) == (PublishState::Fetch {
                attempt,
            })
            &&& !lost || attempt >= 3 ==> publishes_to(state, event) == PublishState::Done(
                Ok::<PushReport, DotsyncError>(report),
            )
        }),
        state matches PublishState::Fetch { attempt } ==> (event is Fetched ==> publishes_to(
            state,
            event,
        ) == (PublishState::Converge { attempt })),
        state matches PublishState::Converge { attempt } ==> (event is Converged && attempt < 3
            ==> (publishes_to(state, event) matches PublishState::Push { attempt: next } && next
            == attempt + 1)),
        !(state is Done) ==> (event matches PublishEvent::Stopped { error } ==> publishes_to(
            state,
            event,
        ) == PublishState::Done(Err::<PushReport, DotsyncError>(error))),
{
}

/// An abort goes one step at a time: the scopes are put back where there is
/// anything to put back, the record of the run is removed, home follows, and what
/// the pass still stops at is said.
pub proof fn law_an_abort_goes_step_by_step(run: AbortRun, event: AbortEvent, after: AbortState)
    requires
        aborts_to(run, event, after),
    ensures
        run.state is Restore && event is Restored ==> after is ForgetRun,
        run.state is ForgetRun && event is Forgotten ==> after is SyncHome,
        run.state is SyncHome ==> (event matches AbortEvent::HomeSynced { sync } ==> after == (
        AbortState::Recheck { sync })),
        run.state matches AbortState::Recheck { sync } ==> (event matches AbortEvent::Rechecked {
            pending,
        } ==> (after matches AbortState::Done(Ok(report)) && report.sync == sync
            && report.still_paused == pending && report.paused_scope@ == run.plan.paused_scope@)),
        !(run.state is Done) ==> (event matches AbortEvent::Failed { error } ==> (after
            matches AbortState::Done(Err(said)) && said == error)),
        after is SyncHome && !(run.state is SyncHome) ==> run.state is ForgetRun,
        after is ForgetRun && !(run.state is ForgetRun) ==> run.state is Restore && event
            is Restored,
{
}

} // verus!
