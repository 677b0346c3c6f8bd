//! The course of a plain run and of `discard`, and what a home sync comes to.
use vstd::prelude::*;
use vstd::string::*;
use crate::drift::{
    drifted, in_group, ClassifiedPath, Entries, FileState, StateGroup, TreeValue,
};
use crate::error::{
    file_views, opt_bytes, version_views, ConflictedFile, ConflictedFileView, ConflictedVersion,
    DotsyncError,
};
use crate::paths::{
    all_paths, joined_path, keys, lemma_value_at, value_at, Components, FilePath,
};
use crate::repo::PushReport;
use crate::sync::{
    carried, change_of, destroyed, drops, idle_targets, is_classified, nothing_to_discard,
    presented, sort_local_changes, sync_conflict, FileChange, FileDrift, LocalChanges,
    SyncCommandReport, SyncReport,
};
use crate::seqs::lemma_filter_holds;

verus! {

/// What both sides hold at a path.
pub struct BothSides {
    pub repo: Option<Vec<u8>>,
    pub home: Option<Vec<u8>>,
}

/// Whether `drift` shows a classified path with what both sides hold there.
pub open spec fn is_drift_at(
    drift: FileDrift,
    home_dir: FilePath,
    entry: (FilePath, ClassifiedPath),
    sides: BothSides,
) -> bool {
    &&& drift.repo_path == entry.0
    &&& drift.system_path.text@ == joined_path(home_dir.text@, entry.0.text@)
    &&& drift.state == entry.1.state
    &&& opt_bytes(drift.repo_bytes) == opt_bytes(sides.repo)
    &&& opt_bytes(drift.home_bytes) == opt_bytes(sides.home)
}

/// A classified path with what both sides hold there.
pub fn file_drift(
    home_dir: &FilePath,
    path: &FilePath,
    classified: &ClassifiedPath,
    sides: BothSides,
) -> (drift: FileDrift)
    ensures
        is_drift_at(drift, *home_dir, (*path, *classified), sides),
{
    FileDrift {
        repo_path: path.copy(),
        system_path: home_dir.join(path),
        state: classified.state,
        repo_bytes: sides.repo,
        home_bytes: sides.home,
    }
}

/// Whether drifts show classified paths, in order, with what both sides hold
/// there.
pub open spec fn are_drifts_at(
    drifts: Seq<FileDrift>,
    home_dir: FilePath,
    entries: Seq<(FilePath, ClassifiedPath)>,
    contents: Seq<BothSides>,
) -> bool {
    &&& drifts.len() == entries.len()
    &&& forall|i: int|
        0 <= i < entries.len() ==> is_drift_at(
            #[trigger] drifts[i],
            home_dir,
            entries[i],
            contents[i],
        )
}

/// Classified paths, in order, with what both sides hold there.
pub fn file_drifts(
    home_dir: &FilePath,
    entries: &Vec<(FilePath, ClassifiedPath)>,
    contents: Vec<BothSides>,
) -> (drifts: Vec<FileDrift>)
    requires
        contents@.len() == entries@.len(),
    ensures
        are_drifts_at(drifts@, *home_dir, entries@, contents@),
{
    let ghost all = contents@;
    let mut drifts: Vec<FileDrift> = Vec::new();
    let mut i: usize = 0;
    for sides in it: contents
        invariant
            it.seq() == all,
            all.len() == entries.len(),
            i == it.index@,
            drifts.len() == i,
            forall|j: int|
                0 <= j < i ==> is_drift_at(
                    #[trigger] drifts@[j],
                    *home_dir,
                    entries@[j],
                    all[j],
                ),
    {
        drifts.push(file_drift(home_dir, &entries[i].0, &entries[i].1, sides));
        i += 1;
    }
    drifts
}

/// The paths of some entries.
pub fn entry_paths(entries: &Entries) -> (paths: Vec<FilePath>)
    ensures
        paths@ == entries@.map_values(|e: (FilePath, TreeValue)| e.0),
{
    let mut paths: Vec<FilePath> = Vec::new();
    let mut i: usize = 0;
    while i < entries.len()
        invariant
            i <= entries.len(),
            paths.len() == i,
            forall|j: int| 0 <= j < i ==> #[trigger] paths@[j] == entries@[j].0,
        decreases entries.len() - i,
    {
        paths.push(entries[i].0.copy());
        i += 1;
    }
    proof {
        assert(paths@ =~= entries@.map_values(|e: (FilePath, TreeValue)| e.0));
    }
    paths
}

/// What the merge of home with the head came to.
pub enum HomeMerge {
    /// It did not resolve, and home was left as it is. Every version of the
    /// files it did not resolve.
    Conflicted { unresolved: Vec<(FilePath, Vec<ConflictedVersion>)> },
    /// Home holds it. What both sides held at the local changes that the sync
    /// destroyed, in their order.
    Taken { contents: Vec<BothSides> },
}

/// Whether a home sync ends with `outcome`: a conflict presents every file that
/// the merge did not resolve, and anything else reports what the head holds and
/// what became of every local change.
pub open spec fn syncs_to(
    machine_scope: Seq<char>,
    home_dir: FilePath,
    head: Seq<(FilePath, TreeValue)>,
    classified: Seq<(FilePath, ClassifiedPath)>,
    local: LocalChanges,
    merge: HomeMerge,
    outcome: Result<SyncReport, DotsyncError>,
) -> bool {
    match (merge, outcome) {
        (
            HomeMerge::Conflicted { unresolved },
            Err(DotsyncError::SyncConflict { scope, files }),
        ) => scope@ == machine_scope && file_views(files@) == presented(
            classified,
            unresolved@,
            classified.len(),
        ),
        (HomeMerge::Taken { contents }, Ok(report)) => {
            &&& report.current_scope@ == machine_scope
            &&& report.synced_paths@ == head.map_values(|e: (FilePath, TreeValue)| e.0)
            &&& are_drifts_at(
                report.drifts@,
                home_dir,
                destroyed(classified, local),
                contents@,
            )
            &&& report.carried_changes@ == carried(classified, local)
        },
        _ => false,
    }
}

/// What a home sync comes to.
pub fn sync_outcome(
    machine_scope: &str,
    home_dir: &FilePath,
    head: &Entries,
    classified: &Vec<(FilePath, ClassifiedPath)>,
    local: &LocalChanges,
    merge: HomeMerge,
) -> (outcome: Result<SyncReport, DotsyncError>)
    requires
        merge is Taken ==> merge->contents@.len() == destroyed(classified@, *local).len(),
    ensures
        syncs_to(machine_scope@, *home_dir, head@, classified@, *local, merge, outcome),
{
    let contents = match merge {
        HomeMerge::Conflicted { unresolved } => {
            return Err(sync_conflict(machine_scope, classified, &unresolved));
        },
        HomeMerge::Taken { contents } => contents,
    };
    let (gone, standing) = sort_local_changes(classified, local);
    let drifts = file_drifts(home_dir, &gone, contents);
    Ok(
        SyncReport {
            current_scope: machine_scope.to_owned(),
            synced_paths: entry_paths(head),
            drifts,
            carried_changes: standing,
        },
    )
}

/// What a plain run or a `discard` does next.
pub enum SyncState {
    Fetch,
    /// Classify home against this machine's scope. A `discard` only.
    Classify,
    /// Run the pass.
    Converge,
    /// Publish, before home is touched: what an interrupted run left behind
    /// reaches the remote even if the home sync stops.
    Publish,
    /// Bring home to this machine's scope.
    SyncHome { push: PushReport },
    Done(Result<SyncCommandReport, DotsyncError>),
}

/// What happened.
pub enum SyncEvent {
    Fetched,
    Classified { classified: Vec<(FilePath, ClassifiedPath)> },
    Converged,
    Published { push: PushReport },
    HomeSynced { sync: SyncReport },
    /// What was to be done failed, or met a conflict.
    Stopped { error: DotsyncError },
}

/// A plain run or a `discard` as it runs.
pub struct SyncRun {
    /// The paths that a `discard` names.
    pub targets: Option<Vec<FilePath>>,
    pub state: SyncState,
}

/// The course of a plain run and of a `discard`. An event that does not belong
/// to a state changes nothing.
pub open spec fn runs_to(run: SyncRun, event: SyncEvent, after: SyncState) -> bool {
    match (run.state, event) {
        (SyncState::Done(result), _) => after == run.state,
        (_, SyncEvent::Stopped { error }) => after == SyncState::Done(
            Err::<SyncCommandReport, DotsyncError>(error),
        ),
        (SyncState::Fetch, SyncEvent::Fetched) => after == if run.targets is Some {
            SyncState::Classify
        } else {
            SyncState::Converge
        },
        (SyncState::Classify, SyncEvent::Classified { classified }) => match run.targets {
            Some(targets) => {
                let idle = idle_targets(targets@, classified@);
                match after {
                    SyncState::Done(Err(DotsyncError::NothingToDiscard { paths })) => idle.len() > 0
                        && paths@ == idle,
                    _ => idle.len() == 0 && after == SyncState::Converge,
                }
            },
            None => after == SyncState::Converge,
        },
        (SyncState::Converge, SyncEvent::Converged) => after == SyncState::Publish,
        (SyncState::Publish, SyncEvent::Published { push }) => after == (SyncState::SyncHome {
            push,
        }),
        (SyncState::SyncHome { push }, SyncEvent::HomeSynced { sync }) => after == SyncState::Done(
            Ok::<SyncCommandReport, DotsyncError>((SyncCommandReport { sync, push })),
        ),
        _ => after == run.state,
    }
}

impl SyncRun {
    /// A run that has done nothing yet: a `discard` where `targets` are named.
    pub fn start(targets: Option<Vec<FilePath>>) -> (run: SyncRun)
        ensures
            run.targets == targets,
            run.state is Fetch,
    {
        SyncRun { targets, state: SyncState::Fetch }
    }

    /// The run after something happened.
    pub fn step(self, event: SyncEvent) -> (after: SyncRun)
        ensures
            after.targets == self.targets,
            runs_to(self, event, after.state),
    {
        let targets = self.targets;
        let state = match (self.state, event) {
            (SyncState::Done(result), _) => SyncState::Done(result),
            (_, SyncEvent::Stopped { error }) => SyncState::Done(Err(error)),
            (SyncState::Fetch, SyncEvent::Fetched) => if targets.is_some() {
                SyncState::Classify
            } else {
                SyncState::Converge
            },
            (SyncState::Classify, SyncEvent::Classified { classified }) => match &targets {
                Some(paths) => match nothing_to_discard(paths, &classified) {
                    Some(error) => SyncState::Done(Err(error)),
                    None => SyncState::Converge,
                },
                None => SyncState::Converge,
            },
            (SyncState::Converge, SyncEvent::Converged) => SyncState::Publish,
            (SyncState::Publish, SyncEvent::Published { push }) => SyncState::SyncHome { push },
            (SyncState::SyncHome { push }, SyncEvent::HomeSynced { sync }) => SyncState::Done(
                Ok(SyncCommandReport { sync, push }),
            ),
            (state, _) => state,
        };
        SyncRun { targets, state }
    }
}

/// A run touches home only after it has published: the step before the home
/// sync is a publish, and it hands its report on.
pub proof fn law_a_sync_publishes_before_home_moves(
    run: SyncRun,
    event: SyncEvent,
    after: SyncState,
)
    requires
        runs_to(run, event, after),
        after is SyncHome,
        !(run.state is SyncHome),
    ensures
        run.state is Publish,
        event == (SyncEvent::Published { push: after->push }),
{
}

/// A `discard` decides against a change or does nothing: it moves on from what
/// it found in home only where every path that it names holds a change of this
/// machine's own.
pub proof fn law_a_discard_names_only_changes(
    run: SyncRun,
    targets: Vec<FilePath>,
    classified: Vec<(FilePath, ClassifiedPath)>,
    after: SyncState,
)
    requires
        run.state is Classify,
        run.targets == Some(targets),
        runs_to(run, (SyncEvent::Classified { classified }), after),
    ensures
        after is Converge <==> idle_targets(targets@, classified@).len() == 0,
        !(after is Converge) ==> after is Done,
{
}

/// Whether home holds a change of this machine's own in a state.
spec fn is_own(state: FileState) -> bool {
    match state {
        FileState::EditedInHome
        | FileState::KindDiffersFromScope
        | FileState::EditedInHomeButRemovedFromRepo
        | FileState::DeletedInHome
        | FileState::DeletedInHomeTipAlsoChanged
        | FileState::DivergedEdit
        | FileState::DivergedEditThatMerges
        | FileState::IncomingNewCollidesWithUntrackedHome => true,
        _ => false,
    }
}

/// A sync that ends well says what became of every change of this machine's own:
/// it is named as destroyed, with its state, where the sync was to discard it,
/// and as still standing where it was not. Nothing else is named either way, and
/// every file that the machine's scope holds is said to be synced.
pub proof fn law_a_sync_says_what_became_of_every_own_change(
    machine_scope: Seq<char>,
    home_dir: FilePath,
    head: Seq<(FilePath, TreeValue)>,
    classified: Seq<(FilePath, ClassifiedPath)>,
    local: LocalChanges,
    merge: HomeMerge,
    report: SyncReport,
    path: FilePath,
    state: FileState,
)
    requires
        syncs_to(
            machine_scope,
            home_dir,
            head,
            classified,
            local,
            merge,
            Ok::<SyncReport, DotsyncError>(report),
        ),
    ensures
        ({
            let own = match state {
                FileState::EditedInHome
                | FileState::KindDiffersFromScope
                | FileState::EditedInHomeButRemovedFromRepo
                | FileState::DeletedInHome
                | FileState::DeletedInHomeTipAlsoChanged
                | FileState::DivergedEdit
                | FileState::DivergedEditThatMerges
                | FileState::IncomingNewCollidesWithUntrackedHome => true,
                _ => false,
            };
            let dropped = match local {
                LocalChanges::Carry => false,
                LocalChanges::Discard => true,
                LocalChanges::DiscardAt(paths) => exists|k: int|
                    0 <= k < paths@.len() && (#[trigger] paths@[k])@ == path@,
            };
            &&& report.carried_changes@.contains(FileChange { path, state }) <==> is_classified(
                classified,
                path,
                state,
            ) && own && !dropped
            &&& (exists|d: int|
                0 <= d < report.drifts@.len() && (#[trigger] report.drifts@[d]).repo_path == path
                    && report.drifts@[d].state == state) <==> is_classified(classified, path, state)
                && own && dropped
        }),
        merge is Taken,
        report.current_scope@ == machine_scope,
        report.synced_paths@.len() == head.len(),
        forall|j: int|
            0 <= j < head.len() ==> (#[trigger] head[j]).0 == report.synced_paths@[j],
        forall|d: int|
            0 <= d < report.drifts@.len() ==> opt_bytes((#[trigger] report.drifts@[d]).repo_bytes)
                == opt_bytes(merge->contents@[d].repo) && opt_bytes(report.drifts@[d].home_bytes)
                == opt_bytes(merge->contents@[d].home),
{
    let change = FileChange { path, state };
    let lost = |e: (FilePath, ClassifiedPath)| drifted(e.1.state) && drops(local, e.0@);
    let kept = |e: (FilePath, ClassifiedPath)| drifted(e.1.state) && !drops(local, e.0@);
    lemma_filter_holds(classified, lost);
    lemma_filter_holds(classified, kept);
    let gone = destroyed(classified, local);
    let left = classified.filter(kept);
    if let LocalChanges::DiscardAt(paths) = local {
        let listed = all_paths(paths@);
        if listed.contains(path@) {
            let k = choose|k: int| 0 <= k < listed.len() && listed[k] == path@;
            assert(paths@[k]@ == path@);
        }
        if exists|k: int| 0 <= k < paths@.len() && (#[trigger] paths@[k])@ == path@ {
            let k = choose|k: int| 0 <= k < paths@.len() && (#[trigger] paths@[k])@ == path@;
            assert(listed[k] == path@);
        }
    }
    if is_classified(classified, path, state) {
        let i = choose|i: int|
            0 <= i < classified.len() && (#[trigger] classified[i]).0 == path
                && classified[i].1.state == state;
        assert(classified.contains(classified[i]));
        if lost(classified[i]) {
            assert(gone.contains(classified[i]));
            let d = choose|d: int| 0 <= d < gone.len() && gone[d] == classified[i];
            assert(is_drift_at(report.drifts@[d], home_dir, gone[d], merge->contents@[d]));
        }
        if kept(classified[i]) {
            assert(left.contains(classified[i]));
            let k = choose|k: int| 0 <= k < left.len() && left[k] == classified[i];
            assert(carried(classified, local)[k] == change);
        }
    }
    if report.carried_changes@.contains(change) {
        let k = choose|k: int|
            0 <= k < report.carried_changes@.len() && report.carried_changes@[k] == change;
        assert(change_of(left[k]) == change);
        assert(left.contains(left[k]));
        let i = choose|i: int| 0 <= i < classified.len() && classified[i] == left[k];
        assert(classified[i].0 == path);
        assert(kept(left[k]));
    }
    if exists|d: int|
        0 <= d < report.drifts@.len() && (#[trigger] report.drifts@[d]).repo_path == path
            && report.drifts@[d].state == state {
        let d = choose|d: int|
            0 <= d < report.drifts@.len() && (#[trigger] report.drifts@[d]).repo_path == path
                && report.drifts@[d].state == state;
        assert(is_drift_at(report.drifts@[d], home_dir, gone[d], merge->contents@[d]));
        assert(gone.contains(gone[d]));
        let i = choose|i: int| 0 <= i < classified.len() && classified[i] == gone[d];
        assert(classified[i].0 == path);
        assert(lost(gone[d]));
    }
    assert forall|d: int| 0 <= d < report.drifts@.len() implies opt_bytes(
        (#[trigger] report.drifts@[d]).repo_bytes,
    ) == opt_bytes(merge->contents@[d].repo) && opt_bytes(report.drifts@[d].home_bytes)
        == opt_bytes(merge->contents@[d].home) by {
        assert(is_drift_at(report.drifts@[d], home_dir, gone[d], merge->contents@[d]));
    }
    assert forall|j: int| 0 <= j < head.len() implies (#[trigger] head[j]).0
        == report.synced_paths@[j] by {}
}

/// A sync ends well exactly where the merge of home with the head resolved, and
/// one that does not presents every file that the merge left open, with every
/// version of it and with where it stands, and no other.
pub proof fn law_a_sync_conflict_presents_what_is_open(
    machine_scope: Seq<char>,
    home_dir: FilePath,
    head: Seq<(FilePath, TreeValue)>,
    classified: Seq<(FilePath, ClassifiedPath)>,
    local: LocalChanges,
    merge: HomeMerge,
    outcome: Result<SyncReport, DotsyncError>,
)
    requires
        syncs_to(machine_scope, home_dir, head, classified, local, merge, outcome),
    ensures
        outcome is Ok <==> merge is Taken,
        outcome matches Err(error) ==> (error matches DotsyncError::SyncConflict { scope, files }
            && scope@ == machine_scope && forall|i: int|
            0 <= i < classified.len() ==> ((exists|u: int|
                0 <= u < merge->unresolved@.len() && (#[trigger] merge->unresolved@[u]).0@ == (
                #[trigger] classified[i]).0@) <==> exists|f: int|
                0 <= f < files@.len() && (#[trigger] files@[f]).path.text@ == classified[i].0.text@
                    && files@[f].state == Some(classified[i].1.state) && shows_versions(
                    merge->unresolved@,
                    classified[i].0@,
                    files@[f],
                ))),
{
    if let Err(DotsyncError::SyncConflict { scope, files }) = outcome {
        let open = merge->unresolved@;
        assert forall|i: int| 0 <= i < classified.len() implies ((exists|u: int|
            0 <= u < open.len() && (#[trigger] open[u]).0@ == (#[trigger] classified[i]).0@)
            <==> exists|f: int|
            0 <= f < files@.len() && (#[trigger] files@[f]).path.text@ == classified[i].0.text@
                && files@[f].state == Some(classified[i].1.state) && shows_versions(
                open,
                classified[i].0@,
                files@[f],
            )) by {
            let path = classified[i].0@;
            let all = presented(classified, open, classified.len());
            lemma_value_at(open, path);
            if exists|u: int| 0 <= u < open.len() && (#[trigger] open[u]).0@ == path {
                let u = choose|u: int| 0 <= u < open.len() && (#[trigger] open[u]).0@ == path;
                assert(keys(open)[u] == path);
                lemma_presented(classified, open, classified.len(), i);
                let f = choose|f: int|
                    0 <= f < all.len() && #[trigger] all[f] == (ConflictedFileView {
                        path: classified[i].0.text@,
                        state: Some(classified[i].1.state),
                        versions: version_views(value_at(open, path)->0@),
                    });
                assert(file_views(files@)[f] == files@[f]@);
                assert(shows_versions(open, path, files@[f]));
            }
            if exists|f: int|
                0 <= f < files@.len() && (#[trigger] files@[f]).path.text@ == classified[i].0.text@
                    && files@[f].state == Some(classified[i].1.state) && shows_versions(
                    open,
                    path,
                    files@[f],
                ) {
                assert(value_at(open, path) is Some);
            }
        }
    }
}

/// Whether a presented file shows the versions that were left open at a path.
pub open spec fn shows_versions(
    unresolved: Seq<(FilePath, Vec<ConflictedVersion>)>,
    path: Components,
    file: ConflictedFile,
) -> bool {
    value_at(unresolved, path) matches Some(versions) && version_views(file.versions@)
        == version_views(versions@)
}

proof fn lemma_presented(
    classified: Seq<(FilePath, ClassifiedPath)>,
    unresolved: Seq<(FilePath, Vec<ConflictedVersion>)>,
    count: nat,
    i: int,
)
    requires
        0 <= i < count <= classified.len(),
        value_at(unresolved, classified[i].0@) is Some,
    ensures
        exists|f: int|
            0 <= f < presented(classified, unresolved, count).len() && #[trigger] presented(
                classified,
                unresolved,
                count,
            )[f] == (ConflictedFileView {
                path: classified[i].0.text@,
                state: Some(classified[i].1.state),
                versions: version_views(value_at(unresolved, classified[i].0@)->0@),
            }),
    decreases count,
{
    let before = presented(classified, unresolved, (count - 1) as nat);
    let whole = presented(classified, unresolved, count);
    let wanted = ConflictedFileView {
        path: classified[i].0.text@,
        state: Some(classified[i].1.state),
        versions: version_views(value_at(unresolved, classified[i].0@)->0@),
    };
    if i == count - 1 {
        assert(whole[before.len() as int] == wanted);
    } else {
        lemma_presented(classified, unresolved, (count - 1) as nat, i);
        let f = choose|f: int| 0 <= f < before.len() && #[trigger] before[f] == wanted;
        assert(whole[f] == wanted);
    }
}

/// A run goes one step at a time: it fetches, a `discard` looks at home, then
/// every scope is brought up to date, the result is published and only then is
/// home moved. What stops it ends it with that error, and what it reports is what
/// reached home and what reached the remote.
pub proof fn law_a_sync_goes_step_by_step(run: SyncRun, event: SyncEvent, after: SyncState)
    requires
        runs_to(run, event, after),
    ensures
        run.state is Fetch && event is Fetched ==> if run.targets is Some {
            after is Classify
        } else {
            after is Converge
        },
        run.state is Converge && event is Converged ==> after is Publish,
        run.state matches SyncState::Publish ==> (event matches SyncEvent::Published { push }
            ==> after == (SyncState::SyncHome { push })),
        run.state matches SyncState::SyncHome { push } ==> (event matches SyncEvent::HomeSynced {
            sync,
        } ==> (after matches SyncState::Done(Ok(report)) && report.sync == sync && report.push
            == push)),
        !(run.state is Done) ==> (event matches SyncEvent::Stopped { error } ==> (after
            matches SyncState::Done(Err(said)) && said == error)),
        run.state is Done ==> after == run.state,
        after is Publish && !(run.state is Publish) ==> run.state is Converge && event is Converged,
        after is Converge && !(run.state is Converge) ==> run.state is Fetch || run.state
            is Classify,
{
}

/// A `discard` goes on exactly where each path that it names holds a change of
/// this machine's own, and otherwise names those that do not.
pub proof fn law_a_discard_is_of_own_changes(
    run: SyncRun,
    targets: Vec<FilePath>,
    classified: Vec<(FilePath, ClassifiedPath)>,
    after: SyncState,
    t: int,
)
    requires
        run.state is Classify,
        run.targets == Some(targets),
        runs_to(run, (SyncEvent::Classified { classified }), after),
        0 <= t < targets@.len(),
    ensures
        ({
            let own = exists|i: int|
                0 <= i < classified@.len() && (#[trigger] classified@[i]).0@ == targets@[t]@
                    && match classified@[i].1.state {
                    FileState::EditedInHome
                    | FileState::KindDiffersFromScope
                    | FileState::EditedInHomeButRemovedFromRepo
                    | FileState::DeletedInHome
                    | FileState::DeletedInHomeTipAlsoChanged
                    | FileState::DivergedEdit
                    | FileState::DivergedEditThatMerges
                    | FileState::IncomingNewCollidesWithUntrackedHome => true,
                    _ => false,
                };
            &&& after is Converge ==> own
            &&& after matches SyncState::Done(Err(DotsyncError::NothingToDiscard { paths })) ==> (
            paths@.contains(targets@[t]) <==> !own)
            &&& after is Converge || (after matches SyncState::Done(Err(
                DotsyncError::NothingToDiscard { paths },
            )) && paths@.len() > 0)
        }),
{
    let target = targets@[t];
    let keep = |e: (FilePath, ClassifiedPath)| in_group(StateGroup::Drift, e.1.state);
    let own = classified@.filter(keep);
    lemma_filter_holds(classified@, keep);
    lemma_filter_holds(targets@, |x: FilePath| !keys(own).contains(x@));
    if keys(own).contains(target@) {
        let k = choose|k: int| 0 <= k < own.len() && keys(own)[k] == target@;
        assert(own.contains(own[k]));
        let i = choose|i: int| 0 <= i < classified@.len() && classified@[i] == own[k];
        assert(classified@[i].0@ == target@);
        assert(keep(own[k]));
    }
    if exists|i: int|
        0 <= i < classified@.len() && (#[trigger] classified@[i]).0@ == target@ && is_own(
            classified@[i].1.state,
        ) {
        let i = choose|i: int|
            0 <= i < classified@.len() && (#[trigger] classified@[i]).0@ == target@ && is_own(
                classified@[i].1.state,
            );
        assert(classified@.contains(classified@[i]));
        assert(own.contains(classified@[i]));
        let k = choose|k: int| 0 <= k < own.len() && own[k] == classified@[i];
        assert(keys(own)[k] == target@);
    }
    let idle = idle_targets(targets@, classified@);
    assert(targets@.contains(target));
    if idle.len() == 0 {
        assert(!idle.contains(target));
    }
}

} // verus!
