//! What `status` reports: what is true of the machine, and which files differ.
use vstd::prelude::*;
use vstd::string::*;
use crate::drift::{in_group, ClassifiedPath, FileState, StateGroup};
use crate::error::ConflictedFile;
use crate::paths::FilePath;
use crate::pause::{paused_at, PausedRun};
use crate::repo::{
    are_diverged, diverged_scopes, pending_updates, unpushed_scopes, update_names, Heads, RefPair,
};
use crate::scope_graph::ScopeGraph;
use crate::sync::{
    file_changes, group_changes, is_classified, lemma_group_changes, FileChange,
};
use crate::text::{texts, Text};

verus! {

/// What is true of the machine, whatever the command was asked.
#[derive(Debug, Clone)]
pub struct MachineState {
    /// The merge waiting for a decision, if one is.
    pub paused_cascade: Option<PausedCascade>,
    /// The scopes this machine and the remote have each moved.
    pub diverged_scopes: Vec<String>,
    /// The scopes this machine has committed and the remote has never seen.
    pub unpushed_scopes: Vec<String>,
}

/// What `status` found, split by whether anyone has to decide anything.
#[derive(Debug, Clone)]
pub struct StatusReport {
    pub machine_scope: String,
    pub machine: MachineState,
    /// Home holds something dotsync did not put there. Someone has to choose.
    pub changes: Vec<FileChange>,
    /// The repo moved and home did not. Plain `dotsync` applies these.
    pub incoming: Vec<FileChange>,
}

/// The merge a machine is waiting on, and every version of every file it could
/// not resolve.
#[derive(Debug, Clone)]
pub struct PausedCascade {
    pub scope: String,
    /// Empty when the merge that stopped is a `commit`'s own.
    pub conflicts: Vec<ConflictedFile>,
}

/// The scope that a paused cascade is at.
pub open spec fn cascade_scope(paused: Option<PausedCascade>) -> Option<Text> {
    match paused {
        Some(paused) => Some(paused.scope@),
        None => None,
    }
}

/// Whether a machine waits at a stopped commit, or else where the pass stops.
pub open spec fn is_waiting(
    recorded: Option<PausedRun>,
    pending: Option<PausedCascade>,
    paused: Option<PausedCascade>,
) -> bool {
    match recorded {
        Some(PausedRun { checkpoint, paused_commit: Some(commit) }) => match paused {
            Some(paused) => paused.scope@ == commit.scope@ && paused.conflicts@.len() == 0,
            None => false,
        },
        _ => paused == pending,
    }
}

/// What is true of the machine. `recorded` is the record that a stopped run left,
/// and `pending` is where the pass stops now, with every version of what it
/// stops on. A stopped commit has home as a side, so nothing in the repo has its
/// versions.
pub fn machine_state(
    recorded: &Option<PausedRun>,
    pending: Option<PausedCascade>,
    heads: &Heads,
    pairs: &Vec<RefPair>,
    graph: &ScopeGraph,
) -> (machine: MachineState)
    ensures
        is_waiting(*recorded, pending, machine.paused_cascade),
        are_diverged(graph@, heads@, texts(machine.diverged_scopes@)),
        texts(machine.unpushed_scopes@) == update_names(pending_updates(graph@, pairs@)),
{
    let stopped = match recorded {
        Some(run) => match &run.paused_commit {
            Some(commit) => Some(commit.scope.clone()),
            None => None,
        },
        None => None,
    };
    let paused_cascade = match stopped {
        Some(scope) => Some(PausedCascade { scope, conflicts: Vec::new() }),
        None => pending,
    };
    MachineState {
        paused_cascade,
        diverged_scopes: diverged_scopes(heads, graph),
        unpushed_scopes: unpushed_scopes(pairs, graph),
    }
}

/// What `status` names as paused is what a commit is refused for: a machine that
/// reports no pause can commit, and one that cannot says why.
pub proof fn law_status_names_what_refuses_a_commit(
    recorded: Option<PausedRun>,
    pending: Option<PausedCascade>,
    paused: Option<PausedCascade>,
)
    requires
        is_waiting(recorded, pending, paused),
    ensures
        cascade_scope(paused) == paused_at(recorded, cascade_scope(pending)),
{
}

/// Whether a report says which of the classified files differ.
pub open spec fn reports_files(
    report: StatusReport,
    classified: Seq<(FilePath, ClassifiedPath)>,
) -> bool {
    &&& report.changes@ == group_changes(classified, StateGroup::Drift)
    &&& report.incoming@ == group_changes(classified, StateGroup::Incoming)
}

/// `status` reports every file that differs, under its own path and state: as a
/// change where home holds something of this machine's own, a deletion among
/// them, and as incoming where only the repo moved. It reports no other file.
pub proof fn law_status_reports_every_file_that_differs(
    report: StatusReport,
    classified: Seq<(FilePath, ClassifiedPath)>,
    path: FilePath,
    state: FileState,
)
    requires
        reports_files(report, classified),
    ensures
        report.changes@.contains(FileChange { path, state }) <==> is_classified(
            classified,
            path,
            state,
        ) && match state {
            FileState::EditedInHome
            | FileState::KindDiffersFromScope
            | FileState::EditedInHomeButRemovedFromRepo
            | FileState::DeletedInHome
            | FileState::DeletedInHomeTipAlsoChanged
            | FileState::DivergedEdit
            | FileState::DivergedEditThatMerges
            | FileState::IncomingNewCollidesWithUntrackedHome => true,
            _ => false,
        },
        report.incoming@.contains(FileChange { path, state }) <==> is_classified(
            classified,
            path,
            state,
        ) && match state {
            FileState::IncomingNew | FileState::StaleNotYours | FileState::RemovedFromRepo => true,
            _ => false,
        },
{
    lemma_group_changes(classified, StateGroup::Drift, path, state);
    lemma_group_changes(classified, StateGroup::Incoming, path, state);
}

/// The report of a machine whose files were classified.
pub fn status_report(
    machine_scope: String,
    machine: MachineState,
    classified: &Vec<(FilePath, ClassifiedPath)>,
) -> (report: StatusReport)
    ensures
        report.machine_scope == machine_scope,
        report.machine == machine,
        reports_files(report, classified@),
{
    StatusReport {
        machine_scope,
        machine,
        changes: file_changes(classified, StateGroup::Drift),
        incoming: file_changes(classified, StateGroup::Incoming),
    }
}

/// A file that `status` reports as a change is not reported as incoming.
pub proof fn law_changes_and_incoming_are_apart(
    classified: Seq<(FilePath, ClassifiedPath)>,
    change: FileChange,
)
    requires
        group_changes(classified, StateGroup::Drift).contains(change),
    ensures
        !group_changes(classified, StateGroup::Incoming).contains(change),
{
    let drift = classified.filter(
        |e: (FilePath, ClassifiedPath)| in_group(StateGroup::Drift, e.1.state),
    );
    let incoming = classified.filter(
        |e: (FilePath, ClassifiedPath)| in_group(StateGroup::Incoming, e.1.state),
    );
    crate::seqs::lemma_filter_holds(
        classified,
        |e: (FilePath, ClassifiedPath)| in_group(StateGroup::Drift, e.1.state),
    );
    crate::seqs::lemma_filter_holds(
        classified,
        |e: (FilePath, ClassifiedPath)| in_group(StateGroup::Incoming, e.1.state),
    );
    let k = choose|k: int|
        0 <= k < drift.len() && group_changes(classified, StateGroup::Drift)[k] == change;
    assert(drift.contains(drift[k]));
    if group_changes(classified, StateGroup::Incoming).contains(change) {
        let m = choose|m: int|
            0 <= m < incoming.len() && group_changes(classified, StateGroup::Incoming)[m] == change;
        assert(incoming.contains(incoming[m]));
    }
}

} // verus!
