//! A paused run, and the two commands that end one.
//!
//! There are three paused states and each is derived from a different place: a
//! scope's merge, from the convergence pass; home against this machine's own
//! scope, from home and the head; and a commit whose own merge conflicted, from
//! the record of the run that made it.
use vstd::prelude::*;
use vstd::string::*;
use crate::converge::checkpoint_view;
use crate::error::DotsyncError;
use crate::lineage::lists_lineage;
use crate::paths::{joined_path, FilePath};
use crate::repo::PushReport;
use crate::scope_graph::{below, names_of, ref_views, ScopeGraph, ScopeView};
use crate::selection::{copy_paths, DotsyncPaths};
use crate::seqs::{lemma_filter_holds, lemma_filter_step, lemma_take_all};
use crate::sync::{LocalChanges, SyncReport};
use crate::text::{opt_text, same_text, Text};

verus! {

/// What a run that stopped knew and the repo cannot say.
pub struct PausedRun {
    /// Where every scope stood before the run wrote anything, which is where
    /// `abort` returns them to.
    pub checkpoint: Vec<(String, String)>,
    /// The commit this run was making, when the conflict was in that commit's
    /// own merge.
    pub paused_commit: Option<PausedCommit>,
}

/// A commit that stopped in its own merge: home against the scope head.
pub struct PausedCommit {
    pub machine_scope: String,
    pub scope: String,
    pub message: String,
    pub parent_commit_id: String,
    pub conflicted_paths: Vec<FilePath>,
}

/// What `continue` did.
#[derive(Debug, Clone)]
pub struct ContinueReport {
    /// Which of the paused states this run finished.
    pub resumed: Resumed,
    pub sync: SyncReport,
    pub push: PushReport,
}

/// What `continue` found paused.
#[derive(Debug, Clone)]
pub enum Resumed {
    /// A cascade, stopped part-way down the graph at this scope.
    Cascade {
        scope: String,
        /// This machine's own scope, when `scope` is neither it nor above it.
        borrowed_from: Option<String>,
    },
    /// Home against this machine's own scope head.
    SyncConflict,
}

/// What `abort` did.
#[derive(Debug, Clone)]
pub struct AbortReport {
    /// The scope the cascade was paused at.
    pub paused_scope: String,
    pub sync: SyncReport,
    /// The scope the pass still stops at, when discarding this run's own work
    /// was not enough to end the conflict.
    pub still_paused: Option<String>,
}

/// Whether a merge at `paused` is on the way down to `machine`: at that scope or
/// above it.
pub open spec fn on_the_way_down(graph: Seq<ScopeView>, machine: Text, paused: Text) -> bool {
    names_of(graph).contains(machine) && (paused == machine || below(graph, paused, machine))
}

/// This machine's own scope, when the merge waiting for a decision is not on it
/// or above it.
pub fn borrowed_from(graph: &ScopeGraph, machine_scope: &str, paused_scope: &str) -> (scope: Option<
    String,
>)
    ensures
        opt_text(scope) == if on_the_way_down(graph@, machine_scope@, paused_scope@) {
            None
        } else {
            Some(machine_scope@)
        },
{
    let above = graph.ancestors_and_self(machine_scope);
    let ghost names = names_of(ref_views(above@));
    let mut i: usize = 0;
    while i < above.len()
        invariant
            i <= above.len(),
            names == names_of(ref_views(above@)),
            lists_lineage(graph@, machine_scope@, names),
            forall|j: int| 0 <= j < i ==> names[j] != paused_scope@,
        decreases above.len() - i,
    {
        proof {
            assert(names[i as int] == above@[i as int]@.name);
        }
        if same_text(above[i].name.as_str(), paused_scope) {
            proof {
                assert(names.contains(paused_scope@));
            }
            return None;
        }
        i += 1;
    }
    proof {
        assert(names.len() == above.len());
        assert(!names.contains(paused_scope@));
    }
    Some(machine_scope.to_owned())
}

/// Wraps `jj_lib::conflicts::MIN_CONFLICT_MARKER_LEN`, the least length of a
/// conflict marker, which is seven.
#[verifier::external_body]
fn min_marker_len() -> (length: usize)
    ensures
        length == 7,
{
    jj_lib::conflicts::MIN_CONFLICT_MARKER_LEN
}

/// Whether a line that starts at `at` begins with at least seven of a byte.
pub open spec fn marks_line(bytes: Seq<u8>, byte: u8, at: int) -> bool {
    &&& 0 <= at
    &&& at + 7 <= bytes.len()
    &&& at == 0 || bytes[at - 1] == 0x0au8
    &&& forall|k: int| at <= k < at + 7 ==> #[trigger] bytes[k] == byte
}

/// Whether any line begins with at least seven of a byte.
pub open spec fn has_marker(bytes: Seq<u8>, byte: u8) -> bool {
    exists|at: int| #[trigger] marks_line(bytes, byte, at)
}

/// Whether some bytes are a conflict somebody stopped half way through
/// resolving: both ends of one are there.
pub open spec fn half_resolved(bytes: Seq<u8>) -> bool {
    has_marker(bytes, 0x3cu8) && has_marker(bytes, 0x3eu8)
}

fn marker_line(bytes: &Vec<u8>, byte: u8) -> (found: bool)
    requires
        byte != 0x0au8,
    ensures
        found == has_marker(bytes@, byte),
{
    let least: usize = min_marker_len();
    let mut run: usize = 0;
    let mut leading = true;
    let mut i: usize = 0;
    let ghost mut start: int = 0;
    while i < bytes.len()
        invariant
            least == 7,
            byte != 0x0au8,
            i <= bytes.len(),
            0 <= start <= i,
            start == 0 || bytes@[start - 1] == 0x0au8,
            forall|k: int| start <= k < i ==> #[trigger] bytes@[k] != 0x0au8,
            run <= i - start,
            run < 7,
            leading ==> run == i - start,
            forall|k: int| start <= k < start + run ==> #[trigger] bytes@[k] == byte,
            !leading ==> start + run < i && bytes@[start + run] != byte,
            forall|at: int| at < start ==> !#[trigger] marks_line(bytes@, byte, at),
        decreases bytes.len() - i,
    {
        let b: u8 = bytes[i];
        if b == 0x0a {
            proof {
                if marks_line(bytes@, byte, start) {
                    if start + 7 <= i {
                        assert(bytes@[start + run] == byte);
                    } else {
                        assert(bytes@[i as int] == byte);
                    }
                }
                assert forall|at: int| at < i + 1 implies !#[trigger] marks_line(
                    bytes@,
                    byte,
                    at,
                ) by {
                    if at > start && marks_line(bytes@, byte, at) {
                        assert(bytes@[at - 1] == 0x0au8);
                        assert(bytes@[at - 1] != 0x0au8);
                    }
                }
                start = i + 1;
            }
            run = 0;
            leading = true;
        } else if leading && b == byte {
            run += 1;
            if run >= least {
                proof {
                    assert forall|k: int| start <= k < start + 7 implies #[trigger] bytes@[k]
                        == byte by {
                        if k == i {
                        }
                    }
                    assert(marks_line(bytes@, byte, start));
                }
                return true;
            }
        } else {
            proof {
                if leading {
                    assert(bytes@[start + run] != byte);
                }
            }
            leading = false;
        }
        i += 1;
    }
    proof {
        assert forall|at: int| !#[trigger] marks_line(bytes@, byte, at) by {
            if marks_line(bytes@, byte, at) {
                if at == start {
                    assert(bytes@[start + run] == byte);
                } else {
                    assert(bytes@[at - 1] == 0x0au8);
                }
            }
        }
    }
    false
}

/// Whether these bytes are a conflict somebody stopped half way through
/// resolving. Both ends, deliberately: no config file holds both by accident.
pub fn holds_conflict_markers(bytes: &Vec<u8>) -> (found: bool)
    ensures
        found == half_resolved(bytes@),
{
    marker_line(bytes, 0x3c) && marker_line(bytes, 0x3e)
}

/// A conflicted file as home holds it.
pub struct HomeFile {
    pub path: FilePath,
    pub contents: Option<Vec<u8>>,
}

/// Whether a file's content is not a resolution. A file that is not there is
/// one: it was decided that it should go.
pub open spec fn is_unresolved(file: HomeFile) -> bool {
    match file.contents {
        Some(bytes) => half_resolved(bytes@),
        None => false,
    }
}

/// The conflicted files that still hold markers.
pub open spec fn unresolved_files(files: Seq<HomeFile>) -> Seq<FilePath> {
    files.filter(|f: HomeFile| is_unresolved(f)).map_values(|f: HomeFile| f.path)
}

/// What looking for conflict markers in a resolution comes to.
pub open spec fn refuses_markers(
    files: Seq<HomeFile>,
    scope: Text,
    refused: Option<DotsyncError>,
) -> bool {
    match refused {
        Some(DotsyncError::UnresolvedConflict { scope: at, paths }) => at@ == scope && paths@
            == unresolved_files(files) && paths@.len() > 0,
        Some(_) => false,
        None => unresolved_files(files).len() == 0,
    }
}

/// Whether a line starts at a place with seven of a byte.
pub open spec fn seven_from(bytes: Seq<u8>, byte: u8, at: int) -> bool {
    &&& 0 <= at
    &&& at + 7 <= bytes.len()
    &&& at == 0 || bytes[at - 1] == 10u8
    &&& bytes.subrange(at, at + 7) == seq![byte, byte, byte, byte, byte, byte, byte]
}

/// Whether seven of a byte begin a line of some bytes.
pub open spec fn opens_a_line(bytes: Seq<u8>, byte: u8) -> bool {
    exists|at: int| #[trigger] seven_from(bytes, byte, at)
}

proof fn lemma_opens_a_line(bytes: Seq<u8>, byte: u8)
    ensures
        opens_a_line(bytes, byte) <==> has_marker(bytes, byte),
{
    let seven = seq![byte, byte, byte, byte, byte, byte, byte];
    if opens_a_line(bytes, byte) {
        let at = choose|at: int| #[trigger] seven_from(bytes, byte, at);
        assert forall|k: int| at <= k < at + 7 implies #[trigger] bytes[k] == byte by {
            assert(bytes.subrange(at, at + 7)[k - at] == bytes[k]);
            assert(seven[k - at] == byte);
        }
        assert(marks_line(bytes, byte, at));
    }
    if has_marker(bytes, byte) {
        let at = choose|at: int| #[trigger] marks_line(bytes, byte, at);
        assert(bytes.subrange(at, at + 7) =~= seven);
        assert(seven_from(bytes, byte, at));
    }
}

/// A resolution is refused for exactly the files that still hold both ends of a
/// conflict, a line that seven `<` open and a line that seven `>` open, and it
/// names each of them. A file that is gone is a resolution.
pub proof fn law_a_resolution_is_refused_for_every_marked_file(
    files: Seq<HomeFile>,
    scope: Text,
    refused: Option<DotsyncError>,
    k: int,
)
    requires
        refuses_markers(files, scope, refused),
        0 <= k < files.len(),
    ensures
        ({
            let marked = files[k].contents matches Some(bytes) && opens_a_line(bytes@, 60u8)
                && opens_a_line(bytes@, 62u8);
            match refused {
                None => !marked,
                Some(DotsyncError::UnresolvedConflict { scope: at, paths }) => at@ == scope && (
                marked ==> paths@.contains(files[k].path)),
                Some(_) => false,
            }
        }),
        refused matches Some(DotsyncError::UnresolvedConflict { scope: at, paths }) ==> paths@.len()
            > 0 && forall|m: int|
            0 <= m < paths@.len() ==> is_marked(files, #[trigger] paths@[m]),
{
    let keep = |f: HomeFile| is_unresolved(f);
    let kept = files.filter(keep);
    let listed = unresolved_files(files);
    lemma_filter_holds(files, keep);
    if let Some(bytes) = files[k].contents {
        lemma_opens_a_line(bytes@, 60u8);
        lemma_opens_a_line(bytes@, 62u8);
    }
    assert(files.contains(files[k]));
    if is_unresolved(files[k]) {
        assert(kept.contains(files[k]));
        let m = choose|m: int| 0 <= m < kept.len() && kept[m] == files[k];
        assert(listed[m] == files[k].path);
    }
    assert forall|m: int| 0 <= m < listed.len() implies is_marked(files, #[trigger] listed[m]) by {
        assert(kept.contains(kept[m]));
        let f = choose|f: int| 0 <= f < files.len() && files[f] == kept[m];
        assert(keep(files[f]));
        let bytes = files[f].contents->0;
        lemma_opens_a_line(bytes@, 60u8);
        lemma_opens_a_line(bytes@, 62u8);
        assert(files[f].path == listed[m]);
    }
}

/// Whether one of some files has a path and holds both ends of a conflict.
pub open spec fn is_marked(files: Seq<HomeFile>, path: FilePath) -> bool {
    exists|f: int|
        0 <= f < files.len() && (#[trigger] files[f]).path == path && files[f].contents is Some
            && opens_a_line(files[f].contents->0@, 60u8) && opens_a_line(
            files[f].contents->0@,
            62u8,
        )
}

/// Refuses a resolution that still holds conflict markers.
pub fn refuse_markers(files: &Vec<HomeFile>, scope: &str) -> (refused: Option<DotsyncError>)
    ensures
        refuses_markers(files@, scope@, refused),
{
    let ghost keep = |f: HomeFile| is_unresolved(f);
    let ghost shown = |f: HomeFile| f.path;
    let mut paths: Vec<FilePath> = Vec::new();
    let mut i: usize = 0;
    proof {
        lemma_take_all(files@);
        reveal(Seq::filter);
        assert(paths@ =~= files@.take(0).filter(keep).map_values(shown));
    }
    while i < files.len()
        invariant
            i <= files.len(),
            keep == |f: HomeFile| is_unresolved(f),
            shown == |f: HomeFile| f.path,
            paths@ == files@.take(i as int).filter(keep).map_values(shown),
        decreases files.len() - i,
    {
        proof {
            lemma_filter_step(files@, keep, i as int);
        }
        let marked = match &files[i].contents {
            Some(bytes) => holds_conflict_markers(bytes),
            None => false,
        };
        if marked {
            paths.push(files[i].path.copy());
            proof {
                assert(paths@ =~= files@.take(i + 1).filter(keep).map_values(shown));
            }
        }
        i += 1;
    }
    proof {
        lemma_take_all(files@);
    }
    if paths.is_empty() {
        None
    } else {
        Some(DotsyncError::UnresolvedConflict { scope: scope.to_owned(), paths })
    }
}

/// Which paused state `continue` ends.
pub enum ContinuePlan {
    /// A commit that stopped in its own merge, which left a record.
    FinishCommit { paused: PausedCommit, checkpoint: Vec<(String, String)> },
    /// The pass, which stops at this scope.
    FinishConvergence { scope: String, checkpoint: Vec<(String, String)> },
    /// Home against this machine's own head.
    CompleteSyncConflict,
}

/// Which paused state `continue` ends.
pub open spec fn continues_with(
    recorded: Option<PausedRun>,
    pending: Option<String>,
    here: Vec<(String, String)>,
    plan: ContinuePlan,
) -> bool {
    match recorded {
        Some(PausedRun { checkpoint, paused_commit: Some(paused) }) => plan
            == (ContinuePlan::FinishCommit { paused, checkpoint }),
        _ => match pending {
            Some(scope) => plan == (ContinuePlan::FinishConvergence {
                scope,
                checkpoint: match recorded {
                    Some(run) => run.checkpoint,
                    None => here,
                },
            }),
            None => plan == ContinuePlan::CompleteSyncConflict,
        },
    }
}

/// A commit that stopped in its own merge is finished before anything else, with
/// all that was written down of it; otherwise the merge that the pass stops at
/// is, from the checkpoint of the run that met it; and with neither it is home
/// that is in conflict.
pub proof fn law_continue_ends_what_is_paused(
    recorded: Option<PausedRun>,
    pending: Option<String>,
    here: Vec<(String, String)>,
    plan: ContinuePlan,
)
    requires
        continues_with(recorded, pending, here, plan),
    ensures
        match plan {
            ContinuePlan::FinishCommit { paused, checkpoint } => recorded is Some
                && recorded->0.paused_commit == Some(paused) && recorded->0.checkpoint
                == checkpoint,
            ContinuePlan::FinishConvergence { scope, checkpoint } => pending == Some(scope) && (
            recorded is Some ==> recorded->0.paused_commit is None && checkpoint
                == recorded->0.checkpoint) && (recorded is None ==> checkpoint == here),
            ContinuePlan::CompleteSyncConflict => pending is None && (recorded is Some
                ==> recorded->0.paused_commit is None),
        },
        recorded is Some && recorded->0.paused_commit is Some ==> plan is FinishCommit,
        pending is Some && !(plan is FinishCommit) ==> plan is FinishConvergence,
{
}

/// Which paused state `continue` ends: a record of a stopped commit first, then
/// the pass, then home against its own head. `pending` is the scope the pass
/// stops at, and `here` is where the scopes stand.
pub fn continue_plan(
    recorded: Option<PausedRun>,
    pending: Option<String>,
    here: Vec<(String, String)>,
) -> (plan: ContinuePlan)
    ensures
        continues_with(recorded, pending, here, plan),
{
    match recorded {
        Some(run) => match run.paused_commit {
            Some(paused) => ContinuePlan::FinishCommit { paused, checkpoint: run.checkpoint },
            None => match pending {
                Some(scope) => ContinuePlan::FinishConvergence {
                    scope,
                    checkpoint: run.checkpoint,
                },
                None => ContinuePlan::CompleteSyncConflict,
            },
        },
        None => match pending {
            Some(scope) => ContinuePlan::FinishConvergence { scope, checkpoint: here },
            None => ContinuePlan::CompleteSyncConflict,
        },
    }
}

/// What home is told once a conflict is resolved: the conflicted files go back
/// to being whatever this machine's scope says they are.
pub fn after_resolving(discard_local: bool, conflicted: &Vec<FilePath>) -> (local: LocalChanges)
    ensures
        if discard_local {
            local is Discard
        } else {
            match local {
                LocalChanges::DiscardAt(paths) => paths@ == conflicted@,
                _ => false,
            }
        },
{
    if discard_local {
        LocalChanges::Discard
    } else {
        LocalChanges::DiscardAt(copy_paths(conflicted))
    }
}

/// The scope this machine is paused at, if it is paused at all: where a stopped
/// commit says, or where the pass stops.
pub open spec fn paused_at(recorded: Option<PausedRun>, pending: Option<Text>) -> Option<Text> {
    match recorded {
        Some(PausedRun { checkpoint, paused_commit: Some(paused) }) => Some(paused.scope@),
        _ => pending,
    }
}

/// The scope this machine is paused at, if it is paused at all.
pub fn paused_scope(recorded: &Option<PausedRun>, pending: &Option<String>) -> (scope: Option<
    String,
>)
    ensures
        opt_text(scope) == paused_at(*recorded, opt_text(*pending)),
{
    match recorded {
        Some(run) => match &run.paused_commit {
            Some(paused) => {
                return Some(paused.scope.clone());
            },
            None => {},
        },
        None => {},
    }
    match pending {
        Some(scope) => Some(scope.clone()),
        None => None,
    }
}

/// Refuses a new commit while one is waiting to be resolved.
pub fn reject_commit_if_paused(
    recorded: &Option<PausedRun>,
    pending: &Option<String>,
) -> (refused: Option<DotsyncError>)
    ensures
        match refused {
            Some(DotsyncError::PausedCascadeInProgress { scope }) => paused_at(
                *recorded,
                opt_text(*pending),
            ) == Some(scope@),
            Some(_) => false,
            None => paused_at(*recorded, opt_text(*pending)) is None,
        },
{
    match paused_scope(recorded, pending) {
        Some(scope) => Some(DotsyncError::PausedCascadeInProgress { scope }),
        None => None,
    }
}

/// What `abort` takes back: the scope it stops waiting at, and where every
/// scope that the run may have moved goes.
pub struct AbortPlan {
    pub paused_scope: String,
    pub restore: Vec<(String, String)>,
}

/// What `abort` comes to.
pub open spec fn abort_result(
    recorded: Option<PausedRun>,
    pending: Option<Text>,
    plan: Result<AbortPlan, DotsyncError>,
) -> bool {
    match paused_at(recorded, pending) {
        None => plan == Err::<AbortPlan, DotsyncError>(DotsyncError::NoPausedCascade),
        Some(scope) => match plan {
            Ok(plan) => {
                &&& plan.paused_scope@ == scope
                &&& checkpoint_view(plan.restore@) == match recorded {
                    Some(run) => checkpoint_view(run.checkpoint@),
                    None => Seq::empty(),
                }
            },
            Err(_) => false,
        },
    }
}

/// An abort has something to take back exactly where a commit stopped or the pass
/// stops, and it puts back every scope that the stopped run wrote down, each
/// where it stood, and no other.
pub proof fn law_abort_puts_back_what_was_written_down(
    recorded: Option<PausedRun>,
    pending: Option<Text>,
    plan: Result<AbortPlan, DotsyncError>,
)
    requires
        abort_result(recorded, pending, plan),
    ensures
        plan is Ok <==> pending is Some || (recorded is Some && recorded->0.paused_commit is Some),
        plan matches Err(error) ==> error is NoPausedCascade,
        plan matches Ok(plan) ==> {
            &&& recorded is Some && recorded->0.paused_commit is Some ==> plan.paused_scope@
                == recorded->0.paused_commit->0.scope@
            &&& !(recorded is Some && recorded->0.paused_commit is Some) ==> Some(
                plan.paused_scope@,
            ) == pending
            &&& recorded is None ==> plan.restore@.len() == 0
            &&& recorded is Some ==> plan.restore@.len() == recorded->0.checkpoint@.len() && forall|
                k: int,
            |
                0 <= k < plan.restore@.len() ==> (#[trigger] plan.restore@[k]).0@
                    == recorded->0.checkpoint@[k].0@ && plan.restore@[k].1@
                    == recorded->0.checkpoint@[k].1@
        },
{
    if let Ok(found) = plan {
        assert(checkpoint_view(found.restore@).len() == found.restore@.len());
        if recorded is Some {
            let point = recorded->0.checkpoint@;
            assert(checkpoint_view(point).len() == point.len());
            assert forall|k: int| 0 <= k < found.restore@.len() implies (
            #[trigger] found.restore@[k]).0@ == point[k].0@ && found.restore@[k].1@
                == point[k].1@ by {
                assert(checkpoint_view(found.restore@)[k] == (
                    found.restore@[k].0@,
                    found.restore@[k].1@,
                ));
                assert(checkpoint_view(point)[k] == (point[k].0@, point[k].1@));
            }
        }
    }
}

/// A machine is paused where a commit stopped, or else where the pass stops, and
/// nowhere else.
pub proof fn law_a_pause_is_where_something_stopped(
    recorded: Option<PausedRun>,
    pending: Option<Text>,
)
    ensures
        paused_at(recorded, pending) == if recorded is Some && recorded->0.paused_commit is Some {
            Some(recorded->0.paused_commit->0.scope@)
        } else {
            pending
        },
{
}

/// What `abort` takes back. There may be nothing to move: a conflict that came
/// from the remote is not something this machine committed.
pub fn abort_plan(recorded: Option<PausedRun>, pending: &Option<String>) -> (plan: Result<
    AbortPlan,
    DotsyncError,
>)
    ensures
        abort_result(recorded, opt_text(*pending), plan),
{
    match paused_scope(&recorded, pending) {
        None => Err(DotsyncError::NoPausedCascade),
        Some(paused_scope) => {
            let restore = match recorded {
                Some(run) => run.checkpoint,
                None => {
                    let none: Vec<(String, String)> = Vec::new();
                    proof {
                        assert(checkpoint_view(none@) =~= Seq::<(Text, Text)>::empty());
                    }
                    none
                },
            };
            Ok(AbortPlan { paused_scope, restore })
        },
    }
}

/// What the record of a stopped run is called.
pub const PAUSED_RUN_FILE: &'static str = ".dotsync-paused-cascade.json";

/// Where the record of a stopped run is kept: beside the repo.
pub fn paused_run_path(paths: &DotsyncPaths) -> (path: FilePath)
    ensures
        path.text@ == joined_path(paths.repo_root.text@, PAUSED_RUN_FILE@),
{
    paths.repo_root.join(&FilePath::new(PAUSED_RUN_FILE))
}

/// Deleting every record that dotsync keeps beside its repo does not make a
/// pause of the pass look resolved: it still stops at the same scope.
pub proof fn law_a_lost_record_hides_no_pause(run: PausedRun, pending: Option<Text>)
    requires
        run.paused_commit is None,
    ensures
        paused_at(Some(run), pending) == paused_at(None, pending),
{
}

} // verus!
