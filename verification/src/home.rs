//! Home as a working copy: the decisions of a run that reads it and moves it.
//! The caller locks, snapshots, merges and writes.
use vstd::prelude::*;
use vstd::string::*;
use crate::drift::{Entries, TreeValue};
use crate::error::{is_internal, jj_error, DotsyncError};
use crate::paths::{
    find, joined_path, keys, lemma_sorted_value, lemma_value_at, sorted_paths, value_at, FilePath,
};
use crate::selection::DotsyncPaths;
use crate::text::{same_text, Text};

verus! {

/// The description of the commit that stands for home.
pub const WC_COMMIT_DESCRIPTION: &'static str = "dotsync: working copy";

/// Where an earlier release kept its own record of what it had synced.
pub const SHED_SYNC_STATE_RELATIVE_PATH: &'static str = ".config/dotsync/sync-state.json";

/// Where, under the repo, the state of the working copy is kept.
pub const STATE_DIRECTORY: &'static str = ".jj/working_copy";

/// The file in it that says what was last written into home.
pub const STATE_FILE: &'static str = "dotsync-home.json";

pub const HOME_LABEL: &'static str = "local changes in home";

pub const MARK_LABEL: &'static str = "what this machine last synced";

pub const MATERIALIZED_LABEL: &'static str = "what this machine last materialized";

pub const TARGET_LABEL: &'static str = "the interrupted sync";

/// Where the state of the working copy is kept.
pub fn state_directory(paths: &DotsyncPaths) -> (path: FilePath)
    ensures
        path.text@ == joined_path(paths.repo_root.text@, STATE_DIRECTORY@),
{
    paths.repo_root.join(&FilePath::new(STATE_DIRECTORY))
}

/// Whether home has caught up with what the repo says of it.
#[derive(Debug, Clone, Copy, PartialEq, Eq, Structural)]
pub enum Freshness {
    Fresh,
    /// The state names an operation newer than the repo's head.
    Updated,
    /// A run died between committing a sync and writing it into home.
    Stale,
    /// The same, with another operation in between.
    Sibling,
}

/// What a run does next to have home.
pub enum AcquireState {
    /// Load the state of the working copy, or make one that has written nothing
    /// yet.
    Open { exists: bool },
    Lock,
    /// Read the repo again: another run may have finished before the lock.
    Reread,
    /// Find the commit that stands for home, or create it on this machine's
    /// scope, where the repo has never had one.
    EnsureCommit,
    /// Compare the state with the commit.
    CheckFreshness,
    /// Read home, and amend the commit to what it holds.
    Snapshot,
    /// Finish or take back the sync that was interrupted.
    Repair,
    /// Home is what the commit says.
    Ready,
    Failed(DotsyncError),
}

/// What happened.
pub enum AcquireEvent {
    /// What was to be done is done.
    Done,
    /// The comparison with the commit says this.
    Found(Freshness),
    Failed(DotsyncError),
}

/// Whether an acquisition has ended because the state is ahead of the repo.
pub open spec fn is_ahead(state: AcquireState) -> bool {
    match state {
        AcquireState::Failed(error) => is_internal(
            error,
            "working copy state is ahead of the repository"@,
        ),
        _ => false,
    }
}

/// The course of an acquisition. An event that does not belong to a state
/// changes nothing.
pub open spec fn acquires_to(
    before: AcquireState,
    event: AcquireEvent,
    after: AcquireState,
) -> bool {
    match (before, event) {
        (AcquireState::Ready, _) => after == before,
        (AcquireState::Failed(_), _) => after == before,
        (_, AcquireEvent::Failed(error)) => after == AcquireState::Failed(error),
        (AcquireState::Open { exists }, AcquireEvent::Done) => after == AcquireState::Lock,
        (AcquireState::Lock, AcquireEvent::Done) => after == AcquireState::Reread,
        (AcquireState::Reread, AcquireEvent::Done) => after == AcquireState::EnsureCommit,
        (AcquireState::EnsureCommit, AcquireEvent::Done) => after == AcquireState::CheckFreshness,
        (AcquireState::CheckFreshness, AcquireEvent::Found(freshness)) => match freshness {
            Freshness::Fresh => after == AcquireState::Snapshot,
            Freshness::Updated => is_ahead(after),
            Freshness::Stale => after == AcquireState::Repair,
            Freshness::Sibling => after == AcquireState::Repair,
        },
        (AcquireState::Snapshot, AcquireEvent::Done) => after == AcquireState::Ready,
        (AcquireState::Repair, AcquireEvent::Done) => after == AcquireState::Ready,
        _ => after == before,
    }
}

/// The acquisition after something happened.
pub fn acquire_step(state: AcquireState, event: AcquireEvent) -> (after: AcquireState)
    ensures
        acquires_to(state, event, after),
{
    match (state, event) {
        (AcquireState::Ready, _) => AcquireState::Ready,
        (AcquireState::Failed(error), _) => AcquireState::Failed(error),
        (_, AcquireEvent::Failed(error)) => AcquireState::Failed(error),
        (AcquireState::Open { exists }, AcquireEvent::Done) => AcquireState::Lock,
        (AcquireState::Lock, AcquireEvent::Done) => AcquireState::Reread,
        (AcquireState::Reread, AcquireEvent::Done) => AcquireState::EnsureCommit,
        (AcquireState::EnsureCommit, AcquireEvent::Done) => AcquireState::CheckFreshness,
        (AcquireState::CheckFreshness, AcquireEvent::Found(freshness)) => match freshness {
            Freshness::Fresh => AcquireState::Snapshot,
            Freshness::Updated => AcquireState::Failed(
                jj_error("working copy state is ahead of the repository".to_owned()),
            ),
            Freshness::Stale => AcquireState::Repair,
            Freshness::Sibling => AcquireState::Repair,
        },
        (AcquireState::Snapshot, AcquireEvent::Done) => AcquireState::Ready,
        (AcquireState::Repair, AcquireEvent::Done) => AcquireState::Ready,
        (state, _) => state,
    }
}

/// By the time home is compared with the repo, the working copy is locked and
/// the repo has been read again under the lock.
pub proof fn law_home_is_compared_under_the_lock(
    before: AcquireState,
    event: AcquireEvent,
    after: AcquireState,
)
    requires
        acquires_to(before, event, after),
        before != after,
    ensures
        after is CheckFreshness ==> before is EnsureCommit,
        after is EnsureCommit ==> before is Reread,
        after is Reread ==> before is Lock,
        after is Ready ==> before is Snapshot || before is Repair,
{
}

/// The commit this machine last wrote into home: the one parent of the commit
/// that stands for home.
pub fn mark_of(parents: &Vec<String>) -> (mark: Result<String, DotsyncError>)
    ensures
        if parents@.len() == 1 {
            mark matches Ok(id) && id@ == parents@[0]@
        } else {
            mark matches Err(error) && is_internal(
                error,
                "the working copy commit has more than one parent"@,
            )
        },
{
    if parents.len() == 1 {
        Ok(parents[0].clone())
    } else {
        Err(jj_error("the working copy commit has more than one parent".to_owned()))
    }
}

/// Whether a merge of home with a head that was made before is still the merge
/// of the two.
pub fn still_merged(made: &Option<(String, String)>, home: &str, head: &str) -> (same: bool)
    ensures
        same == match made {
            Some(pair) => pair.0@ == home@ && pair.1@ == head@,
            None => false,
        },
{
    match made {
        Some(pair) => same_text(pair.0.as_str(), home) && same_text(pair.1.as_str(), head),
        None => false,
    }
}

/// What moving home to a head comes to.
#[derive(Debug, Clone, Copy, PartialEq, Eq, Structural)]
pub enum Materialize {
    /// Home derives from the head already.
    AlreadyThere,
    /// Home, the mark and the head have to be merged first.
    Merge,
    /// The merge conflicted: home is not touched.
    Conflicted,
    /// The merge resolved: home moves whole, local edits carried across.
    CheckOut,
}

/// What moving home to a head comes to.
pub open spec fn materialized(head: Text, mark: Text, conflicted: Option<bool>) -> Materialize {
    if head == mark {
        Materialize::AlreadyThere
    } else {
        match conflicted {
            None => Materialize::Merge,
            Some(true) => Materialize::Conflicted,
            Some(false) => Materialize::CheckOut,
        }
    }
}

/// Home is written exactly where it does not derive from the head yet and the
/// merge of the two resolved, and it is never written from a merge that did not.
pub proof fn law_home_moves_to_what_resolved(head: Text, mark: Text, conflicted: Option<bool>)
    ensures
        materialized(head, mark, conflicted) == Materialize::CheckOut <==> head != mark
            && conflicted == Some(false),
        materialized(head, mark, conflicted) == Materialize::Conflicted <==> head != mark
            && conflicted == Some(true),
        materialized(head, mark, conflicted) == Materialize::Merge <==> head != mark
            && conflicted is None,
        materialized(head, mark, conflicted) == Materialize::AlreadyThere <==> head == mark,
{
}

/// What moving home to a head comes to; `conflicted` is what the merge came to,
/// once it was made.
pub fn materialize_step(head: &str, mark: &str, conflicted: Option<bool>) -> (step: Materialize)
    ensures
        step == materialized(head@, mark@, conflicted),
{
    if same_text(head, mark) {
        return Materialize::AlreadyThere;
    }
    match conflicted {
        None => Materialize::Merge,
        Some(conflicted) => if conflicted {
            Materialize::Conflicted
        } else {
            Materialize::CheckOut
        },
    }
}

/// Whether home already is what a head holds, so that there is nothing to drop.
pub fn holds_head(head: &str, mark: &str, home_tree: &str, head_tree: &str) -> (there: bool)
    ensures
        there == (head@ == mark@ && home_tree@ == head_tree@),
{
    same_text(head, mark) && same_text(home_tree, head_tree)
}

/// What moving home to a head comes to when changes of its own are dropped.
pub open spec fn dropped_to(head: Text, mark: Text, home_tree: Text, wanted_tree: Text, conflicted: bool) -> Materialize {
    if conflicted {
        Materialize::Conflicted
    } else if head == mark && home_tree == wanted_tree {
        Materialize::AlreadyThere
    } else {
        Materialize::CheckOut
    }
}

/// Where changes are dropped, home is left as it is only if it derives from the
/// head and holds what it is to hold, and it is written in every other case but a
/// conflict.
pub proof fn law_a_drop_leaves_home_as_wanted(
    head: Text,
    mark: Text,
    home_tree: Text,
    wanted_tree: Text,
    conflicted: bool,
)
    ensures
        conflicted <==> dropped_to(head, mark, home_tree, wanted_tree, conflicted)
            == Materialize::Conflicted,
        dropped_to(head, mark, home_tree, wanted_tree, conflicted) == Materialize::CheckOut <==> (
        head != mark || home_tree != wanted_tree) && !conflicted,
        dropped_to(head, mark, home_tree, wanted_tree, conflicted) == Materialize::AlreadyThere
            ==> head == mark && home_tree == wanted_tree,
{
}

/// What moving home to a head comes to when changes of its own are dropped: with
/// what is left of them merged into the head's tree, home is to hold
/// `wanted_tree`, unless that merge conflicted.
pub fn dropping_step(
    head: &str,
    mark: &str,
    home_tree: &str,
    wanted_tree: &str,
    conflicted: bool,
) -> (step: Materialize)
    ensures
        step == dropped_to(head@, mark@, home_tree@, wanted_tree@, conflicted),
{
    if conflicted {
        Materialize::Conflicted
    } else if holds_head(head, mark, home_tree, wanted_tree) {
        Materialize::AlreadyThere
    } else {
        Materialize::CheckOut
    }
}

/// What completing a conflict between home and a head comes to.
#[derive(Debug, Clone, Copy, PartialEq, Eq, Structural)]
pub enum Resolve {
    /// Home and the head merge cleanly, or home derives from the head already.
    NothingToResolve,
    Merge,
    /// Home's bytes are the resolution of every path the merge stopped on.
    TakeHome,
}

/// What completing a conflict between home and a head comes to.
pub open spec fn resolved_by(head: Text, mark: Text, conflicted: Option<bool>) -> Resolve {
    if head == mark {
        Resolve::NothingToResolve
    } else {
        match conflicted {
            None => Resolve::Merge,
            Some(true) => Resolve::TakeHome,
            Some(false) => Resolve::NothingToResolve,
        }
    }
}

/// Home's bytes are taken as the answer exactly where home does not derive from
/// the head yet and the merge of the two stopped.
pub proof fn law_home_answers_only_a_conflict(head: Text, mark: Text, conflicted: Option<bool>)
    ensures
        resolved_by(head, mark, conflicted) == Resolve::TakeHome <==> head != mark && conflicted
            == Some(true),
        resolved_by(head, mark, conflicted) == Resolve::Merge <==> head != mark && conflicted
            is None,
{
}

/// What completing a conflict between home and a head comes to.
pub fn resolve_step(head: &str, mark: &str, conflicted: Option<bool>) -> (step: Resolve)
    ensures
        step == resolved_by(head@, mark@, conflicted),
{
    if same_text(head, mark) {
        return Resolve::NothingToResolve;
    }
    match conflicted {
        None => Resolve::Merge,
        Some(conflicted) => if conflicted {
            Resolve::TakeHome
        } else {
            Resolve::NothingToResolve
        },
    }
}

/// What the repair of an interrupted sync comes to.
#[derive(Debug, Clone, Copy, PartialEq, Eq, Structural)]
pub enum Repair {
    /// Home already is what the sync was to write: only the state is behind.
    NothingToDo,
    /// Home, what was last written into it, and the target have to be merged.
    Merge,
    /// Edits made since do not collide with the sync: complete it, carrying
    /// them.
    Complete,
    /// They do: home is an edit of what it derived from before, and says so.
    Rewind,
}

/// What the repair of an interrupted sync comes to.
pub open spec fn repaired_by(home_tree: Text, target_tree: Text, conflicted: Option<bool>) -> Repair {
    if home_tree == target_tree {
        Repair::NothingToDo
    } else {
        match conflicted {
            None => Repair::Merge,
            Some(true) => Repair::Rewind,
            Some(false) => Repair::Complete,
        }
    }
}

/// An interrupted sync is completed exactly where home is not at its target yet
/// and what was edited since merges with it, and taken back exactly where it does
/// not.
pub proof fn law_a_repair_completes_or_rewinds(
    home_tree: Text,
    target_tree: Text,
    conflicted: Option<bool>,
)
    ensures
        repaired_by(home_tree, target_tree, conflicted) == Repair::Complete <==> home_tree
            != target_tree && conflicted == Some(false),
        repaired_by(home_tree, target_tree, conflicted) == Repair::Rewind <==> home_tree
            != target_tree && conflicted == Some(true),
        repaired_by(home_tree, target_tree, conflicted) == Repair::NothingToDo <==> home_tree
            == target_tree,
{
}

/// What the repair of an interrupted sync comes to. It never amends first: every
/// incoming change that was not delivered would then read as a local edit
/// undoing it.
pub fn repair_step(home_tree: &str, target_tree: &str, conflicted: Option<bool>) -> (step: Repair)
    ensures
        step == repaired_by(home_tree@, target_tree@, conflicted),
{
    if same_text(home_tree, target_tree) {
        return Repair::NothingToDo;
    }
    match conflicted {
        None => Repair::Merge,
        Some(conflicted) => if conflicted {
            Repair::Rewind
        } else {
            Repair::Complete
        },
    }
}

/// Whether the commit that stands for home has to be amended: home is not what
/// it says.
pub fn needs_amending(home_tree: &str, commit_tree: &str) -> (needed: bool)
    ensures
        needed == (home_tree@ != commit_tree@),
{
    !same_text(home_tree, commit_tree)
}

/// What a path is set to in a tree: a value, or nothing.
pub type Overrides = Vec<(FilePath, Option<TreeValue>)>;

/// What some paths are set to when home's side of them is taken: what home
/// holds, and nothing where it holds nothing.
pub open spec fn home_side(
    paths: Seq<FilePath>,
    snapshot: Seq<(FilePath, TreeValue)>,
) -> Seq<(FilePath, Option<TreeValue>)> {
    paths.map_values(|p: FilePath| (p, value_at(snapshot, p@)))
}

/// What some paths are set to when a tree's side of them is taken: home's for the
/// paths that a commit records and for those that were in conflict, the head's
/// for the paths at which a change of home's is dropped.
pub fn take_home(paths: &Vec<FilePath>, snapshot: &Entries) -> (overrides: Overrides)
    ensures
        overrides@ == home_side(paths@, snapshot@),
{
    let mut overrides: Overrides = Vec::new();
    let mut i: usize = 0;
    while i < paths.len()
        invariant
            i <= paths.len(),
            overrides.len() == i,
            forall|j: int|
                0 <= j < i ==> #[trigger] overrides@[j] == (
                    paths@[j],
                    value_at(snapshot@, paths@[j]@),
                ),
        decreases paths.len() - i,
    {
        let value = match find(snapshot, &paths[i]) {
            Some(value) => Some(value.copy()),
            None => None,
        };
        overrides.push((paths[i].copy(), value));
        i += 1;
    }
    proof {
        assert(overrides@ =~= home_side(paths@, snapshot@));
    }
    overrides
}

/// Each path whose side of a tree is taken is set to what the tree holds there, and
/// to nothing where it holds nothing; no other path is set.
pub proof fn law_a_taken_side_is_what_the_tree_holds(
    paths: Seq<FilePath>,
    snapshot: Seq<(FilePath, TreeValue)>,
    k: int,
)
    requires
        sorted_paths(keys(snapshot)),
        0 <= k < paths.len(),
    ensures
        home_side(paths, snapshot).len() == paths.len(),
        home_side(paths, snapshot)[k].0 == paths[k],
        forall|i: int|
            0 <= i < snapshot.len() && (#[trigger] snapshot[i]).0@ == paths[k]@ ==> home_side(
                paths,
                snapshot,
            )[k].1 == Some(snapshot[i].1),
        (forall|i: int| 0 <= i < snapshot.len() ==> (#[trigger] snapshot[i]).0@ != paths[k]@)
            ==> home_side(paths, snapshot)[k].1 is None,
{
    lemma_value_at(snapshot, paths[k]@);
    assert forall|i: int| 0 <= i < snapshot.len() && (#[trigger] snapshot[i]).0@ == paths[k]@ implies home_side(
        paths,
        snapshot,
    )[k].1 == Some(snapshot[i].1) by {
        lemma_sorted_value(snapshot, i);
    }
}

/// Home is acquired one step at a time: the working copy is opened, locked and the
/// repo read again before home is compared with it; a home that kept up is read,
/// one that did not is repaired, and one that is ahead of the repo is refused.
pub proof fn law_an_acquisition_goes_step_by_step(
    before: AcquireState,
    event: AcquireEvent,
    after: AcquireState,
)
    requires
        acquires_to(before, event, after),
    ensures
        before is Open && event is Done ==> after is Lock,
        before is Lock && event is Done ==> after is Reread,
        before is Reread && event is Done ==> after is EnsureCommit,
        before is EnsureCommit && event is Done ==> after is CheckFreshness,
        before is CheckFreshness ==> (event matches AcquireEvent::Found(freshness) ==> {
            &&& freshness == Freshness::Fresh <==> after is Snapshot
            &&& freshness == Freshness::Stale || freshness == Freshness::Sibling <==> after
                is Repair
            &&& freshness == Freshness::Updated <==> after is Failed
        }),
        (before is Snapshot || before is Repair) && event is Done ==> after is Ready,
        !(before is Ready || before is Failed) ==> (event matches AcquireEvent::Failed(error)
            ==> after == AcquireState::Failed(error)),
{
}

} // verus!
