//! The home sync: what it does with the changes home is holding, and what it
//! reports.
use vstd::prelude::*;
use vstd::string::*;
use crate::drift::{
    changed_paths, drifted, in_group, ClassifiedPath, FileState, StateGroup,
};
use crate::error::{
    file_views, opt_bytes, version_views, ConflictRole, ConflictedFile, ConflictedFileView,
    ConflictedVersion, ConflictedVersionView, DotsyncError,
};
use crate::paths::{all_paths, contains_path, find, keys, value_at, Components, FilePath};
use crate::repo::{head_of, one_commit, scope_head, scope_head_commit, Heads, PushReport};
use crate::scope_graph::{names_of, ScopeGraph, ScopeView};
use crate::seqs::{lemma_filter_holds, lemma_filter_step, lemma_take_all};
use crate::text::{texts, Text};

verus! {

/// One managed path whose home content is not what the repo says it should be,
/// with both sides.
#[derive(Debug, Clone)]
pub struct FileDrift {
    pub repo_path: FilePath,
    pub system_path: FilePath,
    /// Which of the three sides moved.
    pub state: FileState,
    /// What the repo holds, or `None` when the repo has no such file.
    pub repo_bytes: Option<Vec<u8>>,
    /// What home holds, or `None` when the file was deleted from home.
    pub home_bytes: Option<Vec<u8>>,
}

/// A path and where it stands.
#[derive(Debug, Clone)]
pub struct FileChange {
    pub path: FilePath,
    pub state: FileState,
}

/// What one sync wrote into home.
#[derive(Debug, Clone)]
pub struct SyncReport {
    pub current_scope: String,
    pub synced_paths: Vec<FilePath>,
    /// The local changes the sync destroyed.
    pub drifts: Vec<FileDrift>,
    /// The local changes the sync merged around and left standing in home.
    pub carried_changes: Vec<FileChange>,
}

/// What a plain run did: what reached home, and what reached the remote.
#[derive(Debug, Clone)]
pub struct SyncCommandReport {
    pub sync: SyncReport,
    pub push: PushReport,
}

/// What a sync does with the changes home is holding.
pub enum LocalChanges {
    /// Merged in.
    Carry,
    /// Dropped whole.
    Discard,
    /// Dropped at these paths, carried everywhere else.
    DiscardAt(Vec<FilePath>),
}

/// Whether a sync drops the change that home holds at a path.
pub open spec fn drops(local: LocalChanges, path: Components) -> bool {
    match local {
        LocalChanges::Carry => false,
        LocalChanges::Discard => true,
        LocalChanges::DiscardAt(paths) => all_paths(paths@).contains(path),
    }
}

impl LocalChanges {
    /// Whether the change that home holds at a path is dropped.
    pub fn discards(&self, path: &FilePath) -> (dropped: bool)
        ensures
            dropped == drops(*self, path@),
    {
        match self {
            LocalChanges::Carry => false,
            LocalChanges::Discard => true,
            LocalChanges::DiscardAt(paths) => contains_path(paths, path),
        }
    }
}

/// The change at a classified path.
pub open spec fn change_of(entry: (FilePath, ClassifiedPath)) -> FileChange {
    FileChange { path: entry.0, state: entry.1.state }
}

/// The changes at the classified paths of a group, in order.
pub open spec fn group_changes(
    classified: Seq<(FilePath, ClassifiedPath)>,
    group: StateGroup,
) -> Seq<FileChange> {
    classified.filter(
        |e: (FilePath, ClassifiedPath)| in_group(group, e.1.state),
    ).map_values(|e: (FilePath, ClassifiedPath)| change_of(e))
}

/// Whether a path is classified, in a state.
pub open spec fn is_classified(
    classified: Seq<(FilePath, ClassifiedPath)>,
    path: FilePath,
    state: FileState,
) -> bool {
    exists|i: int|
        0 <= i < classified.len() && (#[trigger] classified[i]).0 == path && classified[i].1.state
            == state
}

/// The changes of a group are the classified paths whose state is in it.
pub proof fn lemma_group_changes(
    classified: Seq<(FilePath, ClassifiedPath)>,
    group: StateGroup,
    path: FilePath,
    state: FileState,
)
    ensures
        group_changes(classified, group).contains(FileChange { path, state }) <==> is_classified(
            classified,
            path,
            state,
        ) && in_group(group, state),
{
    let keep = |e: (FilePath, ClassifiedPath)| in_group(group, e.1.state);
    let kept = classified.filter(keep);
    let changes = group_changes(classified, group);
    let change = FileChange { path, state };
    lemma_filter_holds(classified, keep);
    if changes.contains(change) {
        let k = choose|k: int| 0 <= k < changes.len() && changes[k] == change;
        assert(change_of(kept[k]) == change);
        assert(kept.contains(kept[k]));
        let i = choose|i: int| 0 <= i < classified.len() && classified[i] == kept[k];
        assert(classified[i].0 == path);
        assert(keep(kept[k]));
    }
    if is_classified(classified, path, state) && in_group(group, state) {
        let i = choose|i: int|
            0 <= i < classified.len() && (#[trigger] classified[i]).0 == path
                && classified[i].1.state == state;
        assert(classified.contains(classified[i]));
        assert(kept.contains(classified[i]));
        let k = choose|k: int| 0 <= k < kept.len() && kept[k] == classified[i];
        assert(changes[k] == change);
    }
}

/// The changes at the classified paths of a group, in order.
pub fn file_changes(
    classified: &Vec<(FilePath, ClassifiedPath)>,
    group: StateGroup,
) -> (changes: Vec<FileChange>)
    ensures
        changes@ == group_changes(classified@, group),
{
    let found = changed_paths(classified, group);
    let mut changes: Vec<FileChange> = Vec::new();
    let mut i: usize = 0;
    while i < found.len()
        invariant
            i <= found.len(),
            changes.len() == i,
            forall|j: int| 0 <= j < i ==> #[trigger] changes@[j] == change_of(found@[j]),
        decreases found.len() - i,
    {
        changes.push(FileChange { path: found[i].0.copy(), state: found[i].1.state });
        i += 1;
    }
    proof {
        assert(changes@ =~= group_changes(classified@, group));
    }
    changes
}

/// The local changes that a sync destroys.
pub open spec fn destroyed(
    classified: Seq<(FilePath, ClassifiedPath)>,
    local: LocalChanges,
) -> Seq<(FilePath, ClassifiedPath)> {
    classified.filter(
        |e: (FilePath, ClassifiedPath)| drifted(e.1.state) && drops(local, e.0@),
    )
}

/// The local changes that a sync leaves standing.
pub open spec fn carried(
    classified: Seq<(FilePath, ClassifiedPath)>,
    local: LocalChanges,
) -> Seq<FileChange> {
    classified.filter(
        |e: (FilePath, ClassifiedPath)| drifted(e.1.state) && !drops(local, e.0@),
    ).map_values(|e: (FilePath, ClassifiedPath)| change_of(e))
}

/// Which local changes a sync destroys and which it keeps.
pub fn sort_local_changes(
    classified: &Vec<(FilePath, ClassifiedPath)>,
    local: &LocalChanges,
) -> (sorted: (Vec<(FilePath, ClassifiedPath)>, Vec<FileChange>))
    ensures
        sorted.0@ == destroyed(classified@, *local),
        sorted.1@ == carried(classified@, *local),
{
    let ghost gone = |e: (FilePath, ClassifiedPath)| drifted(e.1.state) && drops(*local, e.0@);
    let ghost kept = |e: (FilePath, ClassifiedPath)| drifted(e.1.state) && !drops(*local, e.0@);
    let ghost shown = |e: (FilePath, ClassifiedPath)| change_of(e);
    let mut dropped: Vec<(FilePath, ClassifiedPath)> = Vec::new();
    let mut standing: Vec<FileChange> = Vec::new();
    let mut i: usize = 0;
    proof {
        lemma_take_all(classified@);
        reveal(Seq::filter);
        assert(dropped@ =~= classified@.take(0).filter(gone));
        assert(standing@ =~= classified@.take(0).filter(kept).map_values(shown));
    }
    while i < classified.len()
        invariant
            i <= classified.len(),
            gone == |e: (FilePath, ClassifiedPath)| drifted(e.1.state) && drops(*local, e.0@),
            kept == |e: (FilePath, ClassifiedPath)| drifted(e.1.state) && !drops(*local, e.0@),
            shown == |e: (FilePath, ClassifiedPath)| change_of(e),
            dropped@ == classified@.take(i as int).filter(gone),
            standing@ == classified@.take(i as int).filter(kept).map_values(shown),
        decreases classified.len() - i,
    {
        proof {
            lemma_filter_step(classified@, gone, i as int);
            lemma_filter_step(classified@, kept, i as int);
        }
        let entry = &classified[i];
        if entry.1.state.is_drift() {
            if local.discards(&entry.0) {
                dropped.push((entry.0.copy(), entry.1.copy()));
            } else {
                standing.push(FileChange { path: entry.0.copy(), state: entry.1.state });
                proof {
                    assert(standing@ =~= classified@.take(i + 1).filter(kept).map_values(shown));
                }
            }
        }
        i += 1;
    }
    proof {
        lemma_take_all(classified@);
    }
    (dropped, standing)
}

/// A sync accounts for every change of this machine's own: it is destroyed or
/// left standing, and never both.
pub proof fn law_every_local_change_is_accounted_for(
    classified: Seq<(FilePath, ClassifiedPath)>,
    local: LocalChanges,
    entry: (FilePath, ClassifiedPath),
)
    requires
        classified.contains(entry),
        drifted(entry.1.state),
    ensures
        destroyed(classified, local).contains(entry) <==> drops(local, entry.0@),
        carried(classified, local).contains(change_of(entry)) || destroyed(
            classified,
            local,
        ).contains(entry),
{
    let gone = |e: (FilePath, ClassifiedPath)| drifted(e.1.state) && drops(local, e.0@);
    let kept = |e: (FilePath, ClassifiedPath)| drifted(e.1.state) && !drops(local, e.0@);
    lemma_filter_holds(classified, gone);
    lemma_filter_holds(classified, kept);
    if !drops(local, entry.0@) {
        let rest = classified.filter(kept);
        assert(rest.contains(entry));
        let k = choose|k: int| 0 <= k < rest.len() && rest[k] == entry;
        assert(carried(classified, local)[k] == change_of(entry));
    }
}

/// A plain sync destroys nothing of this machine's own.
pub proof fn law_plain_sync_destroys_nothing(classified: Seq<(FilePath, ClassifiedPath)>)
    ensures
        destroyed(classified, LocalChanges::Carry).len() == 0,
{
    let gone = |e: (FilePath, ClassifiedPath)|
        drifted(e.1.state) && drops(LocalChanges::Carry, e.0@);
    lemma_filter_holds(classified, gone);
    let all = classified.filter(gone);
    if all.len() > 0 {
        assert(all.contains(all[0]));
    }
}

/// The paths among `targets` at which there is no change of this machine's own.
pub open spec fn idle_targets(
    targets: Seq<FilePath>,
    classified: Seq<(FilePath, ClassifiedPath)>,
) -> Seq<FilePath> {
    targets.filter(
        |t: FilePath|
            !keys(
                classified.filter(
                    |e: (FilePath, ClassifiedPath)| in_group(StateGroup::Drift, e.1.state),
                ),
            ).contains(t@),
    )
}

/// Refuses a `discard` that names a path holding no change of this machine's
/// own: there is nothing at it to decide against.
pub fn nothing_to_discard(
    targets: &Vec<FilePath>,
    classified: &Vec<(FilePath, ClassifiedPath)>,
) -> (refused: Option<DotsyncError>)
    ensures
        match refused {
            Some(DotsyncError::NothingToDiscard { paths }) => paths@ == idle_targets(
                targets@,
                classified@,
            ) && paths@.len() > 0,
            Some(_) => false,
            None => idle_targets(targets@, classified@).len() == 0,
        },
{
    let changed = changed_paths(classified, StateGroup::Drift);
    let ghost keep = |t: FilePath|
        !keys(
            classified@.filter(
                |e: (FilePath, ClassifiedPath)| in_group(StateGroup::Drift, e.1.state),
            ),
        ).contains(t@);
    let mut idle: Vec<FilePath> = Vec::new();
    let mut i: usize = 0;
    proof {
        lemma_take_all(targets@);
        reveal(Seq::filter);
    }
    while i < targets.len()
        invariant
            i <= targets.len(),
            changed@ == classified@.filter(
                |e: (FilePath, ClassifiedPath)| in_group(StateGroup::Drift, e.1.state),
            ),
            keep == |t: FilePath|
                !keys(
                    classified@.filter(
                        |e: (FilePath, ClassifiedPath)| in_group(StateGroup::Drift, e.1.state),
                    ),
                ).contains(t@),
            idle@ == targets@.take(i as int).filter(keep),
        decreases targets.len() - i,
    {
        proof {
            lemma_filter_step(targets@, keep, i as int);
            crate::paths::lemma_value_at(changed@, targets@[i as int]@);
        }
        if find(&changed, &targets[i]).is_none() {
            idle.push(targets[i].copy());
        }
        i += 1;
    }
    proof {
        lemma_take_all(targets@);
    }
    if idle.is_empty() {
        None
    } else {
        Some(DotsyncError::NothingToDiscard { paths: idle })
    }
}

/// Whether an error says that a machine has no scope of its own, and what the
/// repo has instead.
pub open spec fn is_scope_missing(
    error: DotsyncError,
    machine: Text,
    graph: Seq<ScopeView>,
) -> bool {
    match error {
        DotsyncError::MachineScopeMissing { scope, scopes, root } => {
            &&& scope@ == machine
            &&& texts(scopes@) == names_of(graph)
            &&& match root {
                Some(root) => exists|i: int|
                    0 <= i < graph.len() && (#[trigger] graph[i]).name == root@
                        && graph[i].parents.len() == 0 && forall|j: int|
                        0 <= j < i ==> (#[trigger] graph[j]).parents.len() > 0,
                None => forall|i: int|
                    0 <= i < graph.len() ==> (#[trigger] graph[i]).parents.len() > 0,
            }
        },
        _ => false,
    }
}

/// The stop for a machine whose own scope the repo does not have.
pub fn machine_scope_missing(graph: &ScopeGraph, machine_scope: &str) -> (error: DotsyncError)
    ensures
        is_scope_missing(error, machine_scope@, graph@),
{
    let root = match graph.a_root() {
        Some(root) => Some(root.to_owned()),
        None => None,
    };
    DotsyncError::MachineScopeMissing {
        scope: machine_scope.to_owned(),
        scopes: graph.names(),
        root,
    }
}

/// The commit that a home sync brings home to.
pub fn machine_head(
    graph: &ScopeGraph,
    heads: &Heads,
    machine_scope: &str,
) -> (head: Result<String, DotsyncError>)
    ensures
        ({
            let here = head_of(heads@, machine_scope@);
            match head {
                Ok(id) => one_commit(here) == Some(id@),
                Err(error) => one_commit(here) is None && if here.contested || here.sides.len()
                    > 0 {
                    crate::error::is_not_in_repo(error, machine_scope@)
                } else {
                    is_scope_missing(error, machine_scope@, graph@)
                },
            }
        }),
{
    if scope_head(heads, machine_scope).is_absent() {
        Err(machine_scope_missing(graph, machine_scope))
    } else {
        scope_head_commit(heads, machine_scope)
    }
}

/// One term of a merge that did not resolve: what it is called, and what it
/// holds.
pub struct ConflictTerm {
    pub label: String,
    pub contents: Option<Vec<u8>>,
}

/// The version that a term of a merge is.
pub open spec fn term_version(role: ConflictRole, term: ConflictTerm) -> ConflictedVersionView {
    ConflictedVersionView { role, label: term.label@, contents: opt_bytes(term.contents) }
}

/// Every version of a file in a merge that did not resolve: the bases first,
/// then the sides.
pub open spec fn all_versions(
    bases: Seq<ConflictTerm>,
    sides: Seq<ConflictTerm>,
) -> Seq<ConflictedVersionView> {
    bases.map_values(|t: ConflictTerm| term_version(ConflictRole::Base, t)) + sides.map_values(
        |t: ConflictTerm| term_version(ConflictRole::Side, t),
    )
}

fn copy_term(role: ConflictRole, term: &ConflictTerm) -> (version: ConflictedVersion)
    ensures
        version@ == term_version(role, *term),
{
    let contents = match &term.contents {
        Some(bytes) => {
            let again: Vec<u8> = bytes.clone();
            proof {
                assert(again@ =~= bytes@);
            }
            Some(again)
        },
        None => None,
    };
    ConflictedVersion { role, label: term.label.clone(), contents }
}

/// Every version of a file in a merge that did not resolve: the bases first,
/// because they are what makes sense of the sides.
pub fn conflicted_versions(
    bases: &Vec<ConflictTerm>,
    sides: &Vec<ConflictTerm>,
) -> (versions: Vec<ConflictedVersion>)
    ensures
        version_views(versions@) == all_versions(bases@, sides@),
{
    let ghost wanted = all_versions(bases@, sides@);
    let mut versions: Vec<ConflictedVersion> = Vec::new();
    let mut i: usize = 0;
    while i < bases.len()
        invariant
            i <= bases.len(),
            wanted == all_versions(bases@, sides@),
            versions.len() == i,
            forall|k: int| 0 <= k < i ==> (#[trigger] versions@[k])@ == wanted[k],
        decreases bases.len() - i,
    {
        versions.push(copy_term(ConflictRole::Base, &bases[i]));
        i += 1;
    }
    let mut j: usize = 0;
    while j < sides.len()
        invariant
            j <= sides.len(),
            wanted == all_versions(bases@, sides@),
            versions.len() == bases.len() + j,
            forall|k: int| 0 <= k < bases.len() + j ==> (#[trigger] versions@[k])@ == wanted[k],
        decreases sides.len() - j,
    {
        versions.push(copy_term(ConflictRole::Side, &sides[j]));
        j += 1;
    }
    proof {
        assert(version_views(versions@) =~= wanted);
    }
    versions
}

/// The files that a conflict stop presents: every classified path that the
/// merge did not resolve, in order, with where it stands.
pub open spec fn presented(
    classified: Seq<(FilePath, ClassifiedPath)>,
    unresolved: Seq<(FilePath, Vec<ConflictedVersion>)>,
    count: nat,
) -> Seq<ConflictedFileView>
    decreases count,
{
    if count == 0 {
        Seq::empty()
    } else {
        let before = presented(classified, unresolved, (count - 1) as nat);
        let entry = classified[count - 1];
        match value_at(unresolved, entry.0@) {
            Some(versions) => before.push(
                ConflictedFileView {
                    path: entry.0.text@,
                    state: Some(entry.1.state),
                    versions: version_views(versions@),
                },
            ),
            None => before,
        }
    }
}

fn copy_versions(versions: &Vec<ConflictedVersion>) -> (copy: Vec<ConflictedVersion>)
    ensures
        version_views(copy@) == version_views(versions@),
{
    let mut copy: Vec<ConflictedVersion> = Vec::new();
    let mut i: usize = 0;
    while i < versions.len()
        invariant
            i <= versions.len(),
            copy.len() == i,
            forall|j: int| 0 <= j < i ==> (#[trigger] copy@[j])@ == versions@[j]@,
        decreases versions.len() - i,
    {
        copy.push(versions[i].copy());
        i += 1;
    }
    proof {
        assert(version_views(copy@) =~= version_views(versions@));
    }
    copy
}

/// The stop that presents a conflict between home and this machine's scope.
pub fn sync_conflict(
    machine_scope: &str,
    classified: &Vec<(FilePath, ClassifiedPath)>,
    unresolved: &Vec<(FilePath, Vec<ConflictedVersion>)>,
) -> (error: DotsyncError)
    ensures
        match error {
            DotsyncError::SyncConflict { scope, files } => scope@ == machine_scope@ && file_views(
                files@,
            ) == presented(classified@, unresolved@, classified@.len()),
            _ => false,
        },
{
    let mut files: Vec<ConflictedFile> = Vec::new();
    let mut i: usize = 0;
    proof {
        assert(file_views(files@) =~= Seq::<ConflictedFileView>::empty());
    }
    while i < classified.len()
        invariant
            i <= classified.len(),
            file_views(files@) == presented(classified@, unresolved@, i as nat),
        decreases classified.len() - i,
    {
        match find(unresolved, &classified[i].0) {
            Some(versions) => {
                let ghost before = files@;
                files.push(
                    ConflictedFile {
                        path: classified[i].0.copy(),
                        state: Some(classified[i].1.state),
                        versions: copy_versions(versions),
                    },
                );
                proof {
                    assert(file_views(files@) =~= file_views(before).push(files@.last()@));
                }
            },
            None => {},
        }
        i += 1;
    }
    DotsyncError::SyncConflict { scope: machine_scope.to_owned(), files }
}

/// Ends a run at the home boundary whichever way it went: the run's own failure
/// wins over a failure to persist, because it is what the reader has to act on.
pub fn finishing<T>(
    outcome: Result<T, DotsyncError>,
    persisted: Result<(), DotsyncError>,
) -> (ended: Result<T, DotsyncError>)
    ensures
        match outcome {
            Err(error) => ended == Err::<T, DotsyncError>(error),
            Ok(value) => match persisted {
                Ok(_) => ended == Ok::<T, DotsyncError>(value),
                Err(error) => ended == Err::<T, DotsyncError>(error),
            },
        },
{
    match outcome {
        Err(error) => Err(error),
        Ok(value) => match persisted {
            Ok(_) => Ok(value),
            Err(error) => Err(error),
        },
    }
}

/// Every version of a merge that did not resolve is presented, the bases before the
/// sides, each with what it is called and what it holds.
pub proof fn law_every_version_of_a_merge_is_presented(
    bases: Seq<ConflictTerm>,
    sides: Seq<ConflictTerm>,
)
    ensures
        all_versions(bases, sides).len() == bases.len() + sides.len(),
        forall|i: int|
            0 <= i < bases.len() ==> {
                let version = #[trigger] all_versions(bases, sides)[i];
                &&& version.role is Base
                &&& version.label == bases[i].label@
                &&& version.contents == opt_bytes(bases[i].contents)
            },
        forall|i: int|
            0 <= i < sides.len() ==> {
                let version = all_versions(bases, sides)[bases.len() + i];
                &&& version.role is Side
                &&& version.label == (#[trigger] sides[i]).label@
                &&& version.contents == opt_bytes(sides[i].contents)
            },
{
}

/// A machine without a scope of its own is told every scope that there is, and of
/// one to start from wherever there is one that hangs off nothing.
pub proof fn law_a_missing_scope_is_told_every_other(
    error: DotsyncError,
    machine: Text,
    graph: Seq<ScopeView>,
)
    requires
        is_scope_missing(error, machine, graph),
    ensures
        error is MachineScopeMissing,
        error->MachineScopeMissing_scope@ == machine,
        error->MachineScopeMissing_scopes@.len() == graph.len(),
        forall|i: int|
            0 <= i < graph.len() ==> (#[trigger] error->MachineScopeMissing_scopes@[i])@
                == graph[i].name,
        error->MachineScopeMissing_root is Some <==> exists|i: int|
            0 <= i < graph.len() && (#[trigger] graph[i]).parents.len() == 0,
        error->MachineScopeMissing_root is Some ==> exists|i: int|
            0 <= i < graph.len() && (#[trigger] graph[i]).parents.len() == 0 && graph[i].name
                == error->MachineScopeMissing_root->Some_0@,
{
    let scopes = error->MachineScopeMissing_scopes;
    assert(texts(scopes@).len() == names_of(graph).len());
    assert forall|i: int| 0 <= i < graph.len() implies (#[trigger] scopes@[i])@
        == graph[i].name by {
        assert(texts(scopes@)[i] == names_of(graph)[i]);
    }
}

} // verus!
