//! What a commit records, said of what it was given and of what came of it.
use vstd::prelude::*;
use vstd::string::*;
use crate::drift::{named_state, ClassifiedPath, FileState};
use crate::error::{DotsyncError, RefusedCommitPath, SkipReason, SkippedCommitPath};
use crate::paths::{
    all_paths, components, keys, lemma_sorted_value, lemma_value_at, normal, sorted_paths,
    Components, FilePath,
};
use crate::selection::{
    bad_paths, decides, expands, is_expansion, is_refused, is_selected, is_selection, left_alone,
    named_by_directory, named_exactly, names_directory, path_problem, refusal, refusals,
    rejected_views, resolves_to, stepped_around, steps_around, unusable, walk_skips, CommitOptions,
    DotsyncPaths, NamedProbe, ProblemView, SelectedPaths, Selection,
};
use crate::seqs::lemma_filter_holds;
use crate::text::Text;

verus! {

/// Whether a path is in a list, however it is spelled there.
pub open spec fn lists(list: Seq<FilePath>, path: Components) -> bool {
    exists|i: int| 0 <= i < list.len() && (#[trigger] list[i])@ == path
}

proof fn lemma_lists(list: Seq<FilePath>, path: Components)
    ensures
        lists(list, path) <==> all_paths(list).contains(path),
{
    if lists(list, path) {
        let i = choose|i: int| 0 <= i < list.len() && (#[trigger] list[i])@ == path;
        assert(all_paths(list)[i] == path);
    }
    if all_paths(list).contains(path) {
        let i = choose|i: int| 0 <= i < list.len() && all_paths(list)[i] == path;
        assert(list[i]@ == path);
    }
}

proof fn lemma_chosen(
    options: CommitOptions,
    selection: Option<SelectedPaths>,
    classified: Seq<(FilePath, ClassifiedPath)>,
    chosen: Seq<FilePath>,
    path: Components,
)
    requires
        is_selection(options.force, selection, classified, chosen),
    ensures
        lists(chosen, path) <==> is_selected(options.force, selection, classified, path),
{
    lemma_lists(chosen, path);
    assert(all_paths(chosen).contains(path) <==> is_selected(
        options.force,
        selection,
        classified,
        path,
    ));
}

/// A commit that is not forced and names a directory records every path under it
/// at which home holds a change of this machine's own, a deletion like any other
/// change, and whatever dotsync does not know there yet. It leaves alone, and
/// says so, exactly where only the repo moved or where two new files meet.
pub proof fn law_a_named_directory_is_recorded_but_for_what_moved_elsewhere(
    options: CommitOptions,
    selection: SelectedPaths,
    classified: Seq<(FilePath, ClassifiedPath)>,
    target: Seq<FilePath>,
    in_home: Option<Seq<u8>>,
    on_scope: Option<Seq<u8>>,
    chosen: Selection,
    k: int,
    i: int,
)
    requires
        decides(
            options,
            Some(selection),
            classified,
            target,
            in_home,
            on_scope,
            Ok::<Selection, DotsyncError>(chosen),
        ),
        selection.wf(),
        sorted_paths(keys(classified)),
        !options.force,
        0 <= k < selection.under_directory@.len(),
        0 <= i < classified.len(),
        classified[i].0@ == selection.under_directory@[k]@,
    ensures
        lists(chosen.paths@, classified[i].0@) <==> match classified[i].1.state {
            FileState::IncomingNew
            | FileState::StaleNotYours
            | FileState::RemovedFromRepo
            | FileState::IncomingNewCollidesWithUntrackedHome => false,
            _ => true,
        },
        !lists(chosen.paths@, classified[i].0@) ==> chosen.skipped@.contains(
            SkippedCommitPath {
                path: selection.under_directory@[k],
                reason: SkipReason::NotChangedHere(classified[i].1.state),
            },
        ),
{
    let path = selection.under_directory@[k];
    lemma_sorted_value(classified, i);
    lemma_chosen(options, Some(selection), classified, chosen.paths@, path@);
    assert(all_paths(selection.under_directory@)[k] == path@);
    assert(all_paths(selection.under_directory@).contains(path@));
    if !lists(chosen.paths@, path@) {
        lemma_stepped_around(options.force, selection, classified, path);
        let skipped = SkippedCommitPath {
            path,
            reason: SkipReason::NotChangedHere(classified[i].1.state),
        };
        let more = stepped_around(options.force, selection, classified);
        let m = choose|m: int| 0 <= m < more.len() && more[m] == skipped;
        assert(chosen.skipped@[selection.skipped@.len() + m] == skipped);
    }
}

proof fn lemma_stepped_around(
    force: bool,
    selection: SelectedPaths,
    classified: Seq<(FilePath, ClassifiedPath)>,
    path: FilePath,
)
    requires
        selection.under_directory@.contains(path),
        steps_around(force, classified, path@),
    ensures
        stepped_around(force, selection, classified).contains(left_alone(path, classified)),
{
    let keep = |p: FilePath| steps_around(force, classified, p@);
    let kept = selection.under_directory@.filter(keep);
    lemma_filter_holds(selection.under_directory@, keep);
    assert(kept.contains(path));
    let m = choose|m: int| 0 <= m < kept.len() && kept[m] == path;
    assert(stepped_around(force, selection, classified)[m] == left_alone(path, classified));
}

/// What a commit reports to have left alone is what it was told to leave alone,
/// or a path under a directory it named at which recording home would overwrite
/// someone else's change. A forced commit leaves nothing else alone.
pub proof fn law_only_what_moved_elsewhere_is_left_alone(
    options: CommitOptions,
    selection: SelectedPaths,
    classified: Seq<(FilePath, ClassifiedPath)>,
    target: Seq<FilePath>,
    in_home: Option<Seq<u8>>,
    on_scope: Option<Seq<u8>>,
    chosen: Selection,
)
    requires
        decides(
            options,
            Some(selection),
            classified,
            target,
            in_home,
            on_scope,
            Ok::<Selection, DotsyncError>(chosen),
        ),
    ensures
        chosen.skipped@.len() >= selection.skipped@.len(),
        forall|m: int|
            0 <= m < selection.skipped@.len() ==> #[trigger] chosen.skipped@[m]
                == selection.skipped@[m],
        forall|m: int|
            selection.skipped@.len() <= m < chosen.skipped@.len() ==> {
                let left = #[trigger] chosen.skipped@[m];
                &&& !options.force
                &&& selection.under_directory@.contains(left.path)
                &&& exists|i: int|
                    0 <= i < classified.len() && (#[trigger] classified[i]).0@ == left.path@
                        && left.reason == SkipReason::NotChangedHere(classified[i].1.state)
                        && match classified[i].1.state {
                        FileState::IncomingNew
                        | FileState::StaleNotYours
                        | FileState::RemovedFromRepo
                        | FileState::IncomingNewCollidesWithUntrackedHome => true,
                        _ => false,
                    }
            },
{
    let keep = |p: FilePath| steps_around(options.force, classified, p@);
    let kept = selection.under_directory@.filter(keep);
    let more = stepped_around(options.force, selection, classified);
    lemma_filter_holds(selection.under_directory@, keep);
    assert(chosen.skipped@ == selection.skipped@ + more);
    assert forall|m: int| selection.skipped@.len() <= m < chosen.skipped@.len() implies {
        let left = #[trigger] chosen.skipped@[m];
        &&& !options.force
        &&& selection.under_directory@.contains(left.path)
        &&& exists|i: int|
            0 <= i < classified.len() && (#[trigger] classified[i]).0@ == left.path@ && left.reason
                == SkipReason::NotChangedHere(classified[i].1.state) && match classified[i].1.state {
                FileState::IncomingNew
                | FileState::StaleNotYours
                | FileState::RemovedFromRepo
                | FileState::IncomingNewCollidesWithUntrackedHome => true,
                _ => false,
            }
    } by {
        let n = m - selection.skipped@.len();
        assert(chosen.skipped@[m] == more[n]);
        assert(more[n] == left_alone(kept[n], classified));
        assert(kept.contains(kept[n]));
        assert(keep(kept[n]));
        lemma_value_at(classified, kept[n]@);
    }
}

/// A path that a commit names exactly is recorded, or the commit is refused:
/// where it is not forced and only the repo moved there, or two new files meet.
pub proof fn law_an_exact_path_is_recorded_or_refused(
    options: CommitOptions,
    selection: SelectedPaths,
    classified: Seq<(FilePath, ClassifiedPath)>,
    target: Seq<FilePath>,
    in_home: Option<Seq<u8>>,
    on_scope: Option<Seq<u8>>,
    decision: Result<Selection, DotsyncError>,
    k: int,
)
    requires
        decides(options, Some(selection), classified, target, in_home, on_scope, decision),
        sorted_paths(keys(classified)),
        0 <= k < selection.named@.len(),
    ensures
        decision matches Ok(chosen) ==> lists(chosen.paths@, selection.named@[k]@),
        forall|i: int|
            0 <= i < classified.len() && (#[trigger] classified[i]).0@ == selection.named@[k]@
                && !options.force && match classified[i].1.state {
                FileState::IncomingNew
                | FileState::StaleNotYours
                | FileState::RemovedFromRepo
                | FileState::IncomingNewCollidesWithUntrackedHome => true,
                _ => false,
            } ==> decision is Err,
{
    let path = selection.named@[k];
    assert(all_paths(selection.named@)[k] == path@);
    assert(all_paths(selection.named@).contains(path@));
    assert(is_selected(options.force, Some(selection), classified, path@));
    if let Ok(chosen) = decision {
        lemma_chosen(options, Some(selection), classified, chosen.paths@, path@);
    }
    assert forall|i: int|
        0 <= i < classified.len() && (#[trigger] classified[i]).0@ == path@ && !options.force
            && match classified[i].1.state {
            FileState::IncomingNew
            | FileState::StaleNotYours
            | FileState::RemovedFromRepo
            | FileState::IncomingNewCollidesWithUntrackedHome => true,
            _ => false,
        } implies decision is Err by {
        lemma_sorted_value(classified, i);
        assert(crate::drift::blocking(named_state(classified, path@)));
        assert(is_refused(options.force, Some(selection), classified));
    }
}

/// A path under a directory that a commit names is recorded whatever its state
/// where the commit is forced, and where nothing is known of it.
pub proof fn law_force_and_new_files_take_the_whole_directory(
    options: CommitOptions,
    selection: SelectedPaths,
    classified: Seq<(FilePath, ClassifiedPath)>,
    target: Seq<FilePath>,
    in_home: Option<Seq<u8>>,
    on_scope: Option<Seq<u8>>,
    chosen: Selection,
    k: int,
)
    requires
        decides(
            options,
            Some(selection),
            classified,
            target,
            in_home,
            on_scope,
            Ok::<Selection, DotsyncError>(chosen),
        ),
        0 <= k < selection.under_directory@.len(),
        options.force || forall|i: int|
            0 <= i < classified.len() ==> (#[trigger] classified[i]).0@
                != selection.under_directory@[k]@,
    ensures
        lists(chosen.paths@, selection.under_directory@[k]@),
{
    let path = selection.under_directory@[k]@;
    lemma_chosen(options, Some(selection), classified, chosen.paths@, path);
    lemma_value_at(classified, path);
    assert(all_paths(selection.under_directory@)[k] == path);
    assert(all_paths(selection.under_directory@).contains(path));
}

/// A commit that named nothing records every change of this machine's own, and
/// nothing else.
pub proof fn law_a_bare_commit_records_every_own_change(
    options: CommitOptions,
    classified: Seq<(FilePath, ClassifiedPath)>,
    target: Seq<FilePath>,
    in_home: Option<Seq<u8>>,
    on_scope: Option<Seq<u8>>,
    chosen: Selection,
    i: int,
)
    requires
        decides(
            options,
            None,
            classified,
            target,
            in_home,
            on_scope,
            Ok::<Selection, DotsyncError>(chosen),
        ),
        sorted_paths(keys(classified)),
        0 <= i < classified.len(),
    ensures
        lists(chosen.paths@, classified[i].0@) <==> match classified[i].1.state {
            FileState::EditedInHome
            | FileState::KindDiffersFromScope
            | FileState::EditedInHomeButRemovedFromRepo
            | FileState::DeletedInHome
            | FileState::DeletedInHomeTipAlsoChanged
            | FileState::DivergedEdit
            | FileState::DivergedEditThatMerges
            | FileState::IncomingNewCollidesWithUntrackedHome => true,
            _ => false,
        },
        classified[i].1.state == FileState::IncomingNewCollidesWithUntrackedHome ==> options.force,
        chosen.skipped@.len() == 0,
{
    let path = classified[i].0@;
    lemma_sorted_value(classified, i);
    lemma_chosen(options, None, classified, chosen.paths@, path);
    assert(keys(classified)[i] == path);
    assert(keys(classified).contains(path));
    if classified[i].1.state == FileState::IncomingNewCollidesWithUntrackedHome && !options.force {
        assert(crate::drift::blocking(named_state(classified, path)));
        assert(is_selected(options.force, None, classified, path));
    }
}

/// A commit records nothing that it did not match: every path it records was
/// named, or is under a directory that was, or, where nothing was named, is a
/// path that was classified. It records none twice.
pub proof fn law_a_commit_records_only_what_it_matched(
    options: CommitOptions,
    selection: Option<SelectedPaths>,
    classified: Seq<(FilePath, ClassifiedPath)>,
    target: Seq<FilePath>,
    in_home: Option<Seq<u8>>,
    on_scope: Option<Seq<u8>>,
    chosen: Selection,
    k: int,
)
    requires
        decides(
            options,
            selection,
            classified,
            target,
            in_home,
            on_scope,
            Ok::<Selection, DotsyncError>(chosen),
        ),
        0 <= k < chosen.paths@.len(),
    ensures
        match selection {
            None => exists|i: int|
                0 <= i < classified.len() && (#[trigger] classified[i]).0@ == chosen.paths@[k]@,
            Some(matched) => lists(matched.named@, chosen.paths@[k]@) || lists(
                matched.under_directory@,
                chosen.paths@[k]@,
            ),
        },
        forall|m: int|
            0 <= m < chosen.paths@.len() && m != k ==> (#[trigger] chosen.paths@[m])@
                != chosen.paths@[k]@,
{
    let path = chosen.paths@[k]@;
    lemma_chosen(options, selection, classified, chosen.paths@, path);
    match selection {
        None => {
            let i = choose|i: int| 0 <= i < classified.len() && keys(classified)[i] == path;
            assert(classified[i].0@ == path);
        },
        Some(matched) => {
            lemma_lists(matched.named@, path);
            lemma_lists(matched.under_directory@, path);
        },
    }
    crate::paths::lemma_path_order();
    let order = all_paths(chosen.paths@);
    assert(order[k] == path);
    assert forall|m: int| 0 <= m < chosen.paths@.len() && m != k implies (
    #[trigger] chosen.paths@[m])@ != path by {
        assert(order[m] == chosen.paths@[m]@);
        if m < k {
            assert(crate::paths::path_before(order[m], order[k]));
        } else {
            assert(crate::paths::path_before(order[k], order[m]));
        }
    }
}

/// A commit says of each path it records whether the scope has it yet.
pub proof fn law_newly_tracked_is_what_the_scope_lacks(
    options: CommitOptions,
    selection: Option<SelectedPaths>,
    classified: Seq<(FilePath, ClassifiedPath)>,
    target: Seq<FilePath>,
    in_home: Option<Seq<u8>>,
    on_scope: Option<Seq<u8>>,
    chosen: Selection,
    path: FilePath,
)
    requires
        decides(
            options,
            selection,
            classified,
            target,
            in_home,
            on_scope,
            Ok::<Selection, DotsyncError>(chosen),
        ),
    ensures
        chosen.newly_tracked@.contains(path) <==> chosen.paths@.contains(path) && !lists(
            target,
            path@,
        ),
{
    lemma_lists(target, path@);
    lemma_filter_holds(chosen.paths@, |p: FilePath| !all_paths(target).contains(p@));
}

/// A forced commit is never refused for what moved elsewhere, home wins at
/// everything it records, and it names each path at which that decided
/// something: where it would have been refused, or where both sides moved. A
/// commit that is not forced names none.
pub proof fn law_force_says_what_it_decided(
    options: CommitOptions,
    selection: Option<SelectedPaths>,
    classified: Seq<(FilePath, ClassifiedPath)>,
    target: Seq<FilePath>,
    in_home: Option<Seq<u8>>,
    on_scope: Option<Seq<u8>>,
    decision: Result<Selection, DotsyncError>,
)
    requires
        decides(options, selection, classified, target, in_home, on_scope, decision),
        sorted_paths(keys(classified)),
    ensures
        options.force ==> !(decision matches Err(DotsyncError::StaleCommitPaths { .. })),
        decision matches Ok(chosen) ==> {
            &&& options.force ==> chosen.forced_paths@ == chosen.paths@
            &&& !options.force ==> chosen.forced_paths@.len() == 0
                && chosen.forced_overwrites@.len() == 0
            &&& forall|k: int, i: int|
                options.force && 0 <= k < chosen.paths@.len() && 0 <= i < classified.len()
                    && #[trigger] classified[i].0@ == (#[trigger] chosen.paths@[k])@ ==> (
                chosen.forced_overwrites@.contains(chosen.paths@[k]) <==> match classified[i].1.state {
                    FileState::IncomingNew
                    | FileState::StaleNotYours
                    | FileState::RemovedFromRepo
                    | FileState::IncomingNewCollidesWithUntrackedHome
                    | FileState::DivergedEdit
                    | FileState::DivergedEditThatMerges => true,
                    _ => false,
                })
        },
{
    if let Ok(chosen) = decision {
        let keep = |p: FilePath| crate::drift::decided_by_force(named_state(classified, p@));
        lemma_filter_holds(chosen.paths@, keep);
        assert forall|k: int, i: int|
            options.force && 0 <= k < chosen.paths@.len() && 0 <= i < classified.len()
                && #[trigger] classified[i].0@ == (#[trigger] chosen.paths@[k])@ implies (
        chosen.forced_overwrites@.contains(chosen.paths@[k]) <==> match classified[i].1.state {
            FileState::IncomingNew
            | FileState::StaleNotYours
            | FileState::RemovedFromRepo
            | FileState::IncomingNewCollidesWithUntrackedHome
            | FileState::DivergedEdit
            | FileState::DivergedEditThatMerges => true,
            _ => false,
        }) by {
            lemma_sorted_value(classified, i);
            assert(chosen.paths@.contains(chosen.paths@[k]));
        }
    }
}

/// A refusal names exactly the paths it is for: each of them is one that the
/// commit would have recorded, with the state that refuses it, and every path
/// that it named exactly and that is in such a state is among them.
pub proof fn law_a_refusal_names_every_path_it_is_for(
    options: CommitOptions,
    selection: Option<SelectedPaths>,
    classified: Seq<(FilePath, ClassifiedPath)>,
    target: Seq<FilePath>,
    in_home: Option<Seq<u8>>,
    on_scope: Option<Seq<u8>>,
    scope: String,
    refused: Vec<RefusedCommitPath>,
    i: int,
)
    requires
        decides(
            options,
            selection,
            classified,
            target,
            in_home,
            on_scope,
            Err::<Selection, DotsyncError>(DotsyncError::StaleCommitPaths { scope, refused }),
        ),
        sorted_paths(keys(classified)),
        0 <= i < classified.len(),
        match selection {
            Some(matched) => lists(matched.named@, classified[i].0@),
            None => classified[i].1.state == FileState::IncomingNewCollidesWithUntrackedHome,
        },
    ensures
        refused@.len() > 0,
        match classified[i].1.state {
            FileState::IncomingNew
            | FileState::StaleNotYours
            | FileState::RemovedFromRepo
            | FileState::IncomingNewCollidesWithUntrackedHome => true,
            _ => false,
        } <==> exists|m: int|
            0 <= m < refused@.len() && (#[trigger] refused@[m]).path@ == classified[i].0@
                && refused@[m].state == classified[i].1.state,
{
    let path = classified[i].0@;
    let selected = choose|selected: Seq<FilePath>|
        is_selection(options.force, selection, classified, selected) && refused@
            == #[trigger] refusals(selected, classified);
    let keep = |p: FilePath| crate::drift::blocking(named_state(classified, p@));
    let kept = selected.filter(keep);
    lemma_filter_holds(selected, keep);
    lemma_sorted_value(classified, i);
    if let Some(matched) = selection {
        lemma_lists(matched.named@, path);
    } else {
        assert(keys(classified)[i] == path);
    }
    assert(is_selected(options.force, selection, classified, path));
    lemma_chosen(options, selection, classified, selected, path);
    let k = choose|k: int| 0 <= k < selected.len() && (#[trigger] selected[k])@ == path;
    if keep(selected[k]) {
        assert(kept.contains(selected[k]));
        let m = choose|m: int| 0 <= m < kept.len() && kept[m] == selected[k];
        assert(refused@[m] == refusal(kept[m], classified));
    }
    if exists|m: int|
        0 <= m < refused@.len() && (#[trigger] refused@[m]).path@ == path && refused@[m].state
            == classified[i].1.state {
        let m = choose|m: int|
            0 <= m < refused@.len() && (#[trigger] refused@[m]).path@ == path && refused@[m].state
                == classified[i].1.state;
        assert(refused@[m] == refusal(kept[m], classified));
        assert(kept.contains(kept[m]));
        assert(keep(kept[m]));
    }
    let p = choose|p: Components|
        is_selected(options.force, selection, classified, p) && #[trigger] crate::drift::blocking(
            named_state(classified, p),
        );
    lemma_chosen(options, selection, classified, selected, p);
    let n = choose|n: int| 0 <= n < selected.len() && (#[trigger] selected[n])@ == p;
    assert(kept.contains(selected[n]));
}

/// The scope graph is recorded on the root scope alone: on any other, a commit
/// that would record another version of it than the scope has is refused, and
/// one that would not is not refused for it.
pub proof fn law_the_scope_graph_is_recorded_on_the_root_alone(
    options: CommitOptions,
    selection: SelectedPaths,
    classified: Seq<(FilePath, ClassifiedPath)>,
    target: Seq<FilePath>,
    in_home: Option<Seq<u8>>,
    on_scope: Option<Seq<u8>>,
    decision: Result<Selection, DotsyncError>,
)
    requires
        decides(options, Some(selection), classified, target, in_home, on_scope, decision),
    ensures
        options.scope@ != "all"@ && in_home != on_scope && lists(
            selection.named@,
            components(".config/dotsync/config.toml"@),
        ) ==> (decision matches Err(DotsyncError::UnusableCommitPaths { .. })),
        options.scope@ == "all"@ || in_home == on_scope || (!lists(
            selection.named@,
            components(".config/dotsync/config.toml"@),
        ) && !lists(selection.under_directory@, components(".config/dotsync/config.toml"@))) ==> !(
        decision matches Err(DotsyncError::UnusableCommitPaths { .. })),
{
    lemma_lists(selection.named@, components(".config/dotsync/config.toml"@));
    lemma_lists(selection.under_directory@, components(".config/dotsync/config.toml"@));
}

/// A path may be recorded unless it is home itself, starts at the root, leads
/// out of home, or lies in dotsync's own repo, and it is told which of these it
/// is. Where it lies is said of the whole path, home's own leading.
pub proof fn law_a_path_is_refused_for_where_it_lies(paths: DotsyncPaths, path: Components)
    ensures
        ({
            let whole = paths.home_dir@ + path;
            let repo = paths.repo_root@;
            let home = path.len() == 0 || path == paths.home_dir@;
            let rooted = path.len() > 0 && path[0] == "/"@;
            let leaves = exists|k: int| 0 <= k < path.len() && #[trigger] path[k] == ".."@;
            &&& unusable(paths, path) == Some(ProblemView::HomeRoot) <==> home
            &&& unusable(paths, path) == Some(ProblemView::Absolute) <==> !home && rooted
            &&& unusable(paths, path) == Some(ProblemView::EscapesHome) <==> !home && !rooted
                && leaves
            &&& unusable(paths, path) == Some(
                ProblemView::DotsyncRepoRoot { repo_root: paths.repo_root.text@ },
            ) <==> !home
                && !rooted && !leaves && whole == repo
            &&& unusable(paths, path) == Some(
                ProblemView::InsideDotsyncRepo { repo_root: paths.repo_root.text@ },
            ) <==> !home
                && !rooted && !leaves && whole != repo && repo.is_prefix_of(whole)
                && paths.home_dir@.is_prefix_of(repo)
            &&& unusable(paths, path) is None <==> !home && !rooted && !leaves && !(
            paths.home_dir@.is_prefix_of(repo) && repo.is_prefix_of(whole))
        }),
{
    let whole = paths.home_dir@ + path;
    let repo = paths.repo_root@;
    let leaves = exists|k: int| 0 <= k < path.len() && #[trigger] path[k] == ".."@;
    if path.contains(".."@) {
        let k = choose|k: int| 0 <= k < path.len() && path[k] == ".."@;
        assert(leaves);
    }
    if leaves {
        let k = choose|k: int| 0 <= k < path.len() && #[trigger] path[k] == ".."@;
        assert(path.contains(".."@));
    }
    if paths.home_dir@.is_prefix_of(repo) {
        let rest = repo.skip(paths.home_dir@.len() as int);
        assert(paths.home_dir@ + rest =~= repo);
        assert(whole.skip(paths.home_dir@.len() as int) =~= path);
        if rest.is_prefix_of(path) {
            assert(repo.is_prefix_of(whole));
        }
        if repo.is_prefix_of(whole) {
            assert(rest =~= path.take(rest.len() as int)) by {
                assert forall|k: int| 0 <= k < rest.len() implies rest[k] == path[k] by {
                    assert(repo[paths.home_dir@.len() + k] == whole[paths.home_dir@.len() + k]);
                }
            }
        }
        if whole == repo {
            assert(rest =~= path);
        }
        assert(rest == path ==> whole == repo);
    } else {
        if whole == repo {
            assert(paths.home_dir@ =~= repo.take(paths.home_dir@.len() as int));
            assert(paths.home_dir@.is_prefix_of(repo));
        }
    }
}

/// A path that a commit names selects everything it stands for: the file that
/// home holds there, every file that the walk of a directory found, and every
/// file that the target scope has there or under it. What a walk left out is
/// reported.
pub proof fn law_a_named_path_selects_all_it_stands_for(
    paths: DotsyncPaths,
    scope: Text,
    named: Seq<FilePath>,
    probes: Seq<NamedProbe>,
    target: Seq<FilePath>,
    selected: SelectedPaths,
    k: int,
)
    requires
        expands(
            paths,
            scope,
            named,
            probes,
            target,
            Ok::<SelectedPaths, DotsyncError>(selected),
        ),
        0 <= k < named.len(),
    ensures
        forall|j: int|
            0 <= j < target.len() && normal(named[k]@).is_prefix_of((#[trigger] target[j])@)
                ==> lists(selected.named@, target[j]@) || lists(
                selected.under_directory@,
                target[j]@,
            ),
        probes[k].is_dir ==> (probes[k].walked matches Some(walked) ==> {
            &&& forall|m: int|
                0 <= m < walked.matched@.len() ==> lists(
                    selected.named@,
                    (#[trigger] walked.matched@[m])@,
                ) || lists(selected.under_directory@, walked.matched@[m]@)
            &&& forall|m: int|
                0 <= m < walked.skipped@.len() ==> selected.skipped@.contains(
                    #[trigger] walked.skipped@[m],
                )
        }),
        probes[k].present && !probes[k].is_dir && (forall|j: int|
            0 <= j < target.len() && normal(named[k]@).is_prefix_of((#[trigger] target[j])@)
                ==> target[j]@ == normal(named[k]@)) ==> lists(
            selected.named@,
            normal(named[k]@),
        ),
{
    let path = normal(named[k]@);
    let on_scope = all_paths(target);
    let count = named.len();
    assert forall|j: int|
        0 <= j < target.len() && path.is_prefix_of((#[trigger] target[j])@) implies lists(
        selected.named@,
        target[j]@,
    ) || lists(selected.under_directory@, target[j]@) by {
        assert(on_scope[j] == target[j]@);
        assert(on_scope.contains(target[j]@));
        if !names_directory(probes[k].is_dir, on_scope, path) {
            assert(on_scope[j] == path);
        }
        assert(resolves_to(probes[k], on_scope, path, target[j]@));
        lemma_resolved_is_selected(named, probes, target, selected, k, target[j]@);
    }
    if probes[k].is_dir {
        if let Some(walked) = probes[k].walked {
            assert forall|m: int| 0 <= m < walked.matched@.len() implies lists(
                selected.named@,
                (#[trigger] walked.matched@[m])@,
            ) || lists(selected.under_directory@, walked.matched@[m]@) by {
                assert(all_paths(walked.matched@)[m] == walked.matched@[m]@);
                assert(all_paths(walked.matched@).contains(walked.matched@[m]@));
                assert(resolves_to(probes[k], on_scope, path, walked.matched@[m]@));
                lemma_resolved_is_selected(
                    named,
                    probes,
                    target,
                    selected,
                    k,
                    walked.matched@[m]@,
                );
            }
            assert forall|m: int| 0 <= m < walked.skipped@.len() implies selected.skipped@.contains(
                #[trigger] walked.skipped@[m],
            ) by {
                lemma_walk_skips(named, probes, on_scope, count, k, walked.skipped@[m]);
            }
        }
    }
    if probes[k].present && !probes[k].is_dir && (forall|j: int|
        0 <= j < target.len() && path.is_prefix_of((#[trigger] target[j])@) ==> target[j]@
            == path) {
        assert forall|j: int| 0 <= j < on_scope.len() implies !(#[trigger] on_scope[j] != path
            && path.is_prefix_of(on_scope[j])) by {
            assert(on_scope[j] == target[j]@);
        }
        assert(!names_directory(probes[k].is_dir, on_scope, path));
        assert(resolves_to(probes[k], on_scope, path, path));
        assert(named[k]@ == named[k]@);
        assert(named_exactly(named, probes, on_scope, count, path));
        lemma_lists(selected.named@, path);
    }
}

proof fn lemma_resolved_is_selected(
    named: Seq<FilePath>,
    probes: Seq<NamedProbe>,
    target: Seq<FilePath>,
    selected: SelectedPaths,
    k: int,
    found: Components,
)
    requires
        is_expansion(named, probes, target, selected),
        0 <= k < named.len(),
        resolves_to(probes[k], all_paths(target), normal(named[k]@), found),
    ensures
        lists(selected.named@, found) || lists(selected.under_directory@, found),
{
    let on_scope = all_paths(target);
    lemma_lists(selected.named@, found);
    lemma_lists(selected.under_directory@, found);
    assert(named[k] == named[k]);
    if names_directory(probes[k].is_dir, on_scope, normal(named[k]@)) {
        assert(named_by_directory(named, probes, on_scope, named.len(), found));
        assert(all_paths(selected.under_directory@).contains(found) || all_paths(
            selected.named@,
        ).contains(found));
    } else {
        assert(named_exactly(named, probes, on_scope, named.len(), found));
        assert(all_paths(selected.named@).contains(found));
    }
}

proof fn lemma_walk_skips(
    named: Seq<FilePath>,
    probes: Seq<NamedProbe>,
    target: Seq<Components>,
    count: nat,
    k: int,
    skipped: SkippedCommitPath,
)
    requires
        0 <= k < count,
        probes[k].is_dir,
        probes[k].walked matches Some(walked) && walked.skipped@.contains(skipped),
    ensures
        walk_skips(named, probes, target, count).contains(skipped),
    decreases count,
{
    let before = walk_skips(named, probes, target, (count - 1) as nat);
    let whole = walk_skips(named, probes, target, count);
    if k == count - 1 {
        let more = probes[k].walked->0.skipped@;
        let m = choose|m: int| 0 <= m < more.len() && more[m] == skipped;
        assert(whole[before.len() + m] == skipped);
    } else {
        lemma_walk_skips(named, probes, target, (count - 1) as nat, k, skipped);
        let m = choose|m: int| 0 <= m < before.len() && before[m] == skipped;
        assert(whole[m] == skipped);
    }
}

/// What a commit selects was named: exactly, and then home or the target scope
/// has it, or by a directory, and then its walk found it or the scope has it
/// under there.
pub proof fn law_what_is_selected_was_named(
    paths: DotsyncPaths,
    scope: Text,
    named: Seq<FilePath>,
    probes: Seq<NamedProbe>,
    target: Seq<FilePath>,
    selected: SelectedPaths,
    found: Components,
)
    requires
        expands(
            paths,
            scope,
            named,
            probes,
            target,
            Ok::<SelectedPaths, DotsyncError>(selected),
        ),
    ensures
        lists(selected.named@, found) ==> exists|k: int|
            0 <= k < named.len() && normal((#[trigger] named[k])@) == found && (probes[k].present
                || lists(target, found)),
        lists(selected.under_directory@, found) ==> exists|k: int|
            0 <= k < named.len() && ((probes[k].walked matches Some(walked) && lists(
                walked.matched@,
                found,
            )) || (lists(target, found) && normal((#[trigger] named[k])@).is_prefix_of(found))),
        !(lists(selected.named@, found) && lists(selected.under_directory@, found)),
{
    let on_scope = all_paths(target);
    let count = named.len();
    lemma_lists(selected.named@, found);
    lemma_lists(selected.under_directory@, found);
    lemma_lists(target, found);
    if all_paths(selected.named@).contains(found) {
        assert(named_exactly(named, probes, on_scope, count, found));
        let k = choose|k: int|
            0 <= k < count && !names_directory(
                probes[k].is_dir,
                on_scope,
                normal((#[trigger] named[k])@),
            ) && resolves_to(probes[k], on_scope, normal(named[k]@), found);
        assert(normal(named[k]@) == found);
    }
    if all_paths(selected.under_directory@).contains(found) {
        assert(named_by_directory(named, probes, on_scope, count, found));
        let k = choose|k: int|
            0 <= k < count && names_directory(
                probes[k].is_dir,
                on_scope,
                normal((#[trigger] named[k])@),
            ) && resolves_to(probes[k], on_scope, normal(named[k]@), found);
        if let Some(walked) = probes[k].walked {
            lemma_lists(walked.matched@, found);
        }
        assert(named[k] == named[k]);
    }
}

/// A commit resolves what it names where every path is one that may be recorded
/// and that home or the target scope holds something at, and it is refused where
/// any is not. Every path that may not be recorded is named as it was typed.
pub proof fn law_a_commit_is_refused_for_every_bad_path(
    paths: DotsyncPaths,
    scope: Text,
    named: Seq<FilePath>,
    probes: Seq<NamedProbe>,
    target: Seq<FilePath>,
    outcome: Result<SelectedPaths, DotsyncError>,
)
    requires
        expands(paths, scope, named, probes, target, outcome),
    ensures
        (forall|k: int|
            0 <= k < named.len() ==> unusable(paths, normal((#[trigger] named[k])@)) is None && (
            (probes[k].present && !probes[k].is_dir && !lists_under(target, normal(named[k]@)))
                || lists(target, normal(named[k]@)) || lists_under(target, normal(named[k]@)) || (
            probes[k].is_dir && probes[k].walked is Some && probes[k].walked->0.matched@.len() > 0))) ==> outcome is Ok,
        forall|k: int|
            0 <= k < named.len() && (unusable(paths, normal((#[trigger] named[k])@)) is Some || (
            !probes[k].present && !probes[k].is_dir && !lists(target, normal(named[k]@))
                && !lists_under(target, normal(named[k]@)))) ==> (outcome matches Err(
                DotsyncError::UnusableCommitPaths { scope: refusing, rejected },
            ) && refusing@ == scope && exists|m: int|
                0 <= m < rejected@.len() && (#[trigger] rejected@[m]).path.text@ == named[k].text@),
{
    let on_scope = all_paths(target);
    let count = named.len();
    assert forall|k: int|
        0 <= k < named.len() && (unusable(paths, normal((#[trigger] named[k])@)) is Some || (
        !probes[k].present && !probes[k].is_dir && !lists(target, normal(named[k]@))
            && !lists_under(target, normal(named[k]@)))) implies (outcome matches Err(
        DotsyncError::UnusableCommitPaths { scope: refusing, rejected },
    ) && refusing@ == scope && exists|m: int|
        0 <= m < rejected@.len() && (#[trigger] rejected@[m]).path.text@ == named[k].text@) by {
        let path = normal(named[k]@);
        lemma_lists(target, path);
        lemma_lists_under(target, path);
        if unusable(paths, path) is None {
            assert forall|found: Components| !resolves_to(probes[k], on_scope, path, found) by {}
        }
        assert(path_problem(paths, named[k], probes[k], on_scope) is Some);
        lemma_bad_paths(paths, named, probes, on_scope, count, k);
        let bad = bad_paths(paths, named, probes, on_scope, count);
        let m = choose|m: int|
            0 <= m < bad.len() && (#[trigger] bad[m]).path == named[k].text@;
        let rejected = outcome->Err_0->UnusableCommitPaths_rejected;
        assert(rejected_views(rejected@)[m] == rejected@[m]@);
        assert(rejected@[m].path.text@ == named[k].text@);
    }
    if forall|k: int|
        0 <= k < named.len() ==> unusable(paths, normal((#[trigger] named[k])@)) is None && ((
        probes[k].present && !probes[k].is_dir && !lists_under(target, normal(named[k]@)))
            || lists(target, normal(named[k]@)) || lists_under(target, normal(named[k]@)) || (
        probes[k].is_dir && probes[k].walked is Some && probes[k].walked->0.matched@.len() > 0)) {
        assert forall|k: int| 0 <= k < named.len() implies path_problem(
            paths,
            #[trigger] named[k],
            probes[k],
            on_scope,
        ) is None by {
            let path = normal(named[k]@);
            lemma_lists(target, path);
            lemma_lists_under(target, path);
            if names_directory(probes[k].is_dir, on_scope, path) {
                if lists(target, path) {
                    assert(path.is_prefix_of(path));
                    assert(resolves_to(probes[k], on_scope, path, path));
                } else if lists_under(target, path) {
                    let j = choose|j: int|
                        0 <= j < target.len() && (#[trigger] target[j])@ != path
                            && path.is_prefix_of(target[j]@);
                    assert(on_scope[j] == target[j]@);
                    assert(resolves_to(probes[k], on_scope, path, target[j]@));
                } else {
                    let walked = probes[k].walked->0;
                    let first = walked.matched@[0]@;
                    assert(all_paths(walked.matched@)[0] == first);
                    assert(all_paths(walked.matched@).contains(first));
                    assert(resolves_to(probes[k], on_scope, path, first));
                }
            } else {
                assert(resolves_to(probes[k], on_scope, path, path));
            }
        }
        lemma_no_bad_paths(paths, named, probes, on_scope, count);
    }
}

/// Whether a list holds something under a path.
pub open spec fn lists_under(list: Seq<FilePath>, path: Components) -> bool {
    exists|j: int|
        0 <= j < list.len() && (#[trigger] list[j])@ != path && path.is_prefix_of(list[j]@)
}

proof fn lemma_lists_under(target: Seq<FilePath>, path: Components)
    ensures
        lists_under(target, path) <==> names_directory(false, all_paths(target), path),
{
    let on_scope = all_paths(target);
    if lists_under(target, path) {
        let j = choose|j: int|
            0 <= j < target.len() && (#[trigger] target[j])@ != path && path.is_prefix_of(
                target[j]@,
            );
        assert(on_scope[j] == target[j]@);
    }
    if names_directory(false, on_scope, path) {
        let j = choose|j: int|
            0 <= j < on_scope.len() && #[trigger] on_scope[j] != path && path.is_prefix_of(
                on_scope[j],
            );
        assert(target[j]@ == on_scope[j]);
    }
}

proof fn lemma_bad_paths(
    paths: DotsyncPaths,
    named: Seq<FilePath>,
    probes: Seq<NamedProbe>,
    target: Seq<Components>,
    count: nat,
    k: int,
)
    requires
        0 <= k < count,
        path_problem(paths, named[k], probes[k], target) is Some,
    ensures
        exists|m: int|
            0 <= m < bad_paths(paths, named, probes, target, count).len() && (
            #[trigger] bad_paths(paths, named, probes, target, count)[m]).path == named[k].text@,
    decreases count,
{
    let before = bad_paths(paths, named, probes, target, (count - 1) as nat);
    let whole = bad_paths(paths, named, probes, target, count);
    if k == count - 1 {
        assert(whole[before.len() as int].path == named[k].text@);
    } else {
        lemma_bad_paths(paths, named, probes, target, (count - 1) as nat, k);
        let m = choose|m: int| 0 <= m < before.len() && (#[trigger] before[m]).path
            == named[k].text@;
        assert(whole[m] == before[m]);
    }
}

proof fn lemma_no_bad_paths(
    paths: DotsyncPaths,
    named: Seq<FilePath>,
    probes: Seq<NamedProbe>,
    target: Seq<Components>,
    count: nat,
)
    requires
        count <= named.len(),
        forall|k: int|
            0 <= k < named.len() ==> path_problem(
                paths,
                #[trigger] named[k],
                probes[k],
                target,
            ) is None,
    ensures
        bad_paths(paths, named, probes, target, count).len() == 0,
    decreases count,
{
    if count > 0 {
        lemma_no_bad_paths(paths, named, probes, target, (count - 1) as nat);
        assert(path_problem(paths, named[count - 1], probes[count - 1], target) is None);
    }
}

} // verus!
