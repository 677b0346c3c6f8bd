//! Which paths a commit records, and whether it is allowed to.
//!
//! Three questions, in order. Is this a path dotsync may record at all. What
//! does it resolve to. And does home hold a change of this machine's own there.
//! A bulk selection filters and says what it left out; a path named exactly is
//! argued with.
use vstd::prelude::*;
use vstd::string::*;
use crate::drift::{blocking, decided_by_force, drifted, named_state, state_of, ClassifiedPath};
use crate::error::{
    opt_bytes, CommitPathProblem, DotsyncError, RefusedCommitPath, RejectedCommitPath, SkipReason,
    SkippedCommitPath,
};
use crate::paths::{
    all_paths, components, components_of, contains_path, entry_names, first_of, insert_path,
    is_component, joined_path, keys, law_typed_alike_is_one_path, lemma_components_are_path,
    lemma_normal_is_path, lemma_nothing_spelled, lemma_sorted_spelled, lemma_spelled,
    lemma_spelled_step, normal, path_text, plainly_spelled, sorted_paths, spelled, typed_alike,
    Components, FilePath,
};
use crate::repo::{is_repo_path, lemma_components_make_a_repo_path};
use crate::seqs::{lemma_filter_holds, lemma_filter_step, lemma_take_all, lemma_take_holds};
use crate::text::{contains_text, same_text, texts, Text};

verus! {

/// The root scope: every machine descends from it, which is why the scope
/// graph is read from it and from nowhere else.
pub const ALL_SCOPE: &'static str = "all";

/// Where the scope graph is kept, in home and on the root scope.
pub const DOTSYNC_CONFIG_RELATIVE_PATH: &'static str = ".config/dotsync/config.toml";

/// The two directories one run works with: the home it manages, and the hidden
/// repo it manages it from.
#[derive(Debug, Clone)]
pub struct DotsyncPaths {
    pub repo_root: FilePath,
    pub home_dir: FilePath,
}

/// What a commit was asked to record, and where.
#[derive(Debug, Clone)]
pub struct CommitOptions {
    pub scope: String,
    pub message: String,
    /// Home wins for the paths this commit names, and for nothing else.
    pub force: bool,
    /// Empty means every managed file this machine has changed.
    pub paths: Vec<FilePath>,
}

/// A problem with a path as contracts see it.
pub enum ProblemView {
    HomeRoot,
    Absolute,
    EscapesHome,
    Unmatched { home_path: Text },
    DotsyncRepoRoot { repo_root: Text },
    InsideDotsyncRepo { repo_root: Text },
    ScopeGraphOutsideAllScope,
}

impl View for CommitPathProblem {
    type V = ProblemView;

    open spec fn view(&self) -> ProblemView {
        match self {
            CommitPathProblem::HomeRoot => ProblemView::HomeRoot,
            CommitPathProblem::Absolute => ProblemView::Absolute,
            CommitPathProblem::EscapesHome => ProblemView::EscapesHome,
            CommitPathProblem::Unmatched { home_path } => ProblemView::Unmatched {
                home_path: home_path.text@,
            },
            CommitPathProblem::DotsyncRepoRoot { repo_root } => ProblemView::DotsyncRepoRoot {
                repo_root: repo_root.text@,
            },
            CommitPathProblem::InsideDotsyncRepo { repo_root } => ProblemView::InsideDotsyncRepo {
                repo_root: repo_root.text@,
            },
            CommitPathProblem::ScopeGraphOutsideAllScope => ProblemView::ScopeGraphOutsideAllScope,
        }
    }
}

/// A rejected path as contracts see it: what was typed, and what is wrong.
pub struct RejectedView {
    pub path: Text,
    pub problem: ProblemView,
}

impl View for RejectedCommitPath {
    type V = RejectedView;

    open spec fn view(&self) -> RejectedView {
        RejectedView { path: self.path.text@, problem: self.problem@ }
    }
}

/// The views of some rejected paths.
pub open spec fn rejected_views(rejected: Seq<RejectedCommitPath>) -> Seq<RejectedView> {
    rejected.map_values(|r: RejectedCommitPath| r@)
}

/// Where the repo is within home, if it is.
pub open spec fn repo_within(paths: DotsyncPaths) -> Option<Components> {
    if paths.home_dir@.is_prefix_of(paths.repo_root@) {
        Some(paths.repo_root@.skip(paths.home_dir@.len() as int))
    } else {
        None
    }
}

/// Why dotsync will not record a path whatever it resolves to: a path is
/// refused for what it is before anything looks at what it holds.
pub open spec fn unusable(paths: DotsyncPaths, path: Components) -> Option<ProblemView> {
    unusable_beside(paths, repo_within(paths), path)
}

/// The components of a path that may be missing.
pub open spec fn opt_path(path: Option<FilePath>) -> Option<Components> {
    match path {
        Some(path) => Some(path@),
        None => None,
    }
}

/// Why dotsync will not record a path, where its repo is `repo` within home.
pub open spec fn unusable_beside(
    paths: DotsyncPaths,
    repo: Option<Components>,
    path: Components,
) -> Option<ProblemView> {
    if path.len() == 0 || path == paths.home_dir@ {
        Some(ProblemView::HomeRoot)
    } else if path[0] == "/"@ {
        Some(ProblemView::Absolute)
    } else if path.contains(".."@) {
        Some(ProblemView::EscapesHome)
    } else {
        match repo {
            Some(repo) if path == repo => Some(
                ProblemView::DotsyncRepoRoot { repo_root: paths.repo_root.text@ },
            ),
            Some(repo) if repo.is_prefix_of(path) => Some(
                ProblemView::InsideDotsyncRepo { repo_root: paths.repo_root.text@ },
            ),
            _ => None,
        }
    }
}

/// Every path that may be recorded stays inside home on every machine: it has
/// components, none of them leads to the root or to a parent, and it is not in
/// dotsync's own repo.
pub proof fn law_usable_paths_stay_in_home(paths: DotsyncPaths, text: Text)
    requires
        unusable(paths, normal(components(text))) is None,
    ensures
        normal(components(text)).len() > 0,
        forall|k: int|
            0 <= k < normal(components(text)).len() ==> {
                let part = #[trigger] normal(components(text))[k];
                part != "/"@ && part != "."@ && part != ".."@ && !part.contains('/')
            },
        repo_within(paths) matches Some(repo) ==> !repo.is_prefix_of(normal(components(text))),
{
    let whole = components(text);
    let path = normal(whole);
    let keep = |part: Text| part != "."@;
    lemma_components_are_path(text);
    lemma_filter_holds(whole, keep);
    reveal_strlit("/");
    assert forall|k: int| 0 <= k < path.len() implies {
        let part = #[trigger] path[k];
        part != "/"@ && part != "."@ && part != ".."@ && !part.contains('/')
    } by {
        assert(path.contains(path[k]));
        let m = choose|m: int| 0 <= m < whole.len() && whole[m] == path[k];
        if whole[m] == "/"@ {
            // The root can only lead, and where it leads the path is refused.
            assert(m == 0) by {
                if m != 0 {
                    assert(!whole[m].contains('/'));
                    assert("/"@[0] == '/');
                }
            }
            lemma_root_leads(whole);
            assert(path[0] == "/"@);
        }
    }
    if let Some(repo) = repo_within(paths) {
        if repo.is_prefix_of(path) {
            assert(path == repo || repo.is_prefix_of(path));
        }
    }
}

/// A path that starts at the root still does without its `.` components.
proof fn lemma_root_leads(whole: Components)
    requires
        whole.len() > 0,
        whole[0] == "/"@,
    ensures
        normal(whole).len() > 0,
        normal(whole)[0] == "/"@,
    decreases whole.len(),
{
    reveal(Seq::filter);
    reveal_strlit("/");
    reveal_strlit(".");
    let keep = |part: Text| part != "."@;
    assert(keep("/"@)) by {
        assert("/"@[0] != "."@[0]);
    }
    if whole.len() == 1 {
        assert(whole.drop_last().filter(keep) =~= Seq::<Text>::empty());
    } else {
        lemma_root_leads(whole.drop_last());
    }
}

impl DotsyncPaths {
    /// Where the repo is within home, if it is.
    pub fn repo_relative(&self) -> (relative: Option<FilePath>)
        ensures
            opt_path(relative) == repo_within(*self),
    {
        let relative = self.repo_root.strip_prefix(&self.home_dir);
        proof {
            if relative is Some {
                let rest = relative->0@;
                assert(self.repo_root@.skip(self.home_dir@.len() as int) =~= rest);
            }
        }
        relative
    }
}

/// Why dotsync will not record this path, if it will not. `repo_relative` is
/// where its repo is within home.
pub fn unusable_commit_path(
    paths: &DotsyncPaths,
    selection_path: &FilePath,
    repo_relative: &Option<FilePath>,
) -> (problem: Option<CommitPathProblem>)
    ensures
        match problem {
            Some(problem) => unusable_beside(
                *paths,
                opt_path(*repo_relative),
                selection_path@,
            ) == Some(problem@),
            None => unusable_beside(*paths, opt_path(*repo_relative), selection_path@) is None,
        },
{
    let parts = components_of(selection_path.text.as_str());
    proof {
        assert(texts(parts@).len() == parts.len());
        if parts.len() > 0 {
            assert(selection_path@[0] == parts@[0]@);
        }
    }
    if parts.is_empty() || selection_path.same(&paths.home_dir) {
        return Some(CommitPathProblem::HomeRoot);
    }
    if same_text(parts[0].as_str(), "/") {
        return Some(CommitPathProblem::Absolute);
    }
    if contains_text(&parts, "..") {
        return Some(CommitPathProblem::EscapesHome);
    }
    match repo_relative {
        Some(repo) => {
            if selection_path.same(repo) {
                Some(CommitPathProblem::DotsyncRepoRoot { repo_root: paths.repo_root.copy() })
            } else if selection_path.starts_with(repo) {
                Some(CommitPathProblem::InsideDotsyncRepo { repo_root: paths.repo_root.copy() })
            } else {
                None
            }
        },
        None => None,
    }
}

/// What a walk through a directory of home found.
pub struct Walked {
    /// The files and links to record.
    pub matched: Vec<FilePath>,
    /// What cannot be recorded whatever its content says.
    pub skipped: Vec<SkippedCommitPath>,
}

/// What home holds at a path that a commit named.
pub struct NamedProbe {
    /// There is something at the path, be it a link that leads nowhere.
    pub present: bool,
    /// What is there is a directory, and no link to one.
    pub is_dir: bool,
    /// What is under the path, where following it leads to something.
    pub walked: Option<Walked>,
}

/// Whether a path names a directory: one in home, or one that the target scope
/// tracks files under.
pub open spec fn names_directory(is_dir: bool, target: Seq<Components>, path: Components) -> bool {
    is_dir || exists|i: int|
        0 <= i < target.len() && #[trigger] target[i] != path && path.is_prefix_of(target[i])
}

/// Whether a path names a directory.
pub fn is_directory_selection(is_dir: bool, target: &Vec<FilePath>, path: &FilePath) -> (found: bool)
    ensures
        found == names_directory(is_dir, all_paths(target@), path@),
{
    if is_dir {
        return true;
    }
    let mut i: usize = 0;
    while i < target.len()
        invariant
            i <= target.len(),
            forall|j: int|
                0 <= j < i ==> !(#[trigger] all_paths(target@)[j] != path@ && path@.is_prefix_of(
                    all_paths(target@)[j],
                )),
        decreases target.len() - i,
    {
        if !target[i].same(path) && target[i].starts_with(path) {
            proof {
                assert(all_paths(target@)[i as int] == target@[i as int]@);
            }
            return true;
        }
        i += 1;
    }
    false
}

/// Whether a named path resolves to the path `found`.
pub open spec fn resolves_to(
    probe: NamedProbe,
    target: Seq<Components>,
    path: Components,
    found: Components,
) -> bool {
    if names_directory(probe.is_dir, target, path) {
        ||| (probe.walked matches Some(walked) && all_paths(walked.matched@).contains(found))
        ||| (target.contains(found) && path.is_prefix_of(found))
    } else {
        found == path && (probe.present || target.contains(path))
    }
}

/// What is wrong with a named path, if anything is: what it is, or that it
/// resolves to nothing.
pub open spec fn path_problem(
    paths: DotsyncPaths,
    named: FilePath,
    probe: NamedProbe,
    target: Seq<Components>,
) -> Option<ProblemView> {
    let path = normal(named@);
    match unusable(paths, path) {
        Some(problem) => Some(problem),
        None => if exists|found: Components| resolves_to(probe, target, path, found) {
            None
        } else {
            Some(
                ProblemView::Unmatched {
                    home_path: joined_path(paths.home_dir.text@, path_text(path)),
                },
            )
        },
    }
}

/// Every bad path among the first `count` named, as it was typed.
pub open spec fn bad_paths(
    paths: DotsyncPaths,
    named: Seq<FilePath>,
    probes: Seq<NamedProbe>,
    target: Seq<Components>,
    count: nat,
) -> Seq<RejectedView>
    decreases count,
{
    if count == 0 {
        Seq::empty()
    } else {
        let k = count - 1;
        let before = bad_paths(paths, named, probes, target, k as nat);
        match path_problem(paths, named[k], probes[k], target) {
            Some(problem) => before.push(RejectedView { path: named[k].text@, problem }),
            None => before,
        }
    }
}

/// Whether one of the first `count` named paths is named exactly and resolves
/// to `found`.
pub open spec fn named_exactly(
    named: Seq<FilePath>,
    probes: Seq<NamedProbe>,
    target: Seq<Components>,
    count: nat,
    found: Components,
) -> bool {
    exists|k: int|
        0 <= k < count && !names_directory(
            probes[k].is_dir,
            target,
            normal((#[trigger] named[k])@),
        ) && resolves_to(probes[k], target, normal(named[k]@), found)
}

/// Whether one of the first `count` named paths is a directory that `found` is
/// under.
pub open spec fn named_by_directory(
    named: Seq<FilePath>,
    probes: Seq<NamedProbe>,
    target: Seq<Components>,
    count: nat,
    found: Components,
) -> bool {
    exists|k: int|
        0 <= k < count && names_directory(
            probes[k].is_dir,
            target,
            normal((#[trigger] named[k])@),
        ) && resolves_to(probes[k], target, normal(named[k]@), found)
}

/// How a directory that a commit named spells a path under it: as its walk does,
/// or else as the target scope does.
pub open spec fn directory_spelling(
    probe: NamedProbe,
    target: Seq<FilePath>,
    path: Components,
    found: Components,
) -> Option<FilePath> {
    first_of(
        match probe.walked {
            Some(walked) => spelled(walked.matched@, found),
            None => None,
        },
        if path.is_prefix_of(found) {
            spelled(target, found)
        } else {
            None
        },
    )
}

/// How the first `count` named paths spell a path under a directory: as the
/// first directory does that has it.
pub open spec fn spelled_under(
    named: Seq<FilePath>,
    probes: Seq<NamedProbe>,
    target: Seq<FilePath>,
    count: nat,
    found: Components,
) -> Option<FilePath>
    decreases count,
{
    if count == 0 {
        None
    } else {
        let k = count - 1;
        first_of(
            spelled_under(named, probes, target, k as nat, found),
            if names_directory(probes[k].is_dir, all_paths(target), normal(named[k]@)) {
                directory_spelling(probes[k], target, normal(named[k]@), found)
            } else {
                None
            },
        )
    }
}

/// What the walks through the first `count` named paths left out.
pub open spec fn walk_skips(
    named: Seq<FilePath>,
    probes: Seq<NamedProbe>,
    target: Seq<Components>,
    count: nat,
) -> Seq<SkippedCommitPath>
    decreases count,
{
    if count == 0 {
        Seq::empty()
    } else {
        let k = count - 1;
        let before = walk_skips(named, probes, target, k as nat);
        if names_directory(probes[k].is_dir, target, normal(named[k]@)) {
            match probes[k].walked {
                Some(walked) => before + walked.skipped@,
                None => before,
            }
        } else {
            before
        }
    }
}

/// What the paths a commit named resolved to, kept apart by how they were
/// named.
pub struct SelectedPaths {
    pub named: Vec<FilePath>,
    pub under_directory: Vec<FilePath>,
    /// Paths a named directory matched that dotsync cannot record whatever
    /// their content says.
    pub skipped: Vec<SkippedCommitPath>,
}

impl SelectedPaths {
    /// Both sets are in order, and no path is in both.
    pub open spec fn wf(self) -> bool {
        &&& sorted_paths(all_paths(self.named@))
        &&& sorted_paths(all_paths(self.under_directory@))
        &&& forall|p: Components| #[trigger]
            all_paths(self.under_directory@).contains(p) ==> !all_paths(self.named@).contains(p)
    }

    /// Everything the selection matched, however it was named.
    pub fn everything(&self) -> (all: Vec<FilePath>)
        requires
            self.wf(),
        ensures
            sorted_paths(all_paths(all@)),
            forall|p: Components| #[trigger]
                all_paths(all@).contains(p) <==> all_paths(self.named@).contains(p) || all_paths(
                    self.under_directory@,
                ).contains(p),
            forall|p: Components| #[trigger]
                spelled(all@, p) == first_of(
                    spelled(self.named@, p),
                    spelled(self.under_directory@, p),
                ),
    {
        let mut all: Vec<FilePath> = Vec::new();
        proof {
            assert forall|p: Components| #[trigger] spelled(all@, p) is None by {
                lemma_spelled(all@, p);
            }
        }
        add_paths(&mut all, &self.named);
        add_paths(&mut all, &self.under_directory);
        all
    }
}

/// Adds some paths to a sorted list.
pub fn add_paths(list: &mut Vec<FilePath>, more: &Vec<FilePath>)
    requires
        sorted_paths(all_paths(old(list)@)),
    ensures
        sorted_paths(all_paths(final(list)@)),
        forall|p: Components| #[trigger]
            all_paths(final(list)@).contains(p) <==> all_paths(old(list)@).contains(p) || all_paths(
                more@,
            ).contains(p),
        forall|p: Components| #[trigger]
            spelled(final(list)@, p) == first_of(spelled(old(list)@, p), spelled(more@, p)),
{
    let mut i: usize = 0;
    proof {
        lemma_take_all(more@);
        assert forall|p: Components| #[trigger] spelled(list@, p) == first_of(
            spelled(old(list)@, p),
            spelled(more@.take(0), p),
        ) by {
            lemma_nothing_spelled(p);
        }
    }
    while i < more.len()
        invariant
            i <= more.len(),
            sorted_paths(all_paths(list@)),
            forall|p: Components| #[trigger]
                all_paths(list@).contains(p) <==> all_paths(old(list)@).contains(p) || all_paths(
                    more@,
                ).take(i as int).contains(p),
            forall|p: Components| #[trigger]
                spelled(list@, p) == first_of(
                    spelled(old(list)@, p),
                    spelled(more@.take(i as int), p),
                ),
        decreases more.len() - i,
    {
        let ghost before = list@;
        insert_path(list, more[i].copy());
        proof {
            assert forall|p: Components| #[trigger] spelled(list@, p) == first_of(
                spelled(old(list)@, p),
                spelled(more@.take(i + 1), p),
            ) by {
                lemma_spelled_step(more@, i as int, p);
                assert(spelled(before, p) == first_of(
                    spelled(old(list)@, p),
                    spelled(more@.take(i as int), p),
                ));
            }
            assert(all_paths(more@)[i as int] == more@[i as int]@);
            lemma_take_holds(all_paths(more@), i as int);
        }
        i += 1;
    }
    proof {
        lemma_take_all(all_paths(more@));
    }
}

/// The paths of a list that are `prefix` or under it, added to a sorted list.
fn add_under(list: &mut Vec<FilePath>, target: &Vec<FilePath>, prefix: &FilePath)
    requires
        sorted_paths(all_paths(old(list)@)),
    ensures
        sorted_paths(all_paths(final(list)@)),
        forall|p: Components| #[trigger]
            all_paths(final(list)@).contains(p) <==> all_paths(old(list)@).contains(p) || (all_paths(
                target@,
            ).contains(p) && prefix@.is_prefix_of(p)),
        forall|p: Components| #[trigger]
            spelled(final(list)@, p) == first_of(
                spelled(old(list)@, p),
                if prefix@.is_prefix_of(p) {
                    spelled(target@, p)
                } else {
                    None
                },
            ),
{
    let mut i: usize = 0;
    proof {
        lemma_take_all(target@);
        assert forall|p: Components| #[trigger] spelled(list@, p) == first_of(
            spelled(old(list)@, p),
            if prefix@.is_prefix_of(p) {
                spelled(target@.take(0), p)
            } else {
                None
            },
        ) by {
            lemma_nothing_spelled(p);
        }
    }
    while i < target.len()
        invariant
            i <= target.len(),
            sorted_paths(all_paths(list@)),
            forall|p: Components| #[trigger]
                all_paths(list@).contains(p) <==> all_paths(old(list)@).contains(p) || (all_paths(
                    target@,
                ).take(i as int).contains(p) && prefix@.is_prefix_of(p)),
            forall|p: Components| #[trigger]
                spelled(list@, p) == first_of(
                    spelled(old(list)@, p),
                    if prefix@.is_prefix_of(p) {
                        spelled(target@.take(i as int), p)
                    } else {
                        None
                    },
                ),
        decreases target.len() - i,
    {
        proof {
            assert(all_paths(target@)[i as int] == target@[i as int]@);
            lemma_take_holds(all_paths(target@), i as int);
        }
        let ghost before = list@;
        if target[i].starts_with(prefix) {
            insert_path(list, target[i].copy());
        }
        proof {
            assert forall|p: Components| #[trigger] spelled(list@, p) == first_of(
                spelled(old(list)@, p),
                if prefix@.is_prefix_of(p) {
                    spelled(target@.take(i + 1), p)
                } else {
                    None
                },
            ) by {
                lemma_spelled_step(target@, i as int, p);
                assert(spelled(before, p) == first_of(
                    spelled(old(list)@, p),
                    if prefix@.is_prefix_of(p) {
                        spelled(target@.take(i as int), p)
                    } else {
                        None
                    },
                ));
            }
        }
        i += 1;
    }
    proof {
        lemma_take_all(all_paths(target@));
    }
}

/// What one named path resolves to.
fn resolve(probe: &NamedProbe, target: &Vec<FilePath>, path: &FilePath, directory: bool) -> (matched:
    Vec<FilePath>)
    requires
        directory == names_directory(probe.is_dir, all_paths(target@), path@),
    ensures
        sorted_paths(all_paths(matched@)),
        forall|p: Components| #[trigger]
            all_paths(matched@).contains(p) <==> resolves_to(
                *probe,
                all_paths(target@),
                path@,
                p,
            ),
        directory ==> forall|p: Components| #[trigger]
            spelled(matched@, p) == directory_spelling(*probe, target@, path@, p),
        !directory ==> forall|i: int| 0 <= i < matched@.len() ==> #[trigger] matched@[i] == *path,
{
    let mut matched: Vec<FilePath> = Vec::new();
    proof {
        assert forall|p: Components| #[trigger] spelled(matched@, p) is None by {
            lemma_spelled(matched@, p);
        }
    }
    if directory {
        match &probe.walked {
            Some(walked) => {
                add_paths(&mut matched, &walked.matched);
            },
            None => {},
        }
        add_under(&mut matched, target, path);
    } else if probe.present || contains_path(target, path) {
        insert_path(&mut matched, path.copy());
        proof {
            assert forall|i: int| 0 <= i < matched@.len() implies #[trigger] matched@[i]
                == *path by {
                lemma_sorted_spelled(matched@, i);
                assert(spelled(matched@, matched@[i]@) is Some);
            }
        }
    }
    matched
}

/// What is on a sorted list that paths were added to was on it before or is
/// among those.
proof fn lemma_added(before: Seq<FilePath>, more: Seq<FilePath>, after: Seq<FilePath>, i: int)
    requires
        sorted_paths(all_paths(after)),
        forall|p: Components| #[trigger]
            spelled(after, p) == first_of(spelled(before, p), spelled(more, p)),
        0 <= i < after.len(),
    ensures
        before.contains(after[i]) || more.contains(after[i]),
{
    lemma_sorted_spelled(after, i);
    lemma_spelled(before, after[i]@);
    lemma_spelled(more, after[i]@);
}

fn copy_skipped(list: &mut Vec<SkippedCommitPath>, more: &Vec<SkippedCommitPath>)
    ensures
        final(list)@ == old(list)@ + more@,
{
    let mut i: usize = 0;
    proof {
        assert(list@ =~= old(list)@ + more@.take(0));
    }
    while i < more.len()
        invariant
            i <= more.len(),
            list@ == old(list)@ + more@.take(i as int),
        decreases more.len() - i,
    {
        list.push(SkippedCommitPath { path: more[i].path.copy(), reason: more[i].reason });
        proof {
            assert(list@ =~= old(list)@ + more@.take(i + 1));
        }
        i += 1;
    }
    proof {
        lemma_take_all(more@);
    }
}

/// Whether `selected` is what named paths resolve to: those named exactly as
/// their components are spelled, those under a directory as that spells them.
pub open spec fn is_expansion(
    named: Seq<FilePath>,
    probes: Seq<NamedProbe>,
    target: Seq<FilePath>,
    selected: SelectedPaths,
) -> bool {
    let count = named.len();
    let on_scope = all_paths(target);
    &&& selected.wf()
    &&& forall|p: Components| #[trigger]
        all_paths(selected.named@).contains(p) <==> named_exactly(
            named,
            probes,
            on_scope,
            count,
            p,
        )
    &&& forall|p: Components| #[trigger]
        all_paths(selected.under_directory@).contains(p) <==> named_by_directory(
            named,
            probes,
            on_scope,
            count,
            p,
        ) && !all_paths(selected.named@).contains(p)
    &&& plainly_spelled(selected.named@)
    &&& forall|p: Components| #[trigger]
        spelled(selected.under_directory@, p) == if all_paths(selected.named@).contains(p) {
            None
        } else {
            spelled_under(named, probes, target, count, p)
        }
    &&& selected.skipped@ == walk_skips(named, probes, on_scope, count)
}

proof fn lemma_plain_step(
    before: Seq<FilePath>,
    more: Seq<FilePath>,
    path: FilePath,
    after: Seq<FilePath>,
)
    requires
        plainly_spelled(before),
        path.text@ == path_text(path@),
        forall|i: int| 0 <= i < more.len() ==> #[trigger] more[i] == path,
        sorted_paths(all_paths(after)),
        forall|p: Components| #[trigger]
            spelled(after, p) == first_of(spelled(before, p), spelled(more, p)),
    ensures
        plainly_spelled(after),
{
    assert forall|k: int| 0 <= k < after.len() implies (#[trigger] after[k]).text@ == path_text(
        after[k]@,
    ) by {
        lemma_added(before, more, after, k);
        if more.contains(after[k]) {
            let m = choose|m: int| 0 <= m < more.len() && more[m] == after[k];
            assert(more[m] == path);
        } else {
            let m = choose|m: int| 0 <= m < before.len() && before[m] == after[k];
            assert(before[m].text@ == path_text(before[m]@));
        }
    }
}

proof fn lemma_under_step(
    named: Seq<FilePath>,
    probes: Seq<NamedProbe>,
    target: Seq<FilePath>,
    count: nat,
    before: Seq<FilePath>,
    more: Seq<FilePath>,
    after: Seq<FilePath>,
)
    requires
        count < named.len(),
        names_directory(
            probes[count as int].is_dir,
            all_paths(target),
            normal(named[count as int]@),
        ),
        forall|p: Components| #[trigger]
            spelled(before, p) == spelled_under(named, probes, target, count, p),
        forall|p: Components| #[trigger]
            spelled(more, p) == directory_spelling(
                probes[count as int],
                target,
                normal(named[count as int]@),
                p,
            ),
        forall|p: Components| #[trigger]
            spelled(after, p) == first_of(spelled(before, p), spelled(more, p)),
    ensures
        forall|p: Components| #[trigger]
            spelled(after, p) == spelled_under(named, probes, target, count + 1, p),
{
}

/// What the paths a commit named come to: what they resolve to, or every one of
/// them that is bad.
pub open spec fn expands(
    paths: DotsyncPaths,
    scope: Text,
    named: Seq<FilePath>,
    probes: Seq<NamedProbe>,
    target: Seq<FilePath>,
    selected: Result<SelectedPaths, DotsyncError>,
) -> bool {
    let bad = bad_paths(paths, named, probes, all_paths(target), named.len());
    match selected {
        Ok(selected) => bad.len() == 0 && is_expansion(named, probes, target, selected),
        Err(error) => {
            &&& bad.len() > 0
            &&& error matches DotsyncError::UnusableCommitPaths { scope: refusing, rejected }
                && refusing@ == scope && rejected_views(rejected@) == bad
        },
    }
}

/// Resolves the paths a commit named. Every bad path is reported in one
/// answer.
pub fn expand_selection_paths(
    paths: &DotsyncPaths,
    scope: &str,
    selection_paths: &Vec<FilePath>,
    probes: &Vec<NamedProbe>,
    target: &Vec<FilePath>,
) -> (selected: Result<SelectedPaths, DotsyncError>)
    requires
        selection_paths.len() == probes.len(),
    ensures
        expands(*paths, scope@, selection_paths@, probes@, target@, selected),
{
    let repo_relative = paths.repo_relative();
    let ghost on_scope = all_paths(target@);
    let mut named: Vec<FilePath> = Vec::new();
    let mut under: Vec<FilePath> = Vec::new();
    let mut skipped: Vec<SkippedCommitPath> = Vec::new();
    let mut rejected: Vec<RejectedCommitPath> = Vec::new();
    let mut i: usize = 0;
    proof {
        assert(rejected_views(rejected@) =~= Seq::<RejectedView>::empty());
        assert(skipped@ =~= Seq::<SkippedCommitPath>::empty());
        assert(named@ =~= Seq::<FilePath>::empty());
        lemma_expanded_none(selection_paths@, probes@, target@);
    }
    while i < selection_paths.len()
        invariant
            i <= selection_paths.len(),
            selection_paths.len() == probes.len(),
            on_scope == all_paths(target@),
            opt_path(repo_relative) == repo_within(*paths),
            rejected_views(rejected@) == bad_paths(
                *paths,
                selection_paths@,
                probes@,
                on_scope,
                i as nat,
            ),
            sorted_paths(all_paths(named@)),
            sorted_paths(all_paths(under@)),
            rejected.len() == 0 ==> expanded(
                selection_paths@,
                probes@,
                target@,
                i as nat,
                named@,
                under@,
                skipped@,
            ),
        decreases selection_paths.len() - i,
    {
        let typed = &selection_paths[i];
        let path = typed.normalised();
        let ghost before = rejected@;
        let directory = is_directory_selection(probes[i].is_dir, target, &path);
        let problem = unusable_commit_path(paths, &path, &repo_relative);
        let matched = resolve(&probes[i], target, &path, directory);
        proof {
            lemma_resolves(probes@[i as int], target@, path, directory, matched@);
        }
        match problem {
            Some(problem) => {
                rejected.push(RejectedCommitPath { path: typed.copy(), problem });
                proof {
                    assert(rejected_views(rejected@) =~= rejected_views(before).push(
                        RejectedView { path: typed.text@, problem: problem@ },
                    ));
                }
            },
            None => {
                if matched.is_empty() {
                    let home_path = paths.home_dir.join(&path);
                    let problem = CommitPathProblem::Unmatched { home_path };
                    rejected.push(RejectedCommitPath { path: typed.copy(), problem });
                    proof {
                        assert(rejected_views(rejected@) =~= rejected_views(before).push(
                            RejectedView { path: typed.text@, problem: problem@ },
                        ));
                    }
                } else if directory {
                    let ghost earlier = under@;
                    let ghost left = skipped@;
                    match &probes[i].walked {
                        Some(walked) => {
                            copy_skipped(&mut skipped, &walked.skipped);
                        },
                        None => {},
                    }
                    add_paths(&mut under, &matched);
                    proof {
                        if rejected.len() == 0 {
                            lemma_expanded_directory(
                                selection_paths@,
                                probes@,
                                target@,
                                i as nat,
                                named@,
                                earlier,
                                left,
                                matched@,
                                under@,
                                skipped@,
                            );
                        }
                    }
                } else {
                    let ghost earlier = named@;
                    add_paths(&mut named, &matched);
                    proof {
                        if rejected.len() == 0 {
                            lemma_expanded_exact(
                                selection_paths@,
                                probes@,
                                target@,
                                i as nat,
                                path,
                                earlier,
                                under@,
                                skipped@,
                                matched@,
                                named@,
                            );
                        }
                    }
                }
            },
        }
        i += 1;
    }
    proof {
        assert(rejected_views(rejected@).len() == rejected.len());
    }
    if !rejected.is_empty() {
        return Err(DotsyncError::UnusableCommitPaths { scope: scope.to_owned(), rejected });
    }
    let under_directory = without(&under, &named);
    proof {
        reveal(expanded);
    }
    Ok(SelectedPaths { named, under_directory, skipped })
}

/// What the first `count` named paths resolve to, before a path that was named
/// both ways is taken from those under a directory.
#[verifier::opaque]
spec fn expanded(
    selection: Seq<FilePath>,
    probes: Seq<NamedProbe>,
    target: Seq<FilePath>,
    count: nat,
    named: Seq<FilePath>,
    under: Seq<FilePath>,
    skipped: Seq<SkippedCommitPath>,
) -> bool {
    &&& plainly_spelled(named)
    &&& forall|p: Components| #[trigger]
        all_paths(named).contains(p) <==> named_exactly(
            selection,
            probes,
            all_paths(target),
            count,
            p,
        )
    &&& forall|p: Components| #[trigger]
        all_paths(under).contains(p) <==> named_by_directory(
            selection,
            probes,
            all_paths(target),
            count,
            p,
        )
    &&& forall|p: Components| #[trigger]
        spelled(under, p) == spelled_under(selection, probes, target, count, p)
    &&& skipped == walk_skips(selection, probes, all_paths(target), count)
}

proof fn lemma_expanded_none(
    selection: Seq<FilePath>,
    probes: Seq<NamedProbe>,
    target: Seq<FilePath>,
)
    ensures
        expanded(
            selection,
            probes,
            target,
            0,
            Seq::empty(),
            Seq::empty(),
            Seq::empty(),
        ),
{
    reveal(expanded);
    let none = Seq::<FilePath>::empty();
    assert forall|p: Components| #[trigger] spelled(none, p) == spelled_under(
        selection,
        probes,
        target,
        0,
        p,
    ) by {
        lemma_nothing_spelled(p);
    }
}

/// A named path resolves to something where something is matched.
proof fn lemma_resolves(
    probe: NamedProbe,
    target: Seq<FilePath>,
    path: FilePath,
    directory: bool,
    matched: Seq<FilePath>,
)
    requires
        forall|p: Components| #[trigger]
            all_paths(matched).contains(p) <==> resolves_to(probe, all_paths(target), path@, p),
    ensures
        matched.len() > 0 <==> exists|found: Components|
            resolves_to(probe, all_paths(target), path@, found),
{
    if matched.len() > 0 {
        assert(all_paths(matched)[0] == matched[0]@);
        assert(all_paths(matched).contains(matched[0]@));
        assert(resolves_to(probe, all_paths(target), path@, matched[0]@));
    }
    if exists|found: Components| resolves_to(probe, all_paths(target), path@, found) {
        let found = choose|found: Components|
            resolves_to(probe, all_paths(target), path@, found);
        assert(all_paths(matched).contains(found));
    }
}

proof fn lemma_expanded_directory(
    selection: Seq<FilePath>,
    probes: Seq<NamedProbe>,
    target: Seq<FilePath>,
    count: nat,
    named: Seq<FilePath>,
    under: Seq<FilePath>,
    skipped: Seq<SkippedCommitPath>,
    matched: Seq<FilePath>,
    under_after: Seq<FilePath>,
    skipped_after: Seq<SkippedCommitPath>,
)
    requires
        count < selection.len() == probes.len(),
        expanded(selection, probes, target, count, named, under, skipped),
        names_directory(
            probes[count as int].is_dir,
            all_paths(target),
            normal(selection[count as int]@),
        ),
        forall|p: Components| #[trigger]
            all_paths(matched).contains(p) <==> resolves_to(
                probes[count as int],
                all_paths(target),
                normal(selection[count as int]@),
                p,
            ),
        forall|p: Components| #[trigger]
            spelled(matched, p) == directory_spelling(
                probes[count as int],
                target,
                normal(selection[count as int]@),
                p,
            ),
        forall|p: Components| #[trigger]
            all_paths(under_after).contains(p) <==> all_paths(under).contains(p) || all_paths(
                matched,
            ).contains(p),
        forall|p: Components| #[trigger]
            spelled(under_after, p) == first_of(spelled(under, p), spelled(matched, p)),
        skipped_after == match probes[count as int].walked {
            Some(walked) => skipped + walked.skipped@,
            None => skipped,
        },
    ensures
        expanded(selection, probes, target, count + 1, named, under_after, skipped_after),
{
    reveal(expanded);
    lemma_named_step(selection, probes, all_paths(target), count);
    lemma_under_step(selection, probes, target, count, under, matched, under_after);
}

proof fn lemma_expanded_exact(
    selection: Seq<FilePath>,
    probes: Seq<NamedProbe>,
    target: Seq<FilePath>,
    count: nat,
    path: FilePath,
    named: Seq<FilePath>,
    under: Seq<FilePath>,
    skipped: Seq<SkippedCommitPath>,
    matched: Seq<FilePath>,
    named_after: Seq<FilePath>,
)
    requires
        count < selection.len() == probes.len(),
        expanded(selection, probes, target, count, named, under, skipped),
        path@ == normal(selection[count as int]@),
        path.text@ == path_text(path@),
        !names_directory(probes[count as int].is_dir, all_paths(target), path@),
        forall|p: Components| #[trigger]
            all_paths(matched).contains(p) <==> resolves_to(
                probes[count as int],
                all_paths(target),
                path@,
                p,
            ),
        forall|i: int| 0 <= i < matched.len() ==> #[trigger] matched[i] == path,
        sorted_paths(all_paths(named_after)),
        forall|p: Components| #[trigger]
            all_paths(named_after).contains(p) <==> all_paths(named).contains(p) || all_paths(
                matched,
            ).contains(p),
        forall|p: Components| #[trigger]
            spelled(named_after, p) == first_of(spelled(named, p), spelled(matched, p)),
    ensures
        expanded(selection, probes, target, count + 1, named_after, under, skipped),
{
    reveal(expanded);
    lemma_named_step(selection, probes, all_paths(target), count);
    lemma_plain_step(named, matched, path, named_after);
    assert forall|p: Components| #[trigger] spelled(under, p) == spelled_under(
        selection,
        probes,
        target,
        count + 1,
        p,
    ) by {
        assert(spelled(under, p) == spelled_under(selection, probes, target, count, p));
    }
}

proof fn lemma_named_step(
    named: Seq<FilePath>,
    probes: Seq<NamedProbe>,
    target: Seq<Components>,
    count: nat,
)
    requires
        count < named.len(),
        named.len() == probes.len(),
    ensures
        forall|p: Components| #[trigger]
            named_exactly(named, probes, target, count + 1, p) <==> named_exactly(
                named,
                probes,
                target,
                count,
                p,
            ) || (!names_directory(
                probes[count as int].is_dir,
                target,
                normal(named[count as int]@),
            ) && resolves_to(probes[count as int], target, normal(named[count as int]@), p)),
        forall|p: Components| #[trigger]
            named_by_directory(named, probes, target, count + 1, p) <==> named_by_directory(
                named,
                probes,
                target,
                count,
                p,
            ) || (names_directory(
                probes[count as int].is_dir,
                target,
                normal(named[count as int]@),
            ) && resolves_to(probes[count as int], target, normal(named[count as int]@), p)),
{
}

/// The paths of a sorted list that another list does not hold.
fn without(list: &Vec<FilePath>, other: &Vec<FilePath>) -> (rest: Vec<FilePath>)
    requires
        sorted_paths(all_paths(list@)),
    ensures
        sorted_paths(all_paths(rest@)),
        forall|p: Components| #[trigger]
            all_paths(rest@).contains(p) <==> all_paths(list@).contains(p) && !all_paths(
                other@,
            ).contains(p),
        forall|p: Components| #[trigger]
            spelled(rest@, p) == if all_paths(other@).contains(p) {
                None
            } else {
                spelled(list@, p)
            },
{
    let mut rest: Vec<FilePath> = Vec::new();
    let mut i: usize = 0;
    proof {
        lemma_take_all(list@);
        assert forall|p: Components| #[trigger] spelled(rest@, p) is None && spelled(
            list@.take(0),
            p,
        ) is None by {
            lemma_spelled(rest@, p);
            lemma_nothing_spelled(p);
        }
    }
    while i < list.len()
        invariant
            i <= list.len(),
            sorted_paths(all_paths(rest@)),
            forall|p: Components| #[trigger]
                all_paths(rest@).contains(p) <==> all_paths(list@).take(i as int).contains(p)
                    && !all_paths(other@).contains(p),
            forall|p: Components| #[trigger]
                spelled(rest@, p) == if all_paths(other@).contains(p) {
                    None
                } else {
                    spelled(list@.take(i as int), p)
                },
        decreases list.len() - i,
    {
        proof {
            assert(all_paths(list@)[i as int] == list@[i as int]@);
            lemma_take_holds(all_paths(list@), i as int);
        }
        let ghost before = rest@;
        if !contains_path(other, &list[i]) {
            insert_path(&mut rest, list[i].copy());
        }
        proof {
            assert forall|p: Components| #[trigger] spelled(rest@, p) == if all_paths(
                other@,
            ).contains(p) {
                None
            } else {
                spelled(list@.take(i + 1), p)
            } by {
                lemma_spelled_step(list@, i as int, p);
                assert(spelled(before, p) == if all_paths(other@).contains(p) {
                    None
                } else {
                    spelled(list@.take(i as int), p)
                });
            }
        }
        i += 1;
    }
    proof {
        lemma_take_all(all_paths(list@));
    }
    rest
}

/// What a commit will record, and on whose authority.
pub struct Selection {
    pub paths: Vec<FilePath>,
    /// The selected paths the target scope does not have yet.
    pub newly_tracked: Vec<FilePath>,
    /// Paths a named directory expanded to that the commit left alone.
    pub skipped: Vec<SkippedCommitPath>,
    /// The paths that home wins at whatever the repo says.
    pub forced_paths: Vec<FilePath>,
    /// The forced paths where that decided something.
    pub forced_overwrites: Vec<FilePath>,
}

/// Whether a commit steps around a path that a named directory matched: home
/// holds no change of this machine's own there, and nothing says home wins.
pub open spec fn steps_around(
    force: bool,
    classified: Seq<(FilePath, ClassifiedPath)>,
    path: Components,
) -> bool {
    !force && blocking(named_state(classified, path))
}

/// Whether a commit selects a path: every change of this machine's own where it
/// named nothing; otherwise what it named exactly, and what the directories it
/// named hold, as far as it does not step around that.
pub open spec fn is_selected(
    force: bool,
    selection: Option<SelectedPaths>,
    classified: Seq<(FilePath, ClassifiedPath)>,
    path: Components,
) -> bool {
    match selection {
        None => keys(classified).contains(path) && drifted(named_state(classified, path)),
        Some(selection) => all_paths(selection.named@).contains(path) || (all_paths(
            selection.under_directory@,
        ).contains(path) && !steps_around(force, classified, path)),
    }
}

/// How a commit spells a path it selects: as the classification does where it
/// named nothing; otherwise as its selection does.
pub open spec fn selected_spelling(
    force: bool,
    selection: Option<SelectedPaths>,
    classified: Seq<(FilePath, ClassifiedPath)>,
    path: Components,
) -> Option<FilePath> {
    if !is_selected(force, selection, classified, path) {
        None
    } else {
        match selection {
            None => spelled(entry_names(classified), path),
            Some(selection) => first_of(
                spelled(selection.named@, path),
                spelled(selection.under_directory@, path),
            ),
        }
    }
}

/// Whether a list is what a commit selects: in order, each path once and as it
/// is spelled where it comes from.
pub open spec fn is_selection(
    force: bool,
    selection: Option<SelectedPaths>,
    classified: Seq<(FilePath, ClassifiedPath)>,
    list: Seq<FilePath>,
) -> bool {
    &&& sorted_paths(all_paths(list))
    &&& forall|p: Components| #[trigger]
        all_paths(list).contains(p) <==> is_selected(force, selection, classified, p)
    &&& forall|p: Components| #[trigger]
        spelled(list, p) == selected_spelling(force, selection, classified, p)
}

/// A path that a commit steps around, with where it stands.
pub open spec fn left_alone(
    path: FilePath,
    classified: Seq<(FilePath, ClassifiedPath)>,
) -> SkippedCommitPath {
    SkippedCommitPath { path, reason: SkipReason::NotChangedHere(named_state(classified, path@)) }
}

/// What a commit leaves alone under the directories it named, beyond what their
/// walks left out.
pub open spec fn stepped_around(
    force: bool,
    selection: SelectedPaths,
    classified: Seq<(FilePath, ClassifiedPath)>,
) -> Seq<SkippedCommitPath> {
    selection.under_directory@.filter(
        |p: FilePath| steps_around(force, classified, p@),
    ).map_values(|p: FilePath| left_alone(p, classified))
}

/// Everything a commit reports to have left alone.
pub open spec fn all_skipped(
    force: bool,
    selection: Option<SelectedPaths>,
    classified: Seq<(FilePath, ClassifiedPath)>,
) -> Seq<SkippedCommitPath> {
    match selection {
        None => Seq::empty(),
        Some(selection) => selection.skipped@ + stepped_around(force, selection, classified),
    }
}

/// Whether a commit would record a change to the scope graph on a scope that
/// dotsync does not read it from. An unchanged copy records nothing.
pub open spec fn moves_scope_graph(
    scope: Text,
    selected: Seq<Components>,
    in_home: Option<Seq<u8>>,
    on_scope: Option<Seq<u8>>,
) -> bool {
    scope != ALL_SCOPE@ && selected.contains(components(DOTSYNC_CONFIG_RELATIVE_PATH@)) && in_home
        != on_scope
}

fn same_content(left: &Vec<u8>, right: &Vec<u8>) -> (same: bool)
    ensures
        same == (left@ == right@),
{
    if left.len() != right.len() {
        return false;
    }
    let mut i: usize = 0;
    while i < left.len()
        invariant
            left.len() == right.len(),
            i <= left.len(),
            forall|j: int| 0 <= j < i ==> left@[j] == right@[j],
        decreases left.len() - i,
    {
        if left[i] != right[i] {
            return false;
        }
        i += 1;
    }
    proof {
        assert(left@ =~= right@);
    }
    true
}

/// Whether two contents that may be missing are the same.
pub fn same_bytes(left: &Option<Vec<u8>>, right: &Option<Vec<u8>>) -> (same: bool)
    ensures
        same == (opt_bytes(*left) == opt_bytes(*right)),
{
    match (left, right) {
        (None, None) => true,
        (Some(left), Some(right)) => same_content(left, right),
        _ => false,
    }
}

/// Whether a commit has to be refused because it would record a change to the
/// scope graph on a scope that is not the root.
pub fn reject_scope_graph_outside_all(
    scope: &str,
    selected: &Vec<FilePath>,
    in_home: &Option<Vec<u8>>,
    on_scope: &Option<Vec<u8>>,
) -> (refused: Option<DotsyncError>)
    ensures
        refused is Some <==> moves_scope_graph(
            scope@,
            all_paths(selected@),
            opt_bytes(*in_home),
            opt_bytes(*on_scope),
        ),
        refused matches Some(error) ==> error matches DotsyncError::UnusableCommitPaths {
            scope: refusing,
            rejected,
        } && refusing@ == scope@ && rejected_views(rejected@) == seq![
            RejectedView {
                path: DOTSYNC_CONFIG_RELATIVE_PATH@,
                problem: ProblemView::ScopeGraphOutsideAllScope,
            },
        ],
{
    let config_path = FilePath::new(DOTSYNC_CONFIG_RELATIVE_PATH);
    if same_text(scope, ALL_SCOPE) || !contains_path(selected, &config_path) || same_bytes(
        in_home,
        on_scope,
    ) {
        return None;
    }
    let mut rejected: Vec<RejectedCommitPath> = Vec::new();
    rejected.push(
        RejectedCommitPath {
            path: config_path,
            problem: CommitPathProblem::ScopeGraphOutsideAllScope,
        },
    );
    proof {
        assert(rejected_views(rejected@) =~= seq![
            RejectedView {
                path: DOTSYNC_CONFIG_RELATIVE_PATH@,
                problem: ProblemView::ScopeGraphOutsideAllScope,
            },
        ]);
    }
    Some(DotsyncError::UnusableCommitPaths { scope: scope.to_owned(), rejected })
}

/// Every change of this machine's own, which is what a bare commit selects.
fn own_changes(classified: &Vec<(FilePath, ClassifiedPath)>) -> (selected: Vec<FilePath>)
    requires
        sorted_paths(keys(classified@)),
    ensures
        forall|force: bool| #[trigger] is_selection(force, None, classified@, selected@),
{
    let ghost all = entry_names(classified@);
    let mut selected: Vec<FilePath> = Vec::new();
    let mut i: usize = 0;
    proof {
        lemma_take_all(all);
        assert(all_paths(all) =~= keys(classified@));
        assert forall|p: Components| #[trigger] spelled(selected@, p) is None && spelled(
            all.take(0),
            p,
        ) is None by {
            lemma_spelled(selected@, p);
            lemma_nothing_spelled(p);
        }
    }
    while i < classified.len()
        invariant
            i <= classified.len(),
            all == entry_names(classified@),
            sorted_paths(all_paths(selected@)),
            forall|p: Components| #[trigger]
                spelled(selected@, p) == if drifted(named_state(classified@, p)) {
                    spelled(all.take(i as int), p)
                } else {
                    None
                },
        decreases classified.len() - i,
    {
        let path = &classified[i].0;
        let ghost before = selected@;
        if state_of(classified, path).is_drift() {
            insert_path(&mut selected, path.copy());
        }
        proof {
            assert(all[i as int] == *path);
            assert forall|p: Components| #[trigger] spelled(selected@, p) == if drifted(
                named_state(classified@, p),
            ) {
                spelled(all.take(i + 1), p)
            } else {
                None
            } by {
                lemma_spelled_step(all, i as int, p);
                assert(spelled(before, p) == if drifted(named_state(classified@, p)) {
                    spelled(all.take(i as int), p)
                } else {
                    None
                });
            }
        }
        i += 1;
    }
    proof {
        lemma_take_all(all);
        assert forall|force: bool| #[trigger] is_selection(
            force,
            None,
            classified@,
            selected@,
        ) by {
            assert forall|p: Components|
                spelled(selected@, p) == selected_spelling(force, None, classified@, p) && (
                #[trigger] all_paths(selected@).contains(p) <==> is_selected(
                    force,
                    None,
                    classified@,
                    p,
                )) by {
                lemma_spelled(selected@, p);
                lemma_spelled(all, p);
                assert(spelled(selected@, p) == if drifted(named_state(classified@, p)) {
                    spelled(all, p)
                } else {
                    None
                });
            }
            assert forall|p: Components| #[trigger] spelled(selected@, p) == selected_spelling(
                force,
                None,
                classified@,
                p,
            ) by {
                assert(all_paths(selected@).contains(p) <==> is_selected(
                    force,
                    None,
                    classified@,
                    p,
                ));
            }
        }
    }
    selected
}

/// The paths a commit selects, and what it leaves alone.
fn selected_changes(
    force: bool,
    selection: &Option<SelectedPaths>,
    classified: &Vec<(FilePath, ClassifiedPath)>,
) -> (chosen: (Vec<FilePath>, Vec<SkippedCommitPath>))
    requires
        selection matches Some(selection) ==> selection.wf(),
        sorted_paths(keys(classified@)),
    ensures
        is_selection(force, *selection, classified@, chosen.0@),
        chosen.1@ == all_skipped(force, *selection, classified@),
{
    let mut skipped: Vec<SkippedCommitPath> = Vec::new();
    let selection = match selection {
        None => {
            let selected = own_changes(classified);
            proof {
                assert(is_selection(force, None, classified@, selected@));
                assert(skipped@ =~= Seq::<SkippedCommitPath>::empty());
            }
            return (selected, skipped);
        },
        Some(selection) => selection,
    };
    let mut selected: Vec<FilePath> = copy_paths(&selection.named);
    copy_skipped(&mut skipped, &selection.skipped);
    let ghost named = selection.named@;
    let ghost all = selection.under_directory@;
    let ghost around = |p: FilePath| steps_around(force, classified@, p@);
    let ghost shown = |p: FilePath| left_alone(p, classified@);
    let mut i: usize = 0;
    proof {
        lemma_take_all(all);
        reveal(Seq::filter);
        assert(skipped@ =~= selection.skipped@ + all.take(0).filter(around).map_values(shown));
        assert forall|p: Components| #[trigger] spelled(selected@, p) == first_of(
            spelled(named, p),
            if steps_around(force, classified@, p) {
                None
            } else {
                spelled(all.take(0), p)
            },
        ) by {
            lemma_nothing_spelled(p);
        }
    }
    while i < selection.under_directory.len()
        invariant
            i <= selection.under_directory.len(),
            named == selection.named@,
            all == selection.under_directory@,
            around == |p: FilePath| steps_around(force, classified@, p@),
            shown == |p: FilePath| left_alone(p, classified@),
            sorted_paths(all_paths(selected@)),
            forall|p: Components| #[trigger]
                spelled(selected@, p) == first_of(
                    spelled(named, p),
                    if steps_around(force, classified@, p) {
                        None
                    } else {
                        spelled(all.take(i as int), p)
                    },
                ),
            skipped@ == selection.skipped@ + all.take(i as int).filter(around).map_values(shown),
        decreases selection.under_directory.len() - i,
    {
        let path = &selection.under_directory[i];
        proof {
            lemma_filter_step(all, around, i as int);
        }
        let ghost before = selected@;
        let state = state_of(classified, path);
        if !force && state.blocks_commit() {
            skipped.push(
                SkippedCommitPath { path: path.copy(), reason: SkipReason::NotChangedHere(state) },
            );
            proof {
                assert(skipped@ =~= selection.skipped@ + all.take(i + 1).filter(around).map_values(
                    shown,
                ));
            }
        } else {
            insert_path(&mut selected, path.copy());
        }
        proof {
            lemma_selected_step(
                force,
                classified@,
                named,
                all,
                i as int,
                before,
                selected@,
            );
        }
        i += 1;
    }
    proof {
        lemma_take_all(all);
        assert forall|p: Components|
            spelled(selected@, p) == selected_spelling(
                force,
                Some(*selection),
                classified@,
                p,
            ) && (#[trigger] all_paths(selected@).contains(p) <==> is_selected(
                force,
                Some(*selection),
                classified@,
                p,
            )) by {
            lemma_spelled(selected@, p);
            lemma_spelled(named, p);
            lemma_spelled(all, p);
            assert(spelled(selected@, p) == first_of(
                spelled(named, p),
                if steps_around(force, classified@, p) {
                    None
                } else {
                    spelled(all, p)
                },
            ));
        }
        assert forall|p: Components| #[trigger] spelled(selected@, p) == selected_spelling(
            force,
            Some(*selection),
            classified@,
            p,
        ) by {
            assert(all_paths(selected@).contains(p) <==> is_selected(
                force,
                Some(*selection),
                classified@,
                p,
            ));
        }
    }
    (selected, skipped)
}

proof fn lemma_selected_step(
    force: bool,
    classified: Seq<(FilePath, ClassifiedPath)>,
    named: Seq<FilePath>,
    all: Seq<FilePath>,
    i: int,
    before: Seq<FilePath>,
    after: Seq<FilePath>,
)
    requires
        0 <= i < all.len(),
        forall|p: Components| #[trigger]
            spelled(before, p) == first_of(
                spelled(named, p),
                if steps_around(force, classified, p) {
                    None
                } else {
                    spelled(all.take(i), p)
                },
            ),
        if steps_around(force, classified, all[i]@) {
            after == before
        } else {
            forall|p: Components| #[trigger]
                spelled(after, p) == first_of(
                    spelled(before, p),
                    if p == all[i]@ {
                        Some(all[i])
                    } else {
                        None
                    },
                )
        },
    ensures
        forall|p: Components| #[trigger]
            spelled(after, p) == first_of(
                spelled(named, p),
                if steps_around(force, classified, p) {
                    None
                } else {
                    spelled(all.take(i + 1), p)
                },
            ),
{
    assert forall|p: Components| #[trigger] spelled(after, p) == first_of(
        spelled(named, p),
        if steps_around(force, classified, p) {
            None
        } else {
            spelled(all.take(i + 1), p)
        },
    ) by {
        lemma_spelled_step(all, i, p);
        assert(spelled(before, p) == first_of(
            spelled(named, p),
            if steps_around(force, classified, p) {
                None
            } else {
                spelled(all.take(i), p)
            },
        ));
    }
}

/// The paths of a list that another list does not hold, in the same order.
fn not_among(list: &Vec<FilePath>, other: &Vec<FilePath>) -> (rest: Vec<FilePath>)
    ensures
        rest@ == list@.filter(|p: FilePath| !all_paths(other@).contains(p@)),
{
    let ghost keep = |p: FilePath| !all_paths(other@).contains(p@);
    let mut rest: Vec<FilePath> = Vec::new();
    let mut i: usize = 0;
    proof {
        lemma_take_all(list@);
        reveal(Seq::filter);
    }
    while i < list.len()
        invariant
            i <= list.len(),
            keep == |p: FilePath| !all_paths(other@).contains(p@),
            rest@ == list@.take(i as int).filter(keep),
        decreases list.len() - i,
    {
        proof {
            lemma_filter_step(list@, keep, i as int);
        }
        if !contains_path(other, &list[i]) {
            rest.push(list[i].copy());
        }
        i += 1;
    }
    proof {
        lemma_take_all(list@);
    }
    rest
}

/// The paths of a list where forcing decides something, in the same order.
fn decided(list: &Vec<FilePath>, classified: &Vec<(FilePath, ClassifiedPath)>) -> (rest: Vec<
    FilePath,
>)
    ensures
        rest@ == list@.filter(|p: FilePath| decided_by_force(named_state(classified@, p@))),
{
    let ghost keep = |p: FilePath| decided_by_force(named_state(classified@, p@));
    let mut rest: Vec<FilePath> = Vec::new();
    let mut i: usize = 0;
    proof {
        lemma_take_all(list@);
        reveal(Seq::filter);
    }
    while i < list.len()
        invariant
            i <= list.len(),
            keep == |p: FilePath| decided_by_force(named_state(classified@, p@)),
            rest@ == list@.take(i as int).filter(keep),
        decreases list.len() - i,
    {
        proof {
            lemma_filter_step(list@, keep, i as int);
        }
        if state_of(classified, &list[i]).forcing_decides_something() {
            rest.push(list[i].copy());
        }
        i += 1;
    }
    proof {
        lemma_take_all(list@);
    }
    rest
}

/// The refusal of a path, with its state.
pub open spec fn refusal(
    path: FilePath,
    classified: Seq<(FilePath, ClassifiedPath)>,
) -> RefusedCommitPath {
    RefusedCommitPath { path, state: named_state(classified, path@) }
}

/// The paths that a commit is refused for, each with its state.
pub open spec fn refusals(
    selected: Seq<FilePath>,
    classified: Seq<(FilePath, ClassifiedPath)>,
) -> Seq<RefusedCommitPath> {
    selected.filter(|p: FilePath| blocking(named_state(classified, p@))).map_values(
        |p: FilePath| refusal(p, classified),
    )
}

fn refused_paths(list: &Vec<FilePath>, classified: &Vec<(FilePath, ClassifiedPath)>) -> (refused:
    Vec<RefusedCommitPath>)
    ensures
        refused@ == refusals(list@, classified@),
{
    let ghost keep = |p: FilePath| blocking(named_state(classified@, p@));
    let ghost shown = |p: FilePath| refusal(p, classified@);
    let mut refused: Vec<RefusedCommitPath> = Vec::new();
    let mut i: usize = 0;
    proof {
        lemma_take_all(list@);
        reveal(Seq::filter);
        assert(refused@ =~= list@.take(0).filter(keep).map_values(shown));
    }
    while i < list.len()
        invariant
            i <= list.len(),
            keep == |p: FilePath| blocking(named_state(classified@, p@)),
            shown == |p: FilePath| refusal(p, classified@),
            refused@ == list@.take(i as int).filter(keep).map_values(shown),
        decreases list.len() - i,
    {
        proof {
            lemma_filter_step(list@, keep, i as int);
        }
        let state = state_of(classified, &list[i]);
        if state.blocks_commit() {
            refused.push(RefusedCommitPath { path: list[i].copy(), state });
            proof {
                assert(refused@ =~= list@.take(i + 1).filter(keep).map_values(shown));
            }
        }
        i += 1;
    }
    proof {
        lemma_take_all(list@);
    }
    refused
}

/// A copy of some paths.
pub fn copy_paths(list: &Vec<FilePath>) -> (copy: Vec<FilePath>)
    ensures
        copy@ == list@,
{
    let mut copy: Vec<FilePath> = Vec::new();
    let mut i: usize = 0;
    while i < list.len()
        invariant
            i <= list.len(),
            copy@ == list@.take(i as int),
        decreases list.len() - i,
    {
        copy.push(list[i].copy());
        proof {
            assert(copy@ =~= list@.take(i + 1));
        }
        i += 1;
    }
    proof {
        lemma_take_all(list@);
    }
    copy
}

/// Whether a commit that is not forced selects a path it has to be refused for.
pub open spec fn is_refused(
    force: bool,
    selection: Option<SelectedPaths>,
    classified: Seq<(FilePath, ClassifiedPath)>,
) -> bool {
    !force && exists|p: Components|
        is_selected(force, selection, classified, p) && #[trigger] blocking(
            named_state(classified, p),
        )
}

/// What a commit decides to record, or why it is refused. `in_home` and
/// `on_scope` are the scope graph's file as home and the target scope hold it.
pub open spec fn decides(
    options: CommitOptions,
    selection: Option<SelectedPaths>,
    classified: Seq<(FilePath, ClassifiedPath)>,
    target: Seq<FilePath>,
    in_home: Option<Seq<u8>>,
    on_scope: Option<Seq<u8>>,
    decision: Result<Selection, DotsyncError>,
) -> bool {
    let graph_path = components(DOTSYNC_CONFIG_RELATIVE_PATH@);
    let moved = options.scope@ != ALL_SCOPE@ && is_selected(
        options.force,
        selection,
        classified,
        graph_path,
    ) && in_home != on_scope;
    match decision {
        Ok(chosen) => {
            &&& !moved
            &&& !is_refused(options.force, selection, classified)
            &&& is_selection(options.force, selection, classified, chosen.paths@)
            &&& chosen.newly_tracked@ == chosen.paths@.filter(
                |p: FilePath| !all_paths(target).contains(p@),
            )
            &&& chosen.skipped@ == all_skipped(options.force, selection, classified)
            &&& chosen.forced_paths@ == if options.force {
                chosen.paths@
            } else {
                Seq::empty()
            }
            &&& chosen.forced_overwrites@ == if options.force {
                chosen.paths@.filter(
                    |p: FilePath| decided_by_force(named_state(classified, p@)),
                )
            } else {
                Seq::empty()
            }
        },
        Err(DotsyncError::UnusableCommitPaths { scope, rejected }) => {
            &&& moved
            &&& scope@ == options.scope@
            &&& rejected_views(rejected@) == seq![
                RejectedView {
                    path: DOTSYNC_CONFIG_RELATIVE_PATH@,
                    problem: ProblemView::ScopeGraphOutsideAllScope,
                },
            ]
        },
        Err(DotsyncError::StaleCommitPaths { scope, refused }) => {
            &&& !moved
            &&& is_refused(options.force, selection, classified)
            &&& scope@ == options.scope@
            &&& exists|selected: Seq<FilePath>|
                is_selection(options.force, selection, classified, selected) && refused@
                    == #[trigger] refusals(selected, classified)
        },
        Err(_) => false,
    }
}

/// Decides which paths a commit records and whether it is allowed to.
///
/// Whether a home file holds a change of this machine's own is a question about
/// this machine, not about the scope the change is headed for, so it is the
/// classification that `status` reports.
pub fn select_changes_to_record(
    options: &CommitOptions,
    selection: &Option<SelectedPaths>,
    classified: &Vec<(FilePath, ClassifiedPath)>,
    target: &Vec<FilePath>,
    graph_in_home: &Option<Vec<u8>>,
    graph_on_scope: &Option<Vec<u8>>,
) -> (decision: Result<Selection, DotsyncError>)
    requires
        selection matches Some(selection) ==> selection.wf(),
        sorted_paths(keys(classified@)),
    ensures
        decides(
            *options,
            *selection,
            classified@,
            target@,
            opt_bytes(*graph_in_home),
            opt_bytes(*graph_on_scope),
            decision,
        ),
{
    let (selected, skipped) = selected_changes(options.force, selection, classified);
    match reject_scope_graph_outside_all(
        options.scope.as_str(),
        &selected,
        graph_in_home,
        graph_on_scope,
    ) {
        Some(error) => {
            proof {
                assert(all_paths(selected@).contains(components(DOTSYNC_CONFIG_RELATIVE_PATH@)));
            }
            return Err(error);
        },
        None => {},
    }
    proof {
        let graph_path = components(DOTSYNC_CONFIG_RELATIVE_PATH@);
        assert(all_paths(selected@).contains(graph_path) <==> is_selected(
            options.force,
            *selection,
            classified@,
            graph_path,
        ));
    }
    let newly_tracked = not_among(&selected, target);
    if !options.force {
        let refused = refused_paths(&selected, classified);
        proof {
            lemma_refusals(selected@, classified@);
            if refused.len() > 0 {
                let k = choose|k: int|
                    0 <= k < selected.len() && blocking(
                        named_state(classified@, (#[trigger] selected@[k])@),
                    );
                let p = selected@[k]@;
                assert(all_paths(selected@)[k] == p);
                assert(all_paths(selected@).contains(p));
                assert(is_selected(options.force, *selection, classified@, p));
                assert(blocking(named_state(classified@, p)));
            } else {
                assert forall|p: Components|
                    is_selected(options.force, *selection, classified@, p) implies !#[trigger] blocking(
                    named_state(classified@, p),
                ) by {
                    assert(all_paths(selected@).contains(p));
                    let k = choose|k: int|
                        0 <= k < selected.len() && all_paths(selected@)[k] == p;
                    assert(selected@[k]@ == p);
                }
            }
        }
        if !refused.is_empty() {
            return Err(DotsyncError::StaleCommitPaths { scope: options.scope.clone(), refused });
        }
        let forced_paths: Vec<FilePath> = Vec::new();
        let forced_overwrites: Vec<FilePath> = Vec::new();
        proof {
            assert(forced_paths@ =~= Seq::<FilePath>::empty());
            assert(forced_overwrites@ =~= Seq::<FilePath>::empty());
        }
        return Ok(
            Selection { paths: selected, newly_tracked, skipped, forced_paths, forced_overwrites },
        );
    }
    let forced_overwrites = decided(&selected, classified);
    let forced_paths = copy_paths(&selected);
    Ok(Selection { paths: selected, newly_tracked, skipped, forced_paths, forced_overwrites })
}

proof fn lemma_refusals(selected: Seq<FilePath>, classified: Seq<(FilePath, ClassifiedPath)>)
    ensures
        refusals(selected, classified).len() > 0 <==> exists|k: int|
            0 <= k < selected.len() && blocking(
                named_state(classified, (#[trigger] selected[k])@),
            ),
{
    let keep = |p: FilePath| blocking(named_state(classified, p@));
    lemma_filter_holds(selected, keep);
    let kept = selected.filter(keep);
    if kept.len() > 0 {
        assert(kept.contains(kept[0]));
        let k = choose|k: int| 0 <= k < selected.len() && selected[k] == kept[0];
        assert(keep(selected[k]));
    }
    if exists|k: int| 0 <= k < selected.len() && keep(#[trigger] selected[k]) {
        let k = choose|k: int| 0 <= k < selected.len() && keep(#[trigger] selected[k]);
        assert(kept.contains(selected[k]));
    }
}

/// A commit that is not forced never records a path whose recording would
/// overwrite someone else's change, so a machine that is merely behind cannot
/// revert another machine's work.
pub proof fn law_unforced_commit_overwrites_nothing(
    selection: Option<SelectedPaths>,
    classified: Seq<(FilePath, ClassifiedPath)>,
    path: Components,
)
    requires
        !is_refused(false, selection, classified),
        is_selected(false, selection, classified, path),
    ensures
        !blocking(named_state(classified, path)),
{
}

/// A forced commit reaches no file that it did not name, but for a bare one,
/// which names every change of this machine's own.
pub proof fn law_force_reaches_only_what_is_named(
    selection: SelectedPaths,
    classified: Seq<(FilePath, ClassifiedPath)>,
    path: Components,
)
    ensures
        is_selected(true, Some(selection), classified, path) <==> all_paths(
            selection.named@,
        ).contains(path) || all_paths(selection.under_directory@).contains(path),
        is_selected(true, None, classified, path) ==> drifted(named_state(classified, path)),
{
}

/// A bare commit selects exactly what `status` reports as changes.
pub proof fn law_bare_commit_agrees_with_status(
    force: bool,
    classified: Seq<(FilePath, ClassifiedPath)>,
    path: Components,
)
    requires
        keys(classified).contains(path),
    ensures
        is_selected(force, None, classified, path) <==> crate::drift::in_group(
            crate::drift::StateGroup::Drift,
            named_state(classified, path),
        ),
{
}

/// Nothing that a commit named goes silently: every path its selection matched
/// is recorded, or reported as left alone with where it stands. A path named
/// exactly is never left alone.
pub proof fn law_nothing_named_is_dropped_in_silence(
    force: bool,
    selection: SelectedPaths,
    classified: Seq<(FilePath, ClassifiedPath)>,
    path: Components,
)
    requires
        all_paths(selection.named@).contains(path) || all_paths(
            selection.under_directory@,
        ).contains(path),
    ensures
        is_selected(force, Some(selection), classified, path) || exists|left: SkippedCommitPath|
            #[trigger] all_skipped(force, Some(selection), classified).contains(left)
                && left.path@ == path && left.reason == SkipReason::NotChangedHere(
                named_state(classified, path),
            ),
        all_paths(selection.named@).contains(path) ==> is_selected(
            force,
            Some(selection),
            classified,
            path,
        ),
{
    if !is_selected(force, Some(selection), classified, path) {
        let listed = selection.under_directory@;
        let keep = |p: FilePath| steps_around(force, classified, p@);
        let at = choose|at: int| 0 <= at < listed.len() && all_paths(listed)[at] == path;
        lemma_filter_holds(listed, keep);
        let left = listed.filter(keep);
        assert(listed.contains(listed[at]) && keep(listed[at]));
        assert(left.contains(listed[at]));
        let k = choose|k: int| 0 <= k < left.len() && left[k] == listed[at];
        let reported = all_skipped(force, Some(selection), classified);
        let walked = selection.skipped@;
        assert(reported[walked.len() + k] == stepped_around(force, selection, classified)[k]);
        assert(reported.contains(left_alone(listed[at], classified)));
    }
}

/// The problems of some rejected paths.
pub open spec fn problems(rejected: Seq<RejectedView>) -> Seq<ProblemView> {
    rejected.map_values(|r: RejectedView| r.problem)
}

/// Whether two lists name the same paths, each typed in its own way.
pub open spec fn all_typed_alike(one: Seq<FilePath>, other: Seq<FilePath>) -> bool {
    &&& one.len() == other.len()
    &&& forall|k: int|
        0 <= k < one.len() ==> typed_alike((#[trigger] one[k]).text@, other[k].text@)
}

/// `./x` and `x/` select what `x` does, and are refused for what it is refused
/// for.
pub proof fn law_a_selection_does_not_hang_on_how_it_is_typed(
    paths: DotsyncPaths,
    one: Seq<FilePath>,
    other: Seq<FilePath>,
    probes: Seq<NamedProbe>,
    target: Seq<FilePath>,
    selected: SelectedPaths,
)
    requires
        all_typed_alike(one, other),
    ensures
        is_expansion(one, probes, target, selected) == is_expansion(
            other,
            probes,
            target,
            selected,
        ),
        problems(bad_paths(paths, one, probes, all_paths(target), one.len())) == problems(
            bad_paths(paths, other, probes, all_paths(target), other.len()),
        ),
{
    let on_scope = all_paths(target);
    let count = one.len();
    assert forall|k: int| 0 <= k < count implies normal((#[trigger] one[k])@) == normal(
        other[k]@,
    ) by {
        law_typed_alike_is_one_path(one[k].text@, other[k].text@);
    }
    lemma_typed_alike(paths, one, other, probes, target, count);
    assert forall|p: Components|
        named_exactly(one, probes, on_scope, count, p) == #[trigger] named_exactly(
            other,
            probes,
            on_scope,
            count,
            p,
        ) && named_by_directory(one, probes, on_scope, count, p) == named_by_directory(
            other,
            probes,
            on_scope,
            count,
            p,
        ) && spelled_under(one, probes, target, count, p) == spelled_under(
            other,
            probes,
            target,
            count,
            p,
        ) by {
        lemma_typed_alike_at(one, other, probes, target, count, p);
    }
    lemma_same_expansion(one, other, probes, target, selected);
    lemma_same_expansion(other, one, probes, target, selected);
}

proof fn lemma_same_expansion(
    one: Seq<FilePath>,
    other: Seq<FilePath>,
    probes: Seq<NamedProbe>,
    target: Seq<FilePath>,
    selected: SelectedPaths,
)
    requires
        one.len() == other.len(),
        walk_skips(one, probes, all_paths(target), one.len()) == walk_skips(
            other,
            probes,
            all_paths(target),
            one.len(),
        ),
        forall|p: Components|
            named_exactly(one, probes, all_paths(target), one.len(), p)
                == #[trigger] named_exactly(other, probes, all_paths(target), one.len(), p)
                && named_by_directory(one, probes, all_paths(target), one.len(), p)
                == named_by_directory(other, probes, all_paths(target), one.len(), p)
                && spelled_under(one, probes, target, one.len(), p) == spelled_under(
                other,
                probes,
                target,
                one.len(),
                p,
            ),
    ensures
        is_expansion(one, probes, target, selected) ==> is_expansion(
            other,
            probes,
            target,
            selected,
        ),
{
    if is_expansion(one, probes, target, selected) {
        let on_scope = all_paths(target);
        let count = one.len();
        assert forall|p: Components|
            (#[trigger] all_paths(selected.named@).contains(p) <==> named_exactly(
                other,
                probes,
                on_scope,
                count,
                p,
            )) by {
            assert(named_exactly(other, probes, on_scope, count, p) == named_exactly(
                one,
                probes,
                on_scope,
                count,
                p,
            ));
        }
        assert forall|p: Components|
            (#[trigger] all_paths(selected.under_directory@).contains(p) <==> named_by_directory(
                other,
                probes,
                on_scope,
                count,
                p,
            ) && !all_paths(selected.named@).contains(p)) by {
            assert(named_exactly(other, probes, on_scope, count, p) == named_exactly(
                one,
                probes,
                on_scope,
                count,
                p,
            ));
        }
        assert forall|p: Components| #[trigger]
            spelled(selected.under_directory@, p) == if all_paths(selected.named@).contains(p) {
                None
            } else {
                spelled_under(other, probes, target, count, p)
            } by {
            assert(named_exactly(other, probes, on_scope, count, p) == named_exactly(
                one,
                probes,
                on_scope,
                count,
                p,
            ));
        }
    }
}

proof fn lemma_typed_alike_at(
    one: Seq<FilePath>,
    other: Seq<FilePath>,
    probes: Seq<NamedProbe>,
    target: Seq<FilePath>,
    count: nat,
    found: Components,
)
    requires
        count <= one.len() == other.len(),
        forall|k: int| 0 <= k < one.len() ==> normal((#[trigger] one[k])@) == normal(other[k]@),
    ensures
        named_exactly(one, probes, all_paths(target), count, found) == named_exactly(
            other,
            probes,
            all_paths(target),
            count,
            found,
        ),
        named_by_directory(one, probes, all_paths(target), count, found) == named_by_directory(
            other,
            probes,
            all_paths(target),
            count,
            found,
        ),
        spelled_under(one, probes, target, count, found) == spelled_under(
            other,
            probes,
            target,
            count,
            found,
        ),
    decreases count,
{
    let on_scope = all_paths(target);
    if named_exactly(one, probes, on_scope, count, found) {
        let k = choose|k: int|
            0 <= k < count && !names_directory(
                probes[k].is_dir,
                on_scope,
                normal((#[trigger] one[k])@),
            ) && resolves_to(probes[k], on_scope, normal(one[k]@), found);
        assert(normal(one[k]@) == normal(other[k]@));
    }
    if named_exactly(other, probes, on_scope, count, found) {
        let k = choose|k: int|
            0 <= k < count && !names_directory(
                probes[k].is_dir,
                on_scope,
                normal((#[trigger] other[k])@),
            ) && resolves_to(probes[k], on_scope, normal(other[k]@), found);
        assert(normal(one[k]@) == normal(other[k]@));
    }
    if named_by_directory(one, probes, on_scope, count, found) {
        let k = choose|k: int|
            0 <= k < count && names_directory(
                probes[k].is_dir,
                on_scope,
                normal((#[trigger] one[k])@),
            ) && resolves_to(probes[k], on_scope, normal(one[k]@), found);
        assert(normal(one[k]@) == normal(other[k]@));
    }
    if named_by_directory(other, probes, on_scope, count, found) {
        let k = choose|k: int|
            0 <= k < count && names_directory(
                probes[k].is_dir,
                on_scope,
                normal((#[trigger] other[k])@),
            ) && resolves_to(probes[k], on_scope, normal(other[k]@), found);
        assert(normal(one[k]@) == normal(other[k]@));
    }
    if count > 0 {
        lemma_typed_alike_at(one, other, probes, target, (count - 1) as nat, found);
        assert(normal(one[count - 1]@) == normal(other[count - 1]@));
    }
}

proof fn lemma_typed_alike(
    paths: DotsyncPaths,
    one: Seq<FilePath>,
    other: Seq<FilePath>,
    probes: Seq<NamedProbe>,
    target: Seq<FilePath>,
    count: nat,
)
    requires
        count <= one.len() == other.len(),
        forall|k: int| 0 <= k < one.len() ==> normal((#[trigger] one[k])@) == normal(other[k]@),
    ensures
        walk_skips(one, probes, all_paths(target), count) == walk_skips(
            other,
            probes,
            all_paths(target),
            count,
        ),
        problems(bad_paths(paths, one, probes, all_paths(target), count)) == problems(
            bad_paths(paths, other, probes, all_paths(target), count),
        ),
    decreases count,
{
    let on_scope = all_paths(target);
    if count > 0 {
        let k = count - 1;
        lemma_typed_alike(paths, one, other, probes, target, k as nat);
        assert(normal(one[k]@) == normal(other[k]@));
        let before = bad_paths(paths, one, probes, on_scope, k as nat);
        let beside = bad_paths(paths, other, probes, on_scope, k as nat);
        assert(path_problem(paths, one[k], probes[k], on_scope) == path_problem(
            paths,
            other[k],
            probes[k],
            on_scope,
        ));
        if let Some(problem) = path_problem(paths, one[k], probes[k], on_scope) {
            let typed = RejectedView { path: one[k].text@, problem };
            let retyped = RejectedView { path: other[k].text@, problem };
            assert(problems(before.push(typed)) =~= problems(before).push(problem));
            assert(problems(beside.push(retyped)) =~= problems(beside).push(problem));
        }
    } else {
        assert(bad_paths(paths, one, probes, on_scope, 0) =~= bad_paths(
            paths,
            other,
            probes,
            on_scope,
            0,
        ));
    }
}

/// Whether the repo takes every path of a list as it is spelled.
pub open spec fn all_repo_paths(list: Seq<FilePath>) -> bool {
    forall|i: int| 0 <= i < list.len() ==> is_repo_path((#[trigger] list[i]).text@)
}

/// A usable path that a commit names is recorded under a name that the repo
/// takes, however it was typed.
pub proof fn law_a_named_path_is_a_repo_path(paths: DotsyncPaths, typed: FilePath)
    requires
        unusable(paths, normal(typed@)) is None,
    ensures
        is_repo_path(path_text(normal(typed@))),
{
    let parts = normal(typed@);
    law_usable_paths_stay_in_home(paths, typed.text@);
    lemma_components_are_path(typed.text@);
    lemma_normal_is_path(typed@);
    reveal_strlit("/");
    assert forall|k: int| 0 <= k < parts.len() implies is_component(#[trigger] parts[k])
        && !parts[k].contains('/') by {}
    lemma_components_make_a_repo_path(parts);
}

/// The repo takes every path that named paths resolve to, as it is spelled,
/// where it takes those that the walks found and those on the target scope.
pub proof fn law_expanded_paths_are_repo_paths(
    paths: DotsyncPaths,
    named: Seq<FilePath>,
    probes: Seq<NamedProbe>,
    target: Seq<FilePath>,
    selected: SelectedPaths,
)
    requires
        named.len() == probes.len(),
        bad_paths(paths, named, probes, all_paths(target), named.len()).len() == 0,
        is_expansion(named, probes, target, selected),
        all_repo_paths(target),
        forall|k: int|
            0 <= k < probes.len() ==> ((#[trigger] probes[k]).walked matches Some(walked)
                ==> all_repo_paths(walked.matched@)),
    ensures
        all_repo_paths(selected.named@),
        all_repo_paths(selected.under_directory@),
{
    assert forall|i: int| 0 <= i < selected.named@.len() implies is_repo_path(
        (#[trigger] selected.named@[i]).text@,
    ) by {
        let p = selected.named@[i]@;
        assert(all_paths(selected.named@)[i] == p);
        assert(all_paths(selected.named@).contains(p));
        let k = choose|k: int|
            0 <= k < named.len() && !names_directory(
                probes[k].is_dir,
                all_paths(target),
                normal((#[trigger] named[k])@),
            ) && resolves_to(probes[k], all_paths(target), normal(named[k]@), p);
        lemma_no_bad_path(paths, named, probes, all_paths(target), named.len(), k);
        law_a_named_path_is_a_repo_path(paths, named[k]);
    }
    assert forall|i: int| 0 <= i < selected.under_directory@.len() implies is_repo_path(
        (#[trigger] selected.under_directory@[i]).text@,
    ) by {
        let item = selected.under_directory@[i];
        lemma_sorted_spelled(selected.under_directory@, i);
        assert(spelled(selected.under_directory@, item@) == Some(item));
        lemma_spelled_under(named, probes, target, named.len(), item@);
    }
}

proof fn lemma_no_bad_path(
    paths: DotsyncPaths,
    named: Seq<FilePath>,
    probes: Seq<NamedProbe>,
    target: Seq<Components>,
    count: nat,
    k: int,
)
    requires
        count <= named.len(),
        0 <= k < count,
        bad_paths(paths, named, probes, target, count).len() == 0,
    ensures
        unusable(paths, normal(named[k]@)) is None,
    decreases count,
{
    if k < count - 1 {
        lemma_no_bad_path(paths, named, probes, target, (count - 1) as nat, k);
    }
}

proof fn lemma_spelled_under(
    named: Seq<FilePath>,
    probes: Seq<NamedProbe>,
    target: Seq<FilePath>,
    count: nat,
    path: Components,
)
    requires
        count <= probes.len(),
        all_repo_paths(target),
        forall|k: int|
            0 <= k < probes.len() ==> ((#[trigger] probes[k]).walked matches Some(walked)
                ==> all_repo_paths(walked.matched@)),
    ensures
        spelled_under(named, probes, target, count, path) matches Some(item) ==> is_repo_path(
            item.text@,
        ),
    decreases count,
{
    if count > 0 {
        let k = count - 1;
        lemma_spelled_under(named, probes, target, k as nat, path);
        lemma_from(target, path);
        assert(probes[k].walked matches Some(walked) ==> all_repo_paths(walked.matched@));
        if let Some(walked) = probes[k].walked {
            lemma_from(walked.matched@, path);
        }
    }
}

/// The repo takes every path that a commit selects, as it is spelled, where it
/// takes those it is selected from.
pub proof fn law_selected_paths_are_repo_paths(
    force: bool,
    selection: Option<SelectedPaths>,
    classified: Seq<(FilePath, ClassifiedPath)>,
    list: Seq<FilePath>,
)
    requires
        is_selection(force, selection, classified, list),
        match selection {
            None => all_repo_paths(entry_names(classified)),
            Some(selection) => all_repo_paths(selection.named@) && all_repo_paths(
                selection.under_directory@,
            ),
        },
    ensures
        all_repo_paths(list),
{
    assert forall|i: int| 0 <= i < list.len() implies is_repo_path((#[trigger] list[i]).text@) by {
        let item = list[i];
        lemma_sorted_spelled(list, i);
        assert(spelled(list, item@) == selected_spelling(force, selection, classified, item@));
        match selection {
            None => {
                lemma_from(entry_names(classified), item@);
            },
            Some(selection) => {
                lemma_from(selection.named@, item@);
                lemma_from(selection.under_directory@, item@);
            },
        }
    }
}

proof fn lemma_from(list: Seq<FilePath>, path: Components)
    requires
        all_repo_paths(list),
    ensures
        spelled(list, path) matches Some(item) ==> is_repo_path(item.text@),
{
    lemma_spelled(list, path);
    if spelled(list, path) is Some {
        let m = choose|m: int| 0 <= m < list.len() && list[m] == spelled(list, path)->0;
        assert(is_repo_path(list[m].text@));
    }
}

/// The scope graph may be recorded on the root, and elsewhere only a copy of it that
/// changes nothing.
pub proof fn law_the_scope_graph_is_recorded_where_it_is_read(
    scope: Text,
    selected: Seq<Components>,
    in_home: Option<Seq<u8>>,
    on_scope: Option<Seq<u8>>,
)
    ensures
        scope == "all"@ ==> !moves_scope_graph(scope, selected, in_home, on_scope),
        in_home == on_scope ==> !moves_scope_graph(scope, selected, in_home, on_scope),
        scope != "all"@ && in_home != on_scope ==> (moves_scope_graph(
            scope,
            selected,
            in_home,
            on_scope,
        ) <==> exists|i: int|
            0 <= i < selected.len() && #[trigger] selected[i] == components(
                ".config/dotsync/config.toml"@,
            )),
{
}

} // verus!
