//! The walk through a directory that a commit named. The caller reads the
//! directories; the walk decides what each entry means.
use vstd::prelude::*;
use crate::error::{SkipReason, SkippedCommitPath};
use crate::paths::{
    all_paths, components, insert_path, is_component, joined_path, lemma_components_are_path,
    lemma_sorted_spelled, lemma_spelled, path_text, plainly_spelled, sorted_paths, spelled, Components, FilePath,
};
use crate::repo::{is_repo_path, lemma_components_make_a_repo_path};
use crate::selection::Walked;

verus! {

/// What an entry of a directory is, links not followed.
#[derive(Debug, Clone, Copy, PartialEq, Eq, Structural)]
pub enum EntryKind {
    Directory,
    File,
    Symlink,
    /// A socket, a device, a fifo.
    Other,
}

/// One entry of a directory.
pub struct WalkEntry {
    /// The directory as the file system has it, links followed.
    pub resolved_dir: FilePath,
    pub file_name: FilePath,
    /// The entry as the file system has it, where it leads to something.
    pub resolved: Option<FilePath>,
    pub kind: EntryKind,
}

/// What to do about an entry.
pub enum WalkStep {
    /// Read the directory that it is.
    Descend,
    /// Nothing more.
    Continue,
}

/// A directory as the file system has it, links followed once.
pub struct Canonical {
    pub path: FilePath,
}

impl Canonical {
    /// Whether a path that was resolved is in this directory.
    pub fn contains(&self, resolved: &Option<FilePath>) -> (inside: bool)
        ensures
            inside == lies_in(*resolved, self.path@),
    {
        match resolved {
            Some(path) => path.starts_with(&self.path),
            None => false,
        }
    }
}

/// Whether a path that was resolved is in a directory.
pub open spec fn lies_in(resolved: Option<FilePath>, directory: Components) -> bool {
    match resolved {
        Some(path) => directory.is_prefix_of(path@),
        None => false,
    }
}

/// The path of an entry as seen from home, if it is in home.
pub open spec fn from_home(home: Components, entry: WalkEntry) -> Option<Components> {
    let whole = components(joined_path(entry.resolved_dir.text@, entry.file_name.text@));
    if home.is_prefix_of(whole) {
        Some(whole.skip(home.len() as int))
    } else {
        None
    }
}

/// What an entry means.
pub enum Meaning {
    Descend,
    /// Never committable by any spelling, or out of home.
    Leave,
    /// No file content to record.
    Skip(Components),
    Record(Components),
}

/// What an entry means. Links are entries, never paths to follow, and nothing
/// that resolves into dotsync's own repo is touched.
pub open spec fn meaning(home: Components, repo: Components, entry: WalkEntry) -> Meaning {
    if lies_in(entry.resolved, repo) {
        Meaning::Leave
    } else if entry.kind == EntryKind::Directory {
        Meaning::Descend
    } else {
        match from_home(home, entry) {
            None => Meaning::Leave,
            Some(path) => if entry.kind == EntryKind::Other {
                Meaning::Skip(path)
            } else {
                Meaning::Record(path)
            },
        }
    }
}

/// A walk, and what it has found so far.
pub struct DirectoryWalk {
    pub home_root: Canonical,
    pub repo_root: Canonical,
    pub matched: Vec<FilePath>,
    pub skipped: Vec<SkippedCommitPath>,
}

impl DirectoryWalk {
    /// What was found is in order, and spelled as its components are.
    pub open spec fn wf(self) -> bool {
        sorted_paths(all_paths(self.matched@)) && plainly_spelled(self.matched@)
    }

    /// A walk that has found nothing yet.
    pub fn start(home_root: Canonical, repo_root: Canonical) -> (walk: DirectoryWalk)
        ensures
            walk.wf(),
            walk.home_root == home_root,
            walk.repo_root == repo_root,
            walk.matched@.len() == 0,
            walk.skipped@.len() == 0,
    {
        DirectoryWalk { home_root, repo_root, matched: Vec::new(), skipped: Vec::new() }
    }

    /// Takes note of one entry, and says whether to go into it.
    pub fn visit(&mut self, entry: &WalkEntry) -> (step: WalkStep)
        requires
            old(self).wf(),
        ensures
            final(self).wf(),
            final(self).home_root == old(self).home_root,
            final(self).repo_root == old(self).repo_root,
            ({
                let found = meaning(
                    old(self).home_root.path@,
                    old(self).repo_root.path@,
                    *entry,
                );
                &&& step is Descend <==> found is Descend
                &&& forall|p: Components| #[trigger]
                    all_paths(final(self).matched@).contains(p) <==> all_paths(
                        old(self).matched@,
                    ).contains(p) || found == Meaning::Record(p)
                &&& match found {
                    Meaning::Skip(path) => {
                        &&& final(self).skipped@.len() == old(self).skipped@.len() + 1
                        &&& final(self).skipped@.drop_last() == old(self).skipped@
                        &&& final(self).skipped@.last().path@ == path
                        &&& final(self).skipped@.last().path.text@ == path_text(path)
                        &&& final(self).skipped@.last().reason == SkipReason::NotARegularFile
                    },
                    _ => final(self).skipped@ == old(self).skipped@,
                }
            }),
    {
        if self.repo_root.contains(&entry.resolved) {
            return WalkStep::Continue;
        }
        if matches!(entry.kind, EntryKind::Directory) {
            return WalkStep::Descend;
        }
        let whole = entry.resolved_dir.join(&entry.file_name);
        match whole.strip_prefix(&self.home_root.path) {
            None => {},
            Some(relative) => {
                proof {
                    assert(whole@.skip(self.home_root.path@.len() as int) =~= relative@);
                }
                if matches!(entry.kind, EntryKind::Other) {
                    self.skipped.push(
                        SkippedCommitPath { path: relative, reason: SkipReason::NotARegularFile },
                    );
                    proof {
                        assert(self.skipped@.drop_last() =~= old(self).skipped@);
                    }
                } else {
                    insert_path(&mut self.matched, relative);
                    proof {
                        assert forall|i: int| 0 <= i < self.matched@.len() implies (
                        #[trigger] self.matched@[i]).text@ == path_text(self.matched@[i]@) by {
                            let item = self.matched@[i];
                            let before = old(self).matched@;
                            lemma_sorted_spelled(self.matched@, i);
                            lemma_spelled(before, item@);
                            assert(spelled(self.matched@, item@) is Some);
                            if spelled(before, item@) is Some {
                                let k = choose|k: int| 0 <= k < before.len() && before[k] == item;
                                assert(before[k].text@ == path_text(before[k]@));
                            }
                        }
                    }
                }
            },
        }
        WalkStep::Continue
    }

    /// What the walk found.
    pub fn finish(self) -> (walked: Walked)
        ensures
            walked.matched@ == self.matched@,
            walked.skipped@ == self.skipped@,
    {
        Walked { matched: self.matched, skipped: self.skipped }
    }
}

/// No route into a walk reaches dotsync's own repo, or a file out of home.
pub proof fn law_walk_stays_out_of_the_repo(home: Components, repo: Components, entry: WalkEntry)
    requires
        meaning(home, repo, entry) is Record || meaning(home, repo, entry) is Skip || meaning(
            home,
            repo,
            entry,
        ) is Descend,
    ensures
        !lies_in(entry.resolved, repo),
        !(meaning(home, repo, entry) is Descend) ==> home.is_prefix_of(
            components(joined_path(entry.resolved_dir.text@, entry.file_name.text@)),
        ),
        meaning(home, repo, entry) is Descend ==> entry.kind == EntryKind::Directory,
{
}

/// The repo takes every file that a walk records, as it is spelled.
pub proof fn law_walked_paths_are_repo_paths(home: Components, repo: Components, entry: WalkEntry)
    requires
        home.len() > 0,
        meaning(home, repo, entry) is Record,
    ensures
        is_repo_path(path_text(meaning(home, repo, entry)->Record_0)),
{
    let text = joined_path(entry.resolved_dir.text@, entry.file_name.text@);
    let parts = meaning(home, repo, entry)->Record_0;
    lemma_components_are_path(text);
    assert forall|k: int| 0 <= k < parts.len() implies is_component(#[trigger] parts[k])
        && !parts[k].contains('/') by {
        assert(parts[k] == components(text)[home.len() + k]);
    }
    lemma_components_make_a_repo_path(parts);
}

/// A walk takes every file and every link of home, under the path that leads to it
/// from home, and goes into every directory; it reports what has no content to
/// record; and it leaves alone only what lies in dotsync's own repo or out of
/// home.
pub proof fn law_a_walk_takes_everything_in_home(
    home: Components,
    repo: Components,
    entry: WalkEntry,
    path: Components,
)
    requires
        components(joined_path(entry.resolved_dir.text@, entry.file_name.text@)) == home + path,
    ensures
        ({
            let inside = entry.resolved matches Some(at) && repo.is_prefix_of(at@);
            &&& !inside && (entry.kind == EntryKind::File || entry.kind == EntryKind::Symlink)
                ==> meaning(home, repo, entry) == Meaning::Record(path)
            &&& !inside && entry.kind == EntryKind::Directory ==> meaning(home, repo, entry)
                == Meaning::Descend
            &&& !inside && entry.kind == EntryKind::Other ==> meaning(home, repo, entry)
                == Meaning::Skip(path)
            &&& inside ==> meaning(home, repo, entry) == Meaning::Leave
        }),
{
    assert((home + path).take(home.len() as int) =~= home);
    assert(home.is_prefix_of(home + path));
    assert((home + path).skip(home.len() as int) =~= path);
}

} // verus!
