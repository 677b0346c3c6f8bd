//! Reading home into a tree and writing a tree into home: what is read, what is
//! written, and what is refused. The caller does the reading and the writing.
use vstd::prelude::*;
use vstd::string::*;
use crate::drift::{opt_value, Entries, TreeValue};
use crate::paths::{
    all_paths, contains_path, entry_names, find, joined_path, keys, lemma_sorted_value,
    lemma_value_at, sorted_paths, value_at, Components, FilePath,
};
use crate::seqs::{lemma_take_all, lemma_take_holds};
use crate::text::{cat2, cat4, contains_text, lemma_texts_push, texts, Text};
use crate::walk::EntryKind;

verus! {

pub const WORKING_COPY_TYPE: &'static str = "dotsync-home";

pub const LOCK_FILE: &'static str = "working_copy.lock";

/// The path on disk of each step down to a repo path.
pub open spec fn disk_steps(home: Text, parts: Seq<Text>) -> Seq<Text>
    decreases parts.len(),
{
    if parts.len() == 0 {
        Seq::empty()
    } else {
        let before = disk_steps(home, parts.drop_last());
        let base = if before.len() == 0 {
            home
        } else {
            before.last()
        };
        before.push(joined_path(base, parts.last()))
    }
}

/// The path on disk of each step down to a repo path, the path itself last.
pub fn steps_down(home: &FilePath, parts: &Vec<String>) -> (steps: Vec<FilePath>)
    ensures
        crate::error::path_texts(steps@) == disk_steps(home.text@, texts(parts@)),
{
    let ghost all = texts(parts@);
    let mut steps: Vec<FilePath> = Vec::new();
    let mut i: usize = 0;
    proof {
        lemma_take_all(all);
        assert(crate::error::path_texts(steps@) =~= disk_steps(home.text@, all.take(0)));
    }
    while i < parts.len()
        invariant
            i <= parts.len(),
            all == texts(parts@),
            steps.len() == i,
            crate::error::path_texts(steps@) == disk_steps(home.text@, all.take(i as int)),
        decreases parts.len() - i,
    {
        let part = FilePath { text: parts[i].clone() };
        let ghost before = steps@;
        proof {
            assert(all.take(i + 1).drop_last() =~= all.take(i as int));
            assert(all.take(i + 1).last() == part.text@);
            assert(crate::error::path_texts(before).len() == before.len());
            if i > 0 {
                assert(crate::error::path_texts(before).last() == before.last().text@);
            }
        }
        let next = if i == 0 {
            home.join(&part)
        } else {
            steps[i - 1].join(&part)
        };
        steps.push(next);
        proof {
            assert(crate::error::path_texts(steps@) =~= crate::error::path_texts(before).push(
                next.text@,
            ));
        }
        i += 1;
    }
    proof {
        lemma_take_all(all);
    }
    steps
}

/// Where the first step stands, other than the last, that is a link; one less
/// than the number of steps if none is.
pub open spec fn first_link(links: Seq<bool>, at: int) -> int
    decreases links.len() - at,
{
    if at >= links.len() - 1 || links[at] {
        at
    } else {
        first_link(links, at + 1)
    }
}

/// What is wrong with a managed path on disk, if anything is: it passes through
/// a link, or it is in dotsync's own repo.
pub open spec fn disk_problem(
    path: Text,
    steps: Seq<FilePath>,
    links: Seq<bool>,
    repo_root: Components,
) -> Option<Text> {
    let at = first_link(links, 0);
    if at < links.len() - 1 {
        Some(
            path + " traverses a symlink at "@ + steps[at].text@
                + ": dotsync never follows links"@,
        )
    } else if repo_root.is_prefix_of(steps.last()@) {
        Some(path + " is inside dotsync's own repository and cannot be managed"@)
    } else {
        None
    }
}

/// The place on disk of a managed path, without ever passing through a link and
/// never in dotsync's own repo. `links` says which of the steps down to it are
/// links.
pub fn home_disk_path(
    path: &str,
    steps: &Vec<FilePath>,
    links: &Vec<bool>,
    repo_root: &FilePath,
) -> (disk: Result<FilePath, String>)
    requires
        steps@.len() > 0,
        links@.len() == steps@.len(),
    ensures
        match disk {
            Ok(disk) => disk_problem(path@, steps@, links@, repo_root@) is None && disk
                == steps@.last(),
            Err(said) => disk_problem(path@, steps@, links@, repo_root@) == Some(said@),
        },
{
    let last: usize = steps.len() - 1;
    let mut i: usize = 0;
    while i < last && !links[i]
        invariant
            i <= last,
            last == steps@.len() - 1,
            links@.len() == steps@.len(),
            first_link(links@, 0) == first_link(links@, i as int),
        decreases last - i,
    {
        i += 1;
    }
    if i < last {
        return Err(
            cat4(
                path,
                " traverses a symlink at ",
                steps[i].text.as_str(),
                ": dotsync never follows links",
            ),
        );
    }
    if steps[last].starts_with(repo_root) {
        return Err(cat2(path, " is inside dotsync's own repository and cannot be managed"));
    }
    Ok(steps[last].copy())
}

/// No managed path is read or written in dotsync's own repo, nor through a
/// link.
pub proof fn law_managed_paths_are_contained(
    path: Text,
    steps: Seq<FilePath>,
    links: Seq<bool>,
    repo_root: Components,
)
    requires
        steps.len() > 0,
        links.len() == steps.len(),
        disk_problem(path, steps, links, repo_root) is None,
    ensures
        !repo_root.is_prefix_of(steps.last()@),
        forall|k: int| 0 <= k < links.len() - 1 ==> !#[trigger] links[k],
{
    lemma_no_link(links, 0);
}

proof fn lemma_no_link(links: Seq<bool>, at: int)
    requires
        0 <= at,
        first_link(links, at) >= links.len() - 1,
    ensures
        forall|k: int| at <= k < links.len() - 1 ==> !#[trigger] links[k],
    decreases links.len() - at,
{
    if at < links.len() - 1 && !links[at] {
        lemma_no_link(links, at + 1);
    }
}

/// The paths that a probe set has after some are added: each of those it did not
/// have, once, at the end.
pub open spec fn widened(probe: Seq<Text>, more: Seq<Text>) -> Seq<Text>
    decreases more.len(),
{
    if more.len() == 0 {
        probe
    } else {
        let before = widened(probe, more.drop_last());
        if before.contains(more.last()) {
            before
        } else {
            before.push(more.last())
        }
    }
}

/// Adds paths to the set that a snapshot reads, and says whether any of them
/// was new.
pub fn probe_also(probe: &mut Vec<String>, more: &Vec<String>) -> (grown: bool)
    ensures
        texts(final(probe)@) == widened(texts(old(probe)@), texts(more@)),
        grown == (texts(final(probe)@).len() > texts(old(probe)@).len()),
{
    let ghost start = texts(probe@);
    let ghost all = texts(more@);
    let mut grown = false;
    let mut i: usize = 0;
    proof {
        lemma_take_all(all);
    }
    while i < more.len()
        invariant
            i <= more.len(),
            all == texts(more@),
            texts(probe@) == widened(start, all.take(i as int)),
            texts(probe@).len() >= start.len(),
            grown == (texts(probe@).len() > start.len()),
        decreases more.len() - i,
    {
        proof {
            assert(all.take(i + 1).drop_last() =~= all.take(i as int));
            assert(all.take(i + 1).last() == more@[i as int]@);
        }
        if !contains_text(probe, more[i].as_str()) {
            let ghost before = probe@;
            probe.push(more[i].clone());
            proof {
                lemma_texts_push(before, probe@.last());
            }
            grown = true;
        }
        i += 1;
    }
    proof {
        lemma_take_all(all);
    }
    grown
}

/// Whether something in home has no content to read: a fifo, a socket, a
/// device.
pub fn is_irregular(kind: EntryKind) -> (irregular: bool)
    ensures
        irregular == (kind == EntryKind::Other),
{
    matches!(kind, EntryKind::Other)
}

/// What such a path is, in the words dotsync explains it with.
pub fn irregular_file_message(disk: &FilePath) -> (text: String)
    ensures
        text@ == disk.text@
            + " is not a regular file, so dotsync cannot record what it holds"@,
{
    cat2(
        disk.text.as_str(),
        " is not a regular file, so dotsync cannot record what it holds",
    )
}

/// How what is on disk at a managed path becomes a tree entry.
#[derive(Debug, Clone, Copy, PartialEq, Eq, Structural)]
pub enum DiskRead {
    /// There is no entry: nothing is there, or a directory, which is not one.
    Absent,
    /// Its target is its content.
    Link,
    File,
    /// Reading it could never return.
    Refused,
}

/// How what is on disk at a managed path becomes a tree entry.
pub fn disk_read(found: Option<EntryKind>) -> (read: DiskRead)
    ensures
        read == match found {
            None => DiskRead::Absent,
            Some(EntryKind::Symlink) => DiskRead::Link,
            Some(EntryKind::Directory) => DiskRead::Absent,
            Some(EntryKind::File) => DiskRead::File,
            Some(EntryKind::Other) => DiskRead::Refused,
        },
{
    match found {
        None => DiskRead::Absent,
        Some(kind) => match kind {
            EntryKind::Symlink => DiskRead::Link,
            EntryKind::Directory => DiskRead::Absent,
            EntryKind::File => DiskRead::File,
            EntryKind::Other => DiskRead::Refused,
        },
    }
}

/// Whether a file mode lets anyone execute the file.
pub fn file_is_executable(mode: u32) -> (executable: bool)
    ensures
        executable == (mode & 0o111u32 != 0),
{
    mode & 0o111u32 != 0
}

/// The mode a file is given.
pub fn file_mode(executable: bool) -> (mode: u32)
    ensures
        mode == if executable {
            0o755u32
        } else {
            0o644u32
        },
{
    if executable {
        0o755
    } else {
        0o644
    }
}

/// One path that a check-out changes, and what it is to hold.
pub struct CheckoutChange {
    pub path: FilePath,
    pub value: Option<TreeValue>,
}

/// Whether two trees hold the same at a path.
pub open spec fn holds_same(
    old_tree: Seq<(FilePath, TreeValue)>,
    new_tree: Seq<(FilePath, TreeValue)>,
    path: Components,
) -> bool {
    opt_value(value_at(old_tree, path)) == opt_value(value_at(new_tree, path))
}

/// Whether a check-out changes a path.
pub open spec fn is_changed(changes: Seq<CheckoutChange>, path: Components) -> bool {
    exists|i: int| 0 <= i < changes.len() && (#[trigger] changes[i]).path@ == path
}

fn same_value(left: Option<&TreeValue>, right: Option<&TreeValue>) -> (same: bool)
    ensures
        same == (crate::drift::opt_ref(left) == crate::drift::opt_ref(right)),
{
    match (left, right) {
        (None, None) => true,
        (Some(left), Some(right)) => left.same(right),
        _ => false,
    }
}

/// Adds to some changes those at the paths of some entries, from `old_tree` to
/// `new_tree`.
fn add_changes(
    changes: &mut Vec<CheckoutChange>,
    seen: &mut Vec<FilePath>,
    entries: &Entries,
    old_tree: &Entries,
    new_tree: &Entries,
)
    requires
        planned_for(old(changes)@, old(seen)@, old_tree@, new_tree@),
    ensures
        planned_for(final(changes)@, final(seen)@, old_tree@, new_tree@),
        forall|p: Components| #[trigger]
            all_paths(final(seen)@).contains(p) <==> all_paths(old(seen)@).contains(p) || keys(
                entries@,
            ).contains(p),
        final(changes)@.len() >= old(changes)@.len(),
        final(changes)@.take(old(changes)@.len() as int) == old(changes)@,
        forall|i: int|
            old(changes)@.len() <= i < final(changes)@.len() ==> !all_paths(
                old(seen)@,
            ).contains((#[trigger] final(changes)@[i]).path@),
        forall|i: int|
            old(changes)@.len() <= i < final(changes)@.len() ==> entry_names(entries@).contains(
                (#[trigger] final(changes)@[i]).path,
            ),
{
    let ghost start = changes@;
    proof {
        lemma_take_all(start);
    }
    let mut i: usize = 0;
    while i < entries.len()
        invariant
            i <= entries.len(),
            planned_for(changes@, seen@, old_tree@, new_tree@),
            forall|p: Components| #[trigger]
                all_paths(seen@).contains(p) <==> all_paths(old(seen)@).contains(p) || keys(
                    entries@,
                ).take(i as int).contains(p),
            start == old(changes)@,
            changes@.len() >= start.len(),
            changes@.take(start.len() as int) == start,
            forall|k: int|
                start.len() <= k < changes@.len() ==> !all_paths(old(seen)@).contains(
                    (#[trigger] changes@[k]).path@,
                ),
            forall|k: int|
                start.len() <= k < changes@.len() ==> entry_names(entries@).contains(
                    (#[trigger] changes@[k]).path,
                ),
        decreases entries.len() - i,
    {
        let path = &entries[i].0;
        proof {
            assert(keys(entries@)[i as int] == path@);
            lemma_take_holds(keys(entries@), i as int);
        }
        if !contains_path(seen, path) {
            let here = find(old_tree, path);
            let there = find(new_tree, path);
            let ghost changes_before = changes@;
            let ghost seen_before = seen@;
            if !same_value(here, there) {
                let value = match there {
                    Some(value) => Some(value.copy()),
                    None => None,
                };
                changes.push(CheckoutChange { path: path.copy(), value });
                proof {
                    assert(changes@.take(start.len() as int) =~= changes_before.take(
                        start.len() as int,
                    ));
                    assert forall|k: int| start.len() <= k < changes@.len() implies !all_paths(
                        old(seen)@,
                    ).contains((#[trigger] changes@[k]).path@) by {
                        if k < changes_before.len() {
                            assert(changes@[k] == changes_before[k]);
                        }
                    }
                    assert(entry_names(entries@)[i as int] == *path);
                    assert forall|k: int| start.len() <= k < changes@.len() implies entry_names(
                        entries@,
                    ).contains((#[trigger] changes@[k]).path) by {
                        if k < changes_before.len() {
                            assert(changes@[k] == changes_before[k]);
                        }
                    }
                }
            }
            seen.push(path.copy());
            proof {
                lemma_planned_step(
                    changes_before,
                    changes@,
                    seen_before,
                    *path,
                    old_tree@,
                    new_tree@,
                );
                assert(all_paths(seen@) =~= all_paths(seen_before).push(path@));
                assert forall|p: Components| #[trigger] all_paths(seen@).contains(p) <==> all_paths(
                    seen_before,
                ).contains(p) || p == path@ by {
                    if all_paths(seen_before).contains(p) {
                        let k = choose|k: int|
                            0 <= k < seen_before.len() && all_paths(seen_before)[k] == p;
                        assert(all_paths(seen@)[k] == p);
                    }
                    if p == path@ {
                        assert(all_paths(seen@)[seen_before.len() as int] == p);
                    }
                }
            }
        }
        i += 1;
    }
    proof {
        lemma_take_all(keys(entries@));
    }
}

/// Whether some changes are those at the paths in `seen`, each of them once,
/// from one tree to another.
pub open spec fn planned_for(
    changes: Seq<CheckoutChange>,
    seen: Seq<FilePath>,
    old_tree: Seq<(FilePath, TreeValue)>,
    new_tree: Seq<(FilePath, TreeValue)>,
) -> bool {
    &&& forall|i: int|
        0 <= i < changes.len() ==> all_paths(seen).contains((#[trigger] changes[i]).path@)
            && !holds_same(old_tree, new_tree, changes[i].path@) && changes[i].value == value_at(
            new_tree,
            changes[i].path@,
        )
    &&& forall|p: Components| #[trigger]
        all_paths(seen).contains(p) && !holds_same(old_tree, new_tree, p) ==> is_changed(
            changes,
            p,
        )
    &&& forall|i: int, j: int|
        0 <= i < j < changes.len() ==> (#[trigger] changes[i]).path@ != (
        #[trigger] changes[j]).path@
}

proof fn lemma_planned_step(
    before: Seq<CheckoutChange>,
    after: Seq<CheckoutChange>,
    seen: Seq<FilePath>,
    path: FilePath,
    old_tree: Seq<(FilePath, TreeValue)>,
    new_tree: Seq<(FilePath, TreeValue)>,
)
    requires
        planned_for(before, seen, old_tree, new_tree),
        !all_paths(seen).contains(path@),
        if holds_same(old_tree, new_tree, path@) {
            after == before
        } else {
            after == before.push(
                CheckoutChange { path, value: value_at(new_tree, path@) },
            )
        },
    ensures
        planned_for(after, seen.push(path), old_tree, new_tree),
{
    let more = seen.push(path);
    assert(all_paths(more) =~= all_paths(seen).push(path@));
    assert(all_paths(more)[seen.len() as int] == path@);
    assert forall|p: Components| #[trigger] all_paths(more).contains(p) <==> all_paths(
        seen,
    ).contains(p) || p == path@ by {
        if all_paths(seen).contains(p) {
            let k = choose|k: int| 0 <= k < seen.len() && all_paths(seen)[k] == p;
            assert(all_paths(more)[k] == p);
        }
    }
    assert forall|i: int| 0 <= i < after.len() implies all_paths(more).contains(
        (#[trigger] after[i]).path@,
    ) && !holds_same(old_tree, new_tree, after[i].path@) && after[i].value == value_at(
        new_tree,
        after[i].path@,
    ) by {
        if i < before.len() {
            assert(after[i] == before[i]);
        }
    }
    assert forall|p: Components| #[trigger] all_paths(more).contains(p) && !holds_same(
        old_tree,
        new_tree,
        p,
    ) implies is_changed(after, p) by {
        if all_paths(seen).contains(p) {
            assert(is_changed(before, p));
            let i = choose|i: int| 0 <= i < before.len() && (#[trigger] before[i]).path@ == p;
            assert(after[i].path@ == p);
        } else {
            assert(after[before.len() as int].path@ == p);
        }
    }
    assert forall|i: int, j: int| 0 <= i < j < after.len() implies (#[trigger] after[i]).path@ != (
    #[trigger] after[j]).path@ by {
        assert(after[i] == before[i]);
        if j < before.len() {
            assert(after[j] == before[j]);
        } else {
            assert(all_paths(seen).contains(before[i].path@));
        }
    }
}

/// Whether some changes are what a check-out makes of one tree to have another:
/// only the paths that differ, each of them once and as its tree spells it, and
/// what is there already before what is new.
pub open spec fn is_checkout(
    old_tree: Seq<(FilePath, TreeValue)>,
    new_tree: Seq<(FilePath, TreeValue)>,
    changes: Seq<CheckoutChange>,
) -> bool {
    &&& forall|i: int|
        0 <= i < changes.len() ==> (#[trigger] changes[i]).value == value_at(
            new_tree,
            changes[i].path@,
        ) && !holds_same(old_tree, new_tree, changes[i].path@)
    &&& forall|p: Components| #[trigger]
        is_changed(changes, p) <==> !holds_same(old_tree, new_tree, p)
    &&& forall|i: int, j: int|
        0 <= i < j < changes.len() ==> (#[trigger] changes[i]).path@ != (
        #[trigger] changes[j]).path@
    &&& forall|i: int, j: int|
        0 <= i < j < changes.len() && keys(old_tree).contains((#[trigger] changes[j]).path@)
            ==> keys(old_tree).contains((#[trigger] changes[i]).path@)
    &&& forall|i: int|
        0 <= i < changes.len() ==> if keys(old_tree).contains((#[trigger] changes[i]).path@) {
            entry_names(old_tree).contains(changes[i].path)
        } else {
            entry_names(new_tree).contains(changes[i].path)
        }
}

/// What a check-out changes: only the paths that differ, each of them once and as
/// its tree spells it, and what is there already before what is new, so that a
/// path can make way for others under it.
pub fn checkout_plan(old_tree: &Entries, new_tree: &Entries) -> (changes: Vec<CheckoutChange>)
    ensures
        is_checkout(old_tree@, new_tree@, changes@),
{
    let mut changes: Vec<CheckoutChange> = Vec::new();
    let mut seen: Vec<FilePath> = Vec::new();
    add_changes(&mut changes, &mut seen, old_tree, old_tree, new_tree);
    let ghost first = changes@;
    proof {
        assert forall|i: int| 0 <= i < first.len() implies keys(old_tree@).contains(
            (#[trigger] first[i]).path@,
        ) by {
            assert(all_paths(seen@).contains(first[i].path@));
        }
    }
    add_changes(&mut changes, &mut seen, new_tree, old_tree, new_tree);
    proof {
        assert forall|i: int, j: int|
            0 <= i < j < changes@.len() && keys(old_tree@).contains(
                (#[trigger] changes@[j]).path@,
            ) implies keys(old_tree@).contains((#[trigger] changes@[i]).path@) by {
            if j >= first.len() {
                assert(!keys(old_tree@).contains(changes@[j].path@));
            } else {
                assert(changes@.take(first.len() as int)[i] == first[i]);
            }
        }
        assert forall|i: int| 0 <= i < changes@.len() implies if keys(old_tree@).contains(
            (#[trigger] changes@[i]).path@,
        ) {
            entry_names(old_tree@).contains(changes@[i].path)
        } else {
            entry_names(new_tree@).contains(changes@[i].path)
        } by {
            if i < first.len() {
                assert(changes@.take(first.len() as int)[i] == first[i]);
            } else {
                assert(!keys(old_tree@).contains(changes@[i].path@));
            }
        }
        assert forall|p: Components| #[trigger] is_changed(changes@, p) <==> !holds_same(
            old_tree@,
            new_tree@,
            p,
        ) by {
            if !holds_same(old_tree@, new_tree@, p) {
                lemma_value_at(old_tree@, p);
                lemma_value_at(new_tree@, p);
                assert(all_paths(seen@).contains(p));
            }
        }
    }
    changes
}

/// Why a tree is not written into home: one that holds a conflict never is.
pub fn checkout_refusal(conflicted: bool) -> (refused: Option<&'static str>)
    ensures
        match refused {
            Some(said) => conflicted && said@
                == "a conflicted tree is never materialized into home; present it instead"@,
            None => !conflicted,
        },
{
    if conflicted {
        Some("a conflicted tree is never materialized into home; present it instead")
    } else {
        None
    }
}

/// What a path holds once some changes are made to what a tree held.
pub open spec fn checked_out(
    old_tree: Seq<(FilePath, TreeValue)>,
    changes: Seq<CheckoutChange>,
    path: Components,
) -> Option<TreeValue> {
    if is_changed(changes, path) {
        changes[choose|i: int|
            0 <= i < changes.len() && (#[trigger] changes[i]).path@ == path].value
    } else {
        value_at(old_tree, path)
    }
}

/// Making the changes of a check-out to what the old tree held gives what the
/// new tree holds, at every path.
pub proof fn law_checkout_reaches_the_new_tree(
    old_tree: Seq<(FilePath, TreeValue)>,
    new_tree: Seq<(FilePath, TreeValue)>,
    changes: Seq<CheckoutChange>,
    path: Components,
)
    requires
        forall|i: int|
            0 <= i < changes.len() ==> (#[trigger] changes[i]).value == value_at(
                new_tree,
                changes[i].path@,
            ),
        forall|p: Components| #[trigger]
            is_changed(changes, p) <==> !holds_same(old_tree, new_tree, p),
    ensures
        opt_value(checked_out(old_tree, changes, path)) == opt_value(value_at(new_tree, path)),
{
    if is_changed(changes, path) {
        let i = choose|i: int| 0 <= i < changes.len() && (#[trigger] changes[i]).path@ == path;
        assert(changes[i].path@ == path);
    } else {
        assert(holds_same(old_tree, new_tree, path));
    }
}

/// A check-out touches a file only where the two trees differ there, and each such
/// file once: it is given what the new tree holds, or is removed where that holds
/// nothing, and what was there makes way before anything new comes.
pub proof fn law_a_checkout_touches_what_differs(
    old_tree: Seq<(FilePath, TreeValue)>,
    new_tree: Seq<(FilePath, TreeValue)>,
    changes: Seq<CheckoutChange>,
)
    requires
        is_checkout(old_tree, new_tree, changes),
        sorted_paths(keys(old_tree)),
        sorted_paths(keys(new_tree)),
    ensures
        forall|i: int, j: int|
            0 <= i < old_tree.len() && 0 <= j < new_tree.len() && (#[trigger] old_tree[i]).0@ == (
            #[trigger] new_tree[j]).0@ ==> (is_changed(changes, old_tree[i].0@) <==> old_tree[i].1@
                != new_tree[j].1@),
        forall|i: int|
            0 <= i < old_tree.len() && (forall|j: int|
                0 <= j < new_tree.len() ==> (#[trigger] new_tree[j]).0@ != old_tree[i].0@)
                ==> exists|c: int|
                0 <= c < changes.len() && (#[trigger] changes[c]).path@ == (
                #[trigger] old_tree[i]).0@ && changes[c].value is None,
        forall|j: int|
            0 <= j < new_tree.len() && is_changed(changes, (#[trigger] new_tree[j]).0@) ==> exists|
                c: int,
            |
                0 <= c < changes.len() && (#[trigger] changes[c]).path@ == new_tree[j].0@
                    && changes[c].value == Some(new_tree[j].1),
        forall|j: int|
            0 <= j < new_tree.len() && (forall|i: int|
                0 <= i < old_tree.len() ==> (#[trigger] old_tree[i]).0@ != new_tree[j].0@)
                ==> is_changed(changes, (#[trigger] new_tree[j]).0@),
        forall|c: int, d: int|
            0 <= c < d < changes.len() && (exists|i: int|
                0 <= i < old_tree.len() && (#[trigger] old_tree[i]).0@ == changes[d].path@)
                ==> exists|i: int|
                0 <= i < old_tree.len() && (#[trigger] old_tree[i]).0@ == (
                #[trigger] changes[c]).path@ && (#[trigger] changes[d]).path@ == changes[d].path@,
{
    assert forall|i: int, j: int|
        0 <= i < old_tree.len() && 0 <= j < new_tree.len() && (#[trigger] old_tree[i]).0@ == (
        #[trigger] new_tree[j]).0@ implies (is_changed(changes, old_tree[i].0@) <==> old_tree[i].1@
        != new_tree[j].1@) by {
        lemma_sorted_value(old_tree, i);
        lemma_sorted_value(new_tree, j);
        assert(is_changed(changes, old_tree[i].0@) <==> !holds_same(
            old_tree,
            new_tree,
            old_tree[i].0@,
        ));
    }
    assert forall|i: int|
        0 <= i < old_tree.len() && (forall|j: int|
            0 <= j < new_tree.len() ==> (#[trigger] new_tree[j]).0@ != old_tree[i].0@) implies exists|
        c: int,
    |
        0 <= c < changes.len() && (#[trigger] changes[c]).path@ == (#[trigger] old_tree[i]).0@
            && changes[c].value is None by {
        lemma_sorted_value(old_tree, i);
        lemma_value_at(new_tree, old_tree[i].0@);
        assert(value_at(new_tree, old_tree[i].0@) is None);
        assert(is_changed(changes, old_tree[i].0@));
        let c = choose|c: int|
            0 <= c < changes.len() && (#[trigger] changes[c]).path@ == old_tree[i].0@;
        assert(changes[c].value is None);
    }
    assert forall|j: int|
        0 <= j < new_tree.len() && is_changed(changes, (#[trigger] new_tree[j]).0@) implies exists|
        c: int,
    |
        0 <= c < changes.len() && (#[trigger] changes[c]).path@ == new_tree[j].0@
            && changes[c].value == Some(new_tree[j].1) by {
        lemma_sorted_value(new_tree, j);
        let c = choose|c: int|
            0 <= c < changes.len() && (#[trigger] changes[c]).path@ == new_tree[j].0@;
        assert(changes[c].value == Some(new_tree[j].1));
    }
    assert forall|j: int|
        0 <= j < new_tree.len() && (forall|i: int|
            0 <= i < old_tree.len() ==> (#[trigger] old_tree[i]).0@ != new_tree[j].0@) implies is_changed(
        changes,
        (#[trigger] new_tree[j]).0@,
    ) by {
        lemma_sorted_value(new_tree, j);
        lemma_value_at(old_tree, new_tree[j].0@);
        assert(value_at(old_tree, new_tree[j].0@) is None);
    }
    assert forall|c: int, d: int|
        0 <= c < d < changes.len() && (exists|i: int|
            0 <= i < old_tree.len() && (#[trigger] old_tree[i]).0@ == changes[d].path@) implies exists|
        i: int,
    |
        0 <= i < old_tree.len() && (#[trigger] old_tree[i]).0@ == (#[trigger] changes[c]).path@
            && (#[trigger] changes[d]).path@ == changes[d].path@ by {
        let i = choose|i: int|
            0 <= i < old_tree.len() && (#[trigger] old_tree[i]).0@ == changes[d].path@;
        assert(keys(old_tree)[i] == changes[d].path@);
        assert(keys(old_tree).contains(changes[d].path@));
        assert(keys(old_tree).contains(changes[c].path@));
        let k = choose|k: int|
            0 <= k < old_tree.len() && keys(old_tree)[k] == changes[c].path@;
        assert(old_tree[k].0@ == changes[c].path@);
    }
}

/// What is done on disk about one change.
#[derive(Debug, Clone, Copy, PartialEq, Eq, Structural)]
pub enum DiskChange {
    Nothing,
    Remove,
    Update,
    Create,
}

/// What is done on disk about one change.
pub open spec fn change_on_disk(wanted: bool, existed: bool) -> DiskChange {
    match (wanted, existed) {
        (false, false) => DiskChange::Nothing,
        (false, true) => DiskChange::Remove,
        (true, true) => DiskChange::Update,
        (true, false) => DiskChange::Create,
    }
}

/// Once a change is made, there is something at its path exactly where there is
/// to be, nothing is removed that is to be there, and nothing is done where
/// nothing is and nothing is to be.
pub proof fn law_a_change_leaves_what_is_wanted(wanted: bool, existed: bool)
    ensures
        wanted <==> match change_on_disk(wanted, existed) {
            DiskChange::Nothing => existed,
            DiskChange::Remove => false,
            DiskChange::Update => true,
            DiskChange::Create => true,
        },
        change_on_disk(wanted, existed) == DiskChange::Update ==> existed,
        change_on_disk(wanted, existed) == DiskChange::Create ==> !existed,
        change_on_disk(wanted, existed) == DiskChange::Remove ==> existed,
{
}

/// What is done on disk about one change, by whether the path is to hold
/// something and whether it does.
pub fn disk_change(wanted: bool, existed: bool) -> (change: DiskChange)
    ensures
        change == change_on_disk(wanted, existed),
{
    if wanted {
        if existed {
            DiskChange::Update
        } else {
            DiskChange::Create
        }
    } else if existed {
        DiskChange::Remove
    } else {
        DiskChange::Nothing
    }
}

/// How one entry is written: what is there is replaced rather than written
/// through, bytes are written only where they differ, and a mode is set only
/// where the executable bit is not right.
pub enum DiskWrite {
    File { remove_first: bool, write: bool, mode: Option<u32> },
    Symlink { remove_first: bool },
    /// An entry that home cannot hold.
    Unsupported,
}

/// What is at a path that is about to be written.
pub struct DiskPlace {
    /// There is something there.
    pub existed: bool,
    /// It is a plain file.
    pub plain_file: bool,
    /// It holds the bytes that are to be written.
    pub same_bytes: bool,
    /// Its mode.
    pub mode: u32,
}

/// Whether a file at a place is executable once its bytes are there: one that is
/// kept stays as it is, and a fresh one is not.
pub open spec fn runs_at(place: DiskPlace) -> bool {
    place.existed && place.plain_file && place.mode & 0o111u32 != 0
}

/// The mode that a file at a place has to be given, if any.
pub open spec fn mode_change(place: DiskPlace, executable: bool) -> Option<u32> {
    if runs_at(place) == executable {
        None
    } else if executable {
        Some(0o755u32)
    } else {
        Some(0o644u32)
    }
}

/// How one entry is written, from what is at the path.
pub open spec fn written(value: TreeValue, place: DiskPlace) -> DiskWrite {
    match value {
        TreeValue::File { id, executable } => DiskWrite::File {
            remove_first: place.existed && !place.plain_file,
            write: !(place.existed && place.plain_file && place.same_bytes),
            mode: mode_change(place, executable),
        },
        TreeValue::Symlink(id) => DiskWrite::Symlink { remove_first: place.existed },
        _ => DiskWrite::Unsupported,
    }
}

/// How one entry is written, from what is at the path.
pub fn disk_write(value: &TreeValue, place: &DiskPlace) -> (write: DiskWrite)
    ensures
        write == written(*value, *place),
{
    match value {
        TreeValue::File { id, executable } => {
            let runs = place.existed && place.plain_file && file_is_executable(place.mode);
            let mode = if runs == *executable {
                None
            } else {
                Some(file_mode(*executable))
            };
            DiskWrite::File {
                remove_first: place.existed && !place.plain_file,
                write: !(place.existed && place.plain_file && place.same_bytes),
                mode,
            }
        },
        TreeValue::Symlink(id) => DiskWrite::Symlink { remove_first: place.existed },
        _ => DiskWrite::Unsupported,
    }
}

/// A file whose bytes and executable bit are right is not touched: its bytes are
/// not written again, and its mode stays what it is.
pub proof fn law_a_right_file_is_not_touched(id: String, executable: bool, place: DiskPlace)
    requires
        place.existed,
        place.plain_file,
        place.same_bytes,
        executable == (place.mode & 0o111u32 != 0),
    ensures
        written((TreeValue::File { id, executable }), place) == (DiskWrite::File {
            remove_first: false,
            write: false,
            mode: None,
        }),
{
}

/// What is at a place once an entry was written there: what was removed is gone,
/// bytes are written into what is there or into a fresh file, and a mode is given
/// last.
pub open spec fn place_after(write: DiskWrite, place: DiskPlace) -> DiskPlace {
    match write {
        DiskWrite::File { remove_first, write, mode } => {
            let kept = place.existed && !remove_first;
            DiskPlace {
                existed: kept || write,
                plain_file: if kept {
                    place.plain_file
                } else {
                    write
                },
                same_bytes: write || (kept && place.same_bytes),
                mode: match mode {
                    Some(given) => given,
                    None => if kept {
                        place.mode
                    } else {
                        0o644u32
                    },
                },
            }
        },
        _ => place,
    }
}

/// Whatever was at a place, once a file entry is written there it is a plain file
/// that holds the bytes of the entry and that runs exactly where the entry says
/// so. The bytes are written exactly where they are not there yet, whatever the
/// mode, and what is there is removed first exactly where it is no plain file.
pub proof fn law_a_written_file_is_the_entry(id: String, executable: bool, place: DiskPlace)
    ensures
        ({
            let write = written((TreeValue::File { id, executable }), place);
            let after = place_after(write, place);
            &&& after.existed
            &&& after.plain_file
            &&& after.same_bytes
            &&& (after.mode & 0o111u32 != 0) == executable
            &&& write matches DiskWrite::File { remove_first, write, mode } && (write <==> !(
            place.existed && place.plain_file && place.same_bytes)) && (remove_first <==> (
            place.existed && !place.plain_file))
        }),
{
    assert(0o755u32 & 0o111u32 != 0) by (bit_vector);
    assert(0o644u32 & 0o111u32 == 0) by (bit_vector);
}

/// A link is made anew, in place of whatever was there, and an entry that home
/// cannot hold is not written at all.
pub proof fn law_other_entries_are_links_or_refused(value: TreeValue, place: DiskPlace)
    ensures
        value is Symlink <==> written(value, place) is Symlink,
        value is Symlink ==> written(value, place)->Symlink_remove_first == place.existed,
        value is File <==> written(value, place) is File,
        value is GitSubmodule || value is Tree <==> written(value, place) is Unsupported,
{
}

/// A managed path is refused only for a link on the way to it or for being in
/// dotsync's own repo.
pub proof fn law_a_contained_path_is_not_refused(
    path: Text,
    steps: Seq<FilePath>,
    links: Seq<bool>,
    repo_root: Components,
)
    requires
        steps.len() > 0,
        links.len() == steps.len(),
        !repo_root.is_prefix_of(steps.last()@),
        forall|k: int| 0 <= k < links.len() - 1 ==> !#[trigger] links[k],
    ensures
        disk_problem(path, steps, links, repo_root) is None,
{
    lemma_past_links(links, 0);
}

proof fn lemma_past_links(links: Seq<bool>, at: int)
    requires
        0 <= at,
        forall|k: int| at <= k < links.len() - 1 ==> !#[trigger] links[k],
    ensures
        first_link(links, at) >= links.len() - 1,
    decreases links.len() - at,
{
    if at < links.len() - 1 {
        assert(!links[at]);
        lemma_past_links(links, at + 1);
    }
}

/// A snapshot that is widened reads everything it read before and everything it
/// was told to, and nothing else.
pub proof fn law_a_widened_snapshot_reads_both(probe: Seq<Text>, more: Seq<Text>, path: Text)
    ensures
        widened(probe, more).contains(path) <==> probe.contains(path) || more.contains(path),
        widened(probe, more).len() >= probe.len(),
        widened(probe, more).take(probe.len() as int) == probe,
    decreases more.len(),
{
    if more.len() == 0 {
        assert(probe.take(probe.len() as int) =~= probe);
    } else {
        let rest = more.drop_last();
        let before = widened(probe, rest);
        let last = more.last();
        law_a_widened_snapshot_reads_both(probe, rest, path);
        assert(more.contains(path) <==> rest.contains(path) || path == last) by {
            if more.contains(path) {
                let k = choose|k: int| 0 <= k < more.len() && more[k] == path;
                if k < rest.len() {
                    assert(rest[k] == path);
                }
            }
            if rest.contains(path) {
                let k = choose|k: int| 0 <= k < rest.len() && rest[k] == path;
                assert(more[k] == path);
            }
            assert(more[more.len() - 1] == last);
        }
        if !before.contains(last) {
            let after = before.push(last);
            assert(after.take(probe.len() as int) =~= before.take(probe.len() as int));
            assert(after[before.len() as int] == last);
            if before.contains(path) {
                let k = choose|k: int| 0 <= k < before.len() && before[k] == path;
                assert(after[k] == path);
            }
        }
    }
}

/// Every step down to a path is looked at, from home on: each is the one before it
/// with the next part of the path.
pub proof fn law_every_step_down_is_looked_at(home: Text, parts: Seq<Text>)
    ensures
        disk_steps(home, parts).len() == parts.len(),
        forall|k: int|
            0 <= k < parts.len() ==> #[trigger] disk_steps(home, parts)[k] == joined_path(
                if k == 0 {
                    home
                } else {
                    disk_steps(home, parts)[k - 1]
                },
                parts[k],
            ),
    decreases parts.len(),
{
    if parts.len() > 0 {
        law_every_step_down_is_looked_at(home, parts.drop_last());
        let before = disk_steps(home, parts.drop_last());
        let all = disk_steps(home, parts);
        assert forall|k: int| 0 <= k < parts.len() implies #[trigger] all[k] == joined_path(
            if k == 0 {
                home
            } else {
                all[k - 1]
            },
            parts[k],
        ) by {
            if k < parts.len() - 1 {
                assert(all[k] == before[k]);
                assert(parts.drop_last()[k] == parts[k]);
                if k > 0 {
                    assert(all[k - 1] == before[k - 1]);
                }
            } else if k > 0 {
                assert(all[k - 1] == before[k - 1]);
                assert(before.last() == before[k - 1]);
            }
        }
    }
}

} // verus!
