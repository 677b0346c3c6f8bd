//! Where a managed path stands across the three sides dotsync knows about:
//! what this machine last synced, what is in home now, and what the machine's
//! scope holds now.
use vstd::prelude::*;
use vstd::string::*;
use crate::paths::{
    all_paths, contains_path, entry_names, find, first_of, insert_path, keys,
    lemma_nothing_spelled, lemma_sorted_value, lemma_spelled, lemma_spelled_step, lemma_value_at,
    sorted_paths, spelled, value_at, Components, FilePath,
};
use crate::seqs::{lemma_filter_step, lemma_take_all, lemma_take_holds};
use crate::text::{same_text, Text};

verus! {

/// What a tree holds at a path.
pub enum TreeValue {
    File { id: String, executable: bool },
    Symlink(String),
    GitSubmodule(String),
    Tree(String),
}

/// What a tree holds at a path, as contracts see it.
pub enum TreeValueView {
    File { id: Text, executable: bool },
    Symlink(Text),
    GitSubmodule(Text),
    Tree(Text),
}

impl View for TreeValue {
    type V = TreeValueView;

    open spec fn view(&self) -> TreeValueView {
        match self {
            TreeValue::File { id, executable } => TreeValueView::File {
                id: id@,
                executable: *executable,
            },
            TreeValue::Symlink(id) => TreeValueView::Symlink(id@),
            TreeValue::GitSubmodule(id) => TreeValueView::GitSubmodule(id@),
            TreeValue::Tree(id) => TreeValueView::Tree(id@),
        }
    }
}

impl TreeValue {
    /// Whether two entries are the same: same kind, same content, same
    /// executable bit.
    pub fn same(&self, other: &TreeValue) -> (same: bool)
        ensures
            same == (self@ == other@),
    {
        match (self, other) {
            (TreeValue::File { id, executable }, TreeValue::File { id: id2, executable: exec2 }) => {
                *executable == *exec2 && same_text(id.as_str(), id2.as_str())
            },
            (TreeValue::Symlink(id), TreeValue::Symlink(id2)) => same_text(
                id.as_str(),
                id2.as_str(),
            ),
            (TreeValue::GitSubmodule(id), TreeValue::GitSubmodule(id2)) => same_text(
                id.as_str(),
                id2.as_str(),
            ),
            (TreeValue::Tree(id), TreeValue::Tree(id2)) => same_text(id.as_str(), id2.as_str()),
            _ => false,
        }
    }

    /// A copy of the entry.
    pub fn copy(&self) -> (copy: TreeValue)
        ensures
            copy == *self,
    {
        match self {
            TreeValue::File { id, executable } => TreeValue::File {
                id: id.clone(),
                executable: *executable,
            },
            TreeValue::Symlink(id) => TreeValue::Symlink(id.clone()),
            TreeValue::GitSubmodule(id) => TreeValue::GitSubmodule(id.clone()),
            TreeValue::Tree(id) => TreeValue::Tree(id.clone()),
        }
    }
}

/// The view of an entry that may be missing.
pub open spec fn opt_value(value: Option<TreeValue>) -> Option<TreeValueView> {
    match value {
        Some(value) => Some(value@),
        None => None,
    }
}

/// Where one managed path stands across the three sides.
///
/// The variants are the full cross of presence for the three sides, collapsed
/// by equality wherever two present sides hold the same entry, so every
/// situation lands in exactly one.
#[derive(Debug, Clone, Copy, PartialEq, Eq, Structural)]
pub enum FileState {
    /// Absent from all three sides.
    AbsentEverywhere,
    /// In home only: a new file, which is only interesting to `commit`.
    UntrackedInHome,
    /// Added on another machine and not in home yet.
    IncomingNew,
    /// Added on another machine, and home already holds exactly that.
    IncomingNewAlreadyMatchesHome,
    /// Home holds content dotsync has never seen, and the repo has introduced
    /// a file at the same path that will not merge with it.
    IncomingNewCollidesWithUntrackedHome,
    /// Was synced here and then deleted from home.
    DeletedInHome,
    /// Deleted from home, and the repo changed the file independently.
    DeletedInHomeTipAlsoChanged,
    /// A local edit that was never recorded.
    EditedInHome,
    /// A local edit that changed what the path is: a symlink here where the
    /// scope has a regular file, or the reverse.
    KindDiffersFromScope,
    /// A local edit to a file that someone else deleted from the repo.
    EditedInHomeButRemovedFromRepo,
    /// Home and the tip both moved away from what was last synced, to the same
    /// entry.
    AlreadyApplied,
    /// Home and the tip both moved, differently, and the merge cannot reconcile
    /// them.
    DivergedEdit,
    /// Home and the tip both moved, differently, and the merge reconciles them.
    DivergedEditThatMerges,
    /// Home is exactly what was last synced here, and the tip has moved on.
    StaleNotYours,
    /// Deleted from the repo elsewhere, and home still holds what was synced.
    RemovedFromRepo,
    /// Deleted from home and from the repo.
    RemovedEverywhere,
    /// The same entry on all three sides.
    InSync,
}

/// The states in which home holds a change of this machine's own.
pub open spec fn drifted(state: FileState) -> bool {
    match state {
        FileState::EditedInHome
        | FileState::KindDiffersFromScope
        | FileState::EditedInHomeButRemovedFromRepo
        | FileState::DeletedInHome
        | FileState::DeletedInHomeTipAlsoChanged
        | FileState::DivergedEdit
        | FileState::DivergedEditThatMerges
        | FileState::IncomingNewCollidesWithUntrackedHome => true,
        _ => false,
    }
}

/// The states in which the repo has moved and home has not.
pub open spec fn incoming(state: FileState) -> bool {
    match state {
        FileState::IncomingNew | FileState::StaleNotYours | FileState::RemovedFromRepo => true,
        _ => false,
    }
}

/// The states in which recording home would overwrite someone else's change
/// rather than contribute one.
pub open spec fn blocking(state: FileState) -> bool {
    incoming(state) || state == FileState::IncomingNewCollidesWithUntrackedHome
}

/// The states in which forcing a path decides something: the commit would have
/// been refused, or would have merged.
pub open spec fn decided_by_force(state: FileState) -> bool {
    blocking(state) || state == FileState::DivergedEdit || state
        == FileState::DivergedEditThatMerges
}

/// What happened at a path, naming every side that moved.
pub open spec fn reason_text(state: FileState) -> Text {
    match state {
        FileState::EditedInHome => "edited here since the last sync"@,
        FileState::KindDiffersFromScope =>
            "a symlink here where the scope has a regular file, or the reverse: a different kind of file, not a different set of lines"@,
        FileState::EditedInHomeButRemovedFromRepo =>
            "edited here since the last sync, and removed from the repo on another machine"@,
        FileState::DeletedInHome => "deleted here since the last sync"@,
        FileState::DeletedInHomeTipAlsoChanged =>
            "deleted here since the last sync, and changed in the repo on another machine"@,
        FileState::DivergedEdit => "edited here, and changed in the repo on another machine"@,
        FileState::DivergedEditThatMerges =>
            "edited here, and changed in the repo on another machine; the two changes combine"@,
        FileState::IncomingNewCollidesWithUntrackedHome =>
            "never synced here, and the repo has just added a file at this path that will not merge with it"@,
        FileState::IncomingNew => "added on another machine"@,
        FileState::StaleNotYours => "changed on another machine, and not edited here"@,
        FileState::RemovedFromRepo => "removed on another machine"@,
        FileState::UntrackedInHome => "in home only; dotsync does not manage it"@,
        FileState::IncomingNewAlreadyMatchesHome
        | FileState::AlreadyApplied
        | FileState::InSync => "already up to date"@,
        FileState::RemovedEverywhere | FileState::AbsentEverywhere => "not present"@,
    }
}

/// The machine-readable name of a state.
pub open spec fn code_text(state: FileState) -> Text {
    match state {
        FileState::EditedInHome => "modified"@,
        FileState::KindDiffersFromScope => "kind_differs"@,
        FileState::EditedInHomeButRemovedFromRepo => "modified_removed_from_repo"@,
        FileState::DeletedInHome => "deleted"@,
        FileState::DeletedInHomeTipAlsoChanged => "deleted_changed_in_repo"@,
        FileState::DivergedEdit => "conflicted"@,
        FileState::DivergedEditThatMerges => "modified_changed_in_repo"@,
        FileState::IncomingNewCollidesWithUntrackedHome => "untracked_collision"@,
        FileState::IncomingNew => "incoming_add"@,
        FileState::StaleNotYours => "incoming_update"@,
        FileState::RemovedFromRepo => "incoming_delete"@,
        FileState::UntrackedInHome => "untracked"@,
        FileState::IncomingNewAlreadyMatchesHome => "incoming_add_already_applied"@,
        FileState::AlreadyApplied => "already_applied"@,
        FileState::InSync => "in_sync"@,
        FileState::RemovedEverywhere => "removed_everywhere"@,
        FileState::AbsentEverywhere => "absent"@,
    }
}

impl FileState {
    /// Whether home holds a change of this machine's own: something dotsync
    /// neither put there nor has a record of.
    pub fn is_drift(self) -> (drift: bool)
        ensures
            drift == drifted(self),
    {
        match self {
            FileState::EditedInHome
            | FileState::KindDiffersFromScope
            | FileState::EditedInHomeButRemovedFromRepo
            | FileState::DeletedInHome
            | FileState::DeletedInHomeTipAlsoChanged
            | FileState::DivergedEdit
            | FileState::DivergedEditThatMerges
            | FileState::IncomingNewCollidesWithUntrackedHome => true,
            _ => false,
        }
    }

    /// Whether the repo has moved and home has not, which a plain run resolves
    /// with no decision from anyone.
    pub fn is_incoming(self) -> (is_incoming: bool)
        ensures
            is_incoming == incoming(self),
    {
        match self {
            FileState::IncomingNew | FileState::StaleNotYours | FileState::RemovedFromRepo => true,
            _ => false,
        }
    }

    /// Whether recording home's bytes here would overwrite someone else's
    /// change rather than contribute one.
    pub fn blocks_commit(self) -> (blocks: bool)
        ensures
            blocks == blocking(self),
    {
        match self {
            FileState::StaleNotYours
            | FileState::IncomingNew
            | FileState::RemovedFromRepo
            | FileState::IncomingNewCollidesWithUntrackedHome => true,
            _ => false,
        }
    }

    /// Whether forcing this path decided something.
    pub fn forcing_decides_something(self) -> (decides: bool)
        ensures
            decides == decided_by_force(self),
    {
        self.blocks_commit() || matches!(
            self,
            FileState::DivergedEdit | FileState::DivergedEditThatMerges
        )
    }

    /// What happened, naming every side that moved.
    pub fn reason(self) -> (text: &'static str)
        ensures
            text@ == reason_text(self),
    {
        match self {
            FileState::EditedInHome => "edited here since the last sync",
            FileState::KindDiffersFromScope =>
                "a symlink here where the scope has a regular file, or the reverse: a different kind of file, not a different set of lines",
            FileState::EditedInHomeButRemovedFromRepo =>
                "edited here since the last sync, and removed from the repo on another machine",
            FileState::DeletedInHome => "deleted here since the last sync",
            FileState::DeletedInHomeTipAlsoChanged =>
                "deleted here since the last sync, and changed in the repo on another machine",
            FileState::DivergedEdit => "edited here, and changed in the repo on another machine",
            FileState::DivergedEditThatMerges =>
                "edited here, and changed in the repo on another machine; the two changes combine",
            FileState::IncomingNewCollidesWithUntrackedHome =>
                "never synced here, and the repo has just added a file at this path that will not merge with it",
            FileState::IncomingNew => "added on another machine",
            FileState::StaleNotYours => "changed on another machine, and not edited here",
            FileState::RemovedFromRepo => "removed on another machine",
            FileState::UntrackedInHome => "in home only; dotsync does not manage it",
            FileState::IncomingNewAlreadyMatchesHome
            | FileState::AlreadyApplied
            | FileState::InSync => "already up to date",
            FileState::RemovedEverywhere | FileState::AbsentEverywhere => "not present",
        }
    }

    /// The machine-readable name of this state.
    pub fn code(self) -> (text: &'static str)
        ensures
            text@ == code_text(self),
    {
        match self {
            FileState::EditedInHome => "modified",
            FileState::KindDiffersFromScope => "kind_differs",
            FileState::EditedInHomeButRemovedFromRepo => "modified_removed_from_repo",
            FileState::DeletedInHome => "deleted",
            FileState::DeletedInHomeTipAlsoChanged => "deleted_changed_in_repo",
            FileState::DivergedEdit => "conflicted",
            FileState::DivergedEditThatMerges => "modified_changed_in_repo",
            FileState::IncomingNewCollidesWithUntrackedHome => "untracked_collision",
            FileState::IncomingNew => "incoming_add",
            FileState::StaleNotYours => "incoming_update",
            FileState::RemovedFromRepo => "incoming_delete",
            FileState::UntrackedInHome => "untracked",
            FileState::IncomingNewAlreadyMatchesHome => "incoming_add_already_applied",
            FileState::AlreadyApplied => "already_applied",
            FileState::InSync => "in_sync",
            FileState::RemovedEverywhere => "removed_everywhere",
            FileState::AbsentEverywhere => "absent",
        }
    }
}

/// The machine-readable names tell all states apart.
pub proof fn law_codes_differ(one: FileState, other: FileState)
    requires
        code_text(one) == code_text(other),
    ensures
        one == other,
{
    reveal_strlit("modified");
    reveal_strlit("kind_differs");
    reveal_strlit("modified_removed_from_repo");
    reveal_strlit("deleted");
    reveal_strlit("deleted_changed_in_repo");
    reveal_strlit("conflicted");
    reveal_strlit("modified_changed_in_repo");
    reveal_strlit("untracked_collision");
    reveal_strlit("incoming_add");
    reveal_strlit("incoming_update");
    reveal_strlit("incoming_delete");
    reveal_strlit("untracked");
    reveal_strlit("incoming_add_already_applied");
    reveal_strlit("already_applied");
    reveal_strlit("in_sync");
    reveal_strlit("removed_everywhere");
    reveal_strlit("absent");
    let a = code_text(one);
    let b = code_text(other);
    assert(a.len() == b.len());
    assert(a[0] == b[0]);
    assert(a.len() > 9 ==> a[9] == b[9]);
}

/// What is said of a path that is reported tells its state: no other state has
/// the same reason.
pub proof fn law_reasons_differ(one: FileState, other: FileState)
    requires
        drifted(one) || incoming(one) || one == FileState::UntrackedInHome,
        reason_text(one) == reason_text(other),
    ensures
        one == other,
{
    reveal_strlit("edited here since the last sync");
    reveal_strlit(
        "a symlink here where the scope has a regular file, or the reverse: a different kind of file, not a different set of lines",
    );
    reveal_strlit(
        "edited here since the last sync, and removed from the repo on another machine",
    );
    reveal_strlit("deleted here since the last sync");
    reveal_strlit(
        "deleted here since the last sync, and changed in the repo on another machine",
    );
    reveal_strlit("edited here, and changed in the repo on another machine");
    reveal_strlit(
        "edited here, and changed in the repo on another machine; the two changes combine",
    );
    reveal_strlit(
        "never synced here, and the repo has just added a file at this path that will not merge with it",
    );
    reveal_strlit("added on another machine");
    reveal_strlit("changed on another machine, and not edited here");
    reveal_strlit("removed on another machine");
    reveal_strlit("in home only; dotsync does not manage it");
    reveal_strlit("already up to date");
    reveal_strlit("not present");
    let a = reason_text(one);
    let b = reason_text(other);
    assert(a.len() == b.len());
}

/// What a local edit is called: by its kind where it changed that.
pub open spec fn edit_state(home: TreeValueView, tip: TreeValueView) -> FileState {
    if (home is Symlink) == (tip is Symlink) {
        FileState::EditedInHome
    } else {
        FileState::KindDiffersFromScope
    }
}

/// The state of a path whose home and tip both moved, differently.
pub open spec fn both_moved(last: Option<TreeValueView>, reconciles: bool) -> FileState {
    if reconciles {
        FileState::DivergedEditThatMerges
    } else if last is None {
        FileState::IncomingNewCollidesWithUntrackedHome
    } else {
        FileState::DivergedEdit
    }
}

/// The state of a path, from what each side holds there and from whether the
/// merge of home and tip resolves there.
pub open spec fn state_for(
    last: Option<TreeValueView>,
    home: Option<TreeValueView>,
    tip: Option<TreeValueView>,
    reconciles: bool,
) -> FileState {
    if home == tip {
        // Nothing to do, whoever got there first.
        if home is None {
            if last is None {
                FileState::AbsentEverywhere
            } else {
                FileState::RemovedEverywhere
            }
        } else if last is None {
            FileState::IncomingNewAlreadyMatchesHome
        } else if last == home {
            FileState::InSync
        } else {
            FileState::AlreadyApplied
        }
    } else if home == last {
        // Only the repo moved.
        if last is None {
            FileState::IncomingNew
        } else if tip is None {
            FileState::RemovedFromRepo
        } else {
            FileState::StaleNotYours
        }
    } else if home is None {
        if tip == last {
            FileState::DeletedInHome
        } else {
            FileState::DeletedInHomeTipAlsoChanged
        }
    } else if tip is None {
        if last is None {
            FileState::UntrackedInHome
        } else {
            FileState::EditedInHomeButRemovedFromRepo
        }
    } else if tip == last {
        edit_state(home->0, tip->0)
    } else {
        both_moved(last, reconciles)
    }
}

/// Home has drifted where it holds neither what was last synced nor what the
/// tip holds, unless dotsync has never known the path; and something is
/// incoming where home holds what was last synced and the tip does not.
pub proof fn law_state_groups(
    last: Option<TreeValueView>,
    home: Option<TreeValueView>,
    tip: Option<TreeValueView>,
    reconciles: bool,
)
    ensures
        drifted(state_for(last, home, tip, reconciles)) <==> home != last && home != tip && !(
        last is None && tip is None),
        incoming(state_for(last, home, tip, reconciles)) <==> home == last && tip != last,
        !(drifted(state_for(last, home, tip, reconciles)) && incoming(
            state_for(last, home, tip, reconciles),
        )),
{
}

/// A machine that is merely behind cannot revert another machine's work: where
/// home is what was last synced and the tip has moved on, a commit that is not
/// forced is refused.
pub proof fn law_merely_behind_is_refused(
    last: Option<TreeValueView>,
    home: Option<TreeValueView>,
    tip: Option<TreeValueView>,
    reconciles: bool,
)
    requires
        home == last,
        tip != last,
    ensures
        blocking(state_for(last, home, tip, reconciles)),
        !drifted(state_for(last, home, tip, reconciles)),
{
}

/// A commit is refused nowhere else but where two different new files meet and
/// do not merge.
pub proof fn law_refusals(
    last: Option<TreeValueView>,
    home: Option<TreeValueView>,
    tip: Option<TreeValueView>,
    reconciles: bool,
)
    ensures
        blocking(state_for(last, home, tip, reconciles)) <==> (home == last && tip != last) || (
        last is None && home is Some && tip is Some && home != tip && !reconciles),
{
}

/// Whether the merge reconciles a path matters only where both sides moved to
/// something different.
pub proof fn law_merge_is_asked_only_where_both_moved(
    last: Option<TreeValueView>,
    home: Option<TreeValueView>,
    tip: Option<TreeValueView>,
)
    ensures
        state_for(last, home, tip, true) != state_for(last, home, tip, false) <==> home is Some
            && tip is Some && home != tip && home != last && tip != last,
{
}

/// A state says what each side holds: what was last synced, what is in home, and
/// what the tip holds. No two of these can hold at once, so the sides have one
/// state only.
pub proof fn law_a_state_tells_what_each_side_holds(
    last: Option<TreeValueView>,
    home: Option<TreeValueView>,
    tip: Option<TreeValueView>,
    reconciles: bool,
)
    ensures
        match state_for(last, home, tip, reconciles) {
            FileState::AbsentEverywhere => last is None && home is None && tip is None,
            FileState::RemovedEverywhere => last is Some && home is None && tip is None,
            FileState::InSync => home is Some && home == last && tip == last,
            FileState::IncomingNewAlreadyMatchesHome => last is None && home is Some && tip == home,
            FileState::AlreadyApplied => last is Some && home is Some && home == tip && home
                != last,
            FileState::IncomingNew => last is None && home is None && tip is Some,
            FileState::StaleNotYours => last is Some && home == last && tip is Some && tip != last,
            FileState::RemovedFromRepo => last is Some && home == last && tip is None,
            FileState::DeletedInHome => last is Some && home is None && tip == last,
            FileState::DeletedInHomeTipAlsoChanged => last is Some && home is None && tip is Some
                && tip != last,
            FileState::UntrackedInHome => last is None && home is Some && tip is None,
            FileState::EditedInHomeButRemovedFromRepo => last is Some && home is Some && home
                != last && tip is None,
            FileState::EditedInHome => last is Some && tip == last && home is Some && home != last
                && (home->0 is Symlink <==> tip->0 is Symlink),
            FileState::KindDiffersFromScope => last is Some && tip == last && home is Some && !(
            home->0 is Symlink <==> tip->0 is Symlink),
            FileState::IncomingNewCollidesWithUntrackedHome => last is None && home is Some && tip
                is Some && home != tip && !reconciles,
            FileState::DivergedEdit => last is Some && home is Some && tip is Some && home != tip
                && home != last && tip != last && !reconciles,
            FileState::DivergedEditThatMerges => home is Some && tip is Some && home != tip && home
                != last && tip != last && reconciles,
        },
{
}

/// Which states are changes of this machine's own, which are incoming, which
/// refuse a commit that is not forced, and at which forcing one decides
/// something.
pub proof fn law_what_a_state_calls_for(state: FileState)
    ensures
        blocking(state) <==> incoming(state) || state
            == FileState::IncomingNewCollidesWithUntrackedHome,
        decided_by_force(state) <==> blocking(state) || state == FileState::DivergedEdit || state
            == FileState::DivergedEditThatMerges,
        incoming(state) <==> state == FileState::IncomingNew || state == FileState::StaleNotYours
            || state == FileState::RemovedFromRepo,
        !drifted(state) && !incoming(state) <==> state == FileState::AbsentEverywhere || state
            == FileState::RemovedEverywhere || state == FileState::InSync || state
            == FileState::AlreadyApplied || state == FileState::IncomingNewAlreadyMatchesHome
            || state == FileState::UntrackedInHome,
{
}

/// The view of an entry that may be missing.
pub open spec fn opt_ref(value: Option<&TreeValue>) -> Option<TreeValueView> {
    match value {
        Some(value) => Some(value@),
        None => None,
    }
}

fn edited_in_home(home: &TreeValue, tip: &TreeValue) -> (state: FileState)
    ensures
        state == edit_state(home@, tip@),
{
    let home_links = matches!(home, TreeValue::Symlink(_));
    let tip_links = matches!(tip, TreeValue::Symlink(_));
    if home_links == tip_links {
        FileState::EditedInHome
    } else {
        FileState::KindDiffersFromScope
    }
}

/// Classifies one path from the tree entry each side holds, plus the merge's
/// own answer about whether the two moving sides can be reconciled there.
pub fn classify(
    last_synced: Option<&TreeValue>,
    home: Option<&TreeValue>,
    tip: Option<&TreeValue>,
    merge_reconciles: bool,
) -> (state: FileState)
    ensures
        state == state_for(opt_ref(last_synced), opt_ref(home), opt_ref(tip), merge_reconciles),
{
    match (last_synced, home, tip) {
        (None, None, None) => FileState::AbsentEverywhere,
        (None, None, Some(_)) => FileState::IncomingNew,
        (None, Some(_), None) => FileState::UntrackedInHome,
        (None, Some(home), Some(tip)) => {
            if home.same(tip) {
                FileState::IncomingNewAlreadyMatchesHome
            } else if merge_reconciles {
                FileState::DivergedEditThatMerges
            } else {
                FileState::IncomingNewCollidesWithUntrackedHome
            }
        },
        (Some(_), None, None) => FileState::RemovedEverywhere,
        (Some(last), None, Some(tip)) => {
            if last.same(tip) {
                FileState::DeletedInHome
            } else {
                FileState::DeletedInHomeTipAlsoChanged
            }
        },
        (Some(last), Some(home), None) => {
            if last.same(home) {
                FileState::RemovedFromRepo
            } else {
                FileState::EditedInHomeButRemovedFromRepo
            }
        },
        (Some(last), Some(home), Some(tip)) => {
            let stayed = last.same(home);
            let tip_stayed = last.same(tip);
            if stayed && tip_stayed {
                FileState::InSync
            } else if stayed {
                FileState::StaleNotYours
            } else if tip_stayed {
                edited_in_home(home, tip)
            } else if home.same(tip) {
                FileState::AlreadyApplied
            } else if merge_reconciles {
                FileState::DivergedEditThatMerges
            } else {
                FileState::DivergedEdit
            }
        },
    }
}

/// One classified path together with the entries that home and the tip hold.
pub struct ClassifiedPath {
    pub state: FileState,
    pub home: Option<TreeValue>,
    pub tip: Option<TreeValue>,
}

impl ClassifiedPath {
    /// A copy.
    pub fn copy(&self) -> (copy: ClassifiedPath)
        ensures
            copy == *self,
    {
        ClassifiedPath {
            state: self.state,
            home: copy_opt(self.home.as_ref()),
            tip: copy_opt(self.tip.as_ref()),
        }
    }
}

fn copy_opt(value: Option<&TreeValue>) -> (copy: Option<TreeValue>)
    ensures
        match value {
            Some(value) => copy == Some(*value),
            None => copy is None,
        },
{
    match value {
        Some(value) => Some(value.copy()),
        None => None,
    }
}

/// What a tree holds, path by path.
pub type Entries = Vec<(FilePath, TreeValue)>;

/// How a path is classified across the trees.
pub open spec fn classification(
    mark: Seq<(FilePath, TreeValue)>,
    snapshot: Seq<(FilePath, TreeValue)>,
    head: Seq<(FilePath, TreeValue)>,
    unresolved: Seq<Components>,
    path: Components,
) -> ClassifiedPath {
    ClassifiedPath {
        state: state_for(
            opt_value(value_at(mark, path)),
            opt_value(value_at(snapshot, path)),
            opt_value(value_at(head, path)),
            !unresolved.contains(path),
        ),
        home: value_at(snapshot, path),
        tip: value_at(head, path),
    }
}

fn add_keys(domain: &mut Vec<FilePath>, entries: &Entries)
    requires
        sorted_paths(all_paths(old(domain)@)),
    ensures
        sorted_paths(all_paths(final(domain)@)),
        forall|p: Components| #[trigger]
            all_paths(final(domain)@).contains(p) <==> all_paths(old(domain)@).contains(p) || keys(
                entries@,
            ).contains(p),
        forall|p: Components| #[trigger]
            spelled(final(domain)@, p) == first_of(
                spelled(old(domain)@, p),
                spelled(entry_names(entries@), p),
            ),
{
    let ghost names = entry_names(entries@);
    let mut i: usize = 0;
    proof {
        lemma_take_all(names);
        assert forall|p: Components| #[trigger] spelled(domain@, p) == first_of(
            spelled(old(domain)@, p),
            spelled(names.take(0), p),
        ) by {
            lemma_nothing_spelled(p);
        }
    }
    while i < entries.len()
        invariant
            i <= entries.len(),
            sorted_paths(all_paths(domain@)),
            forall|p: Components| #[trigger]
                all_paths(domain@).contains(p) <==> all_paths(old(domain)@).contains(p) || keys(
                    entries@,
                ).take(i as int).contains(p),
            names == entry_names(entries@),
            forall|p: Components| #[trigger]
                spelled(domain@, p) == first_of(
                    spelled(old(domain)@, p),
                    spelled(names.take(i as int), p),
                ),
        decreases entries.len() - i,
    {
        let ghost before = domain@;
        insert_path(domain, entries[i].0.copy());
        proof {
            assert(names[i as int] == entries@[i as int].0);
            assert forall|p: Components| #[trigger] spelled(domain@, p) == first_of(
                spelled(old(domain)@, p),
                spelled(names.take(i + 1), p),
            ) by {
                lemma_spelled_step(names, i as int, p);
                assert(spelled(before, p) == first_of(
                    spelled(old(domain)@, p),
                    spelled(names.take(i as int), p),
                ));
            }
            let all = keys(entries@);
            assert(all[i as int] == entries@[i as int].0@);
            lemma_take_holds(all, i as int);
        }
        i += 1;
    }
    proof {
        lemma_take_all(keys(entries@));
        lemma_take_all(names);
    }
}

/// Whether every managed path of some trees is classified: in order, each once, as
/// the first tree that has it spells it.
pub open spec fn classifies(
    mark: Seq<(FilePath, TreeValue)>,
    snapshot: Seq<(FilePath, TreeValue)>,
    head: Seq<(FilePath, TreeValue)>,
    unresolved: Seq<Components>,
    classified: Seq<(FilePath, ClassifiedPath)>,
) -> bool {
    &&& sorted_paths(keys(classified))
    &&& forall|p: Components| #[trigger]
        keys(classified).contains(p) <==> keys(mark).contains(p) || keys(snapshot).contains(p)
            || keys(head).contains(p)
    &&& forall|i: int|
        0 <= i < classified.len() ==> (#[trigger] classified[i]).1 == classification(
            mark,
            snapshot,
            head,
            unresolved,
            classified[i].0@,
        )
    &&& forall|p: Components| #[trigger]
        spelled(entry_names(classified), p) == first_of(
            spelled(entry_names(mark), p),
            first_of(spelled(entry_names(snapshot), p), spelled(entry_names(head), p)),
        )
}

/// Whether a tree holds a value at a path.
pub open spec fn holds(
    tree: Seq<(FilePath, TreeValue)>,
    path: Components,
    value: Option<TreeValueView>,
) -> bool {
    match value {
        Some(value) => exists|i: int|
            0 <= i < tree.len() && (#[trigger] tree[i]).0@ == path && tree[i].1@ == value,
        None => forall|i: int| 0 <= i < tree.len() ==> (#[trigger] tree[i]).0@ != path,
    }
}

/// Every path that any side holds is classified, and no other. Where home holds
/// what was last synced and the tip does not, something is incoming; where home
/// holds neither what was last synced nor what the tip holds, a change of this
/// machine's own is there, unless no side but home knows the path; and otherwise
/// there is nothing to do.
pub proof fn law_every_path_is_classified_by_its_sides(
    mark: Seq<(FilePath, TreeValue)>,
    snapshot: Seq<(FilePath, TreeValue)>,
    head: Seq<(FilePath, TreeValue)>,
    unresolved: Seq<Components>,
    classified: Seq<(FilePath, ClassifiedPath)>,
    path: Components,
    last: Option<TreeValueView>,
    home: Option<TreeValueView>,
    tip: Option<TreeValueView>,
)
    requires
        classifies(mark, snapshot, head, unresolved, classified),
        sorted_paths(keys(mark)),
        sorted_paths(keys(snapshot)),
        sorted_paths(keys(head)),
        holds(mark, path, last),
        holds(snapshot, path, home),
        holds(head, path, tip),
    ensures
        last is Some || home is Some || tip is Some <==> exists|i: int|
            0 <= i < classified.len() && (#[trigger] classified[i]).0@ == path,
        forall|i: int|
            0 <= i < classified.len() && (#[trigger] classified[i]).0@ == path ==> {
                let state = classified[i].1.state;
                &&& opt_value(classified[i].1.home) == home
                &&& opt_value(classified[i].1.tip) == tip
                &&& (state == FileState::IncomingNew || state == FileState::StaleNotYours || state
                    == FileState::RemovedFromRepo) <==> home == last && tip != last
                &&& (state == FileState::InSync || state == FileState::AlreadyApplied || state
                    == FileState::IncomingNewAlreadyMatchesHome || state
                    == FileState::RemovedEverywhere) <==> home == tip
                &&& state == FileState::UntrackedInHome <==> last is None && tip is None
                &&& (state == FileState::DeletedInHome || state
                    == FileState::DeletedInHomeTipAlsoChanged) <==> home is None && last is Some
                    && tip is Some
                &&& state == FileState::DivergedEditThatMerges <==> home is Some && tip is Some
                    && home != tip && home != last && tip != last && !unresolved.contains(path)
                &&& state == state_for(last, home, tip, !unresolved.contains(path))
            },
{
    lemma_holds(mark, path, last);
    lemma_holds(snapshot, path, home);
    lemma_holds(head, path, tip);
    if exists|i: int| 0 <= i < classified.len() && (#[trigger] classified[i]).0@ == path {
        let i = choose|i: int| 0 <= i < classified.len() && (#[trigger] classified[i]).0@ == path;
        assert(keys(classified)[i] == path);
        assert(keys(classified).contains(path));
    }
    if keys(classified).contains(path) {
        let i = choose|i: int| 0 <= i < classified.len() && keys(classified)[i] == path;
        assert(classified[i].0@ == path);
    }
    assert forall|i: int| 0 <= i < classified.len() && (#[trigger] classified[i]).0@ == path implies {
        let state = classified[i].1.state;
        &&& opt_value(classified[i].1.home) == home
        &&& opt_value(classified[i].1.tip) == tip
        &&& (state == FileState::IncomingNew || state == FileState::StaleNotYours || state
            == FileState::RemovedFromRepo) <==> home == last && tip != last
        &&& (state == FileState::InSync || state == FileState::AlreadyApplied || state
            == FileState::IncomingNewAlreadyMatchesHome || state == FileState::RemovedEverywhere)
            <==> home == tip
        &&& state == FileState::UntrackedInHome <==> last is None && tip is None
        &&& (state == FileState::DeletedInHome || state == FileState::DeletedInHomeTipAlsoChanged)
            <==> home is None && last is Some && tip is Some
        &&& state == FileState::DivergedEditThatMerges <==> home is Some && tip is Some && home
            != tip && home != last && tip != last && !unresolved.contains(path)
        &&& state == state_for(last, home, tip, !unresolved.contains(path))
    } by {
        assert(keys(classified)[i] == path);
        assert(keys(classified).contains(path));
        assert(classified[i].1 == classification(mark, snapshot, head, unresolved, path));
    }
}

proof fn lemma_holds(
    tree: Seq<(FilePath, TreeValue)>,
    path: Components,
    value: Option<TreeValueView>,
)
    requires
        sorted_paths(keys(tree)),
        holds(tree, path, value),
    ensures
        opt_value(value_at(tree, path)) == value,
        value is Some <==> keys(tree).contains(path),
{
    lemma_value_at(tree, path);
    if value is Some {
        let i = choose|i: int|
            0 <= i < tree.len() && (#[trigger] tree[i]).0@ == path && tree[i].1@ == value->0;
        lemma_sorted_value(tree, i);
    } else if keys(tree).contains(path) {
        let i = choose|i: int| 0 <= i < tree.len() && keys(tree)[i] == path;
        assert(tree[i].0@ == path);
    }
}

/// Classifies every managed path across the trees: what was last synced, what
/// home holds, what the head holds, and the paths at which their merge did not
/// resolve.
pub fn classify_managed_trees(
    mark: &Entries,
    snapshot: &Entries,
    head: &Entries,
    unresolved: &Vec<FilePath>,
) -> (classified: Vec<(FilePath, ClassifiedPath)>)
    ensures
        sorted_paths(keys(classified@)),
        classifies(mark@, snapshot@, head@, all_paths(unresolved@), classified@),
{
    let mut domain: Vec<FilePath> = Vec::new();
    proof {
        assert forall|p: Components| #[trigger] spelled(domain@, p) is None by {
            lemma_spelled(domain@, p);
        }
    }
    add_keys(&mut domain, mark);
    add_keys(&mut domain, snapshot);
    add_keys(&mut domain, head);
    let mut classified: Vec<(FilePath, ClassifiedPath)> = Vec::new();
    let mut i: usize = 0;
    while i < domain.len()
        invariant
            i <= domain.len(),
            classified.len() == i,
            forall|k: int| 0 <= k < i ==> (#[trigger] classified@[k]).0 == domain@[k],
            forall|k: int|
                0 <= k < i ==> (#[trigger] classified@[k]).1 == classification(
                    mark@,
                    snapshot@,
                    head@,
                    all_paths(unresolved@),
                    classified@[k].0@,
                ),
        decreases domain.len() - i,
    {
        let path = &domain[i];
        let last = find(mark, path);
        let home = find(snapshot, path);
        let tip = find(head, path);
        let reconciles = !contains_path(unresolved, path);
        let entry = ClassifiedPath {
            state: classify(last, home, tip, reconciles),
            home: copy_opt(home),
            tip: copy_opt(tip),
        };
        classified.push((path.copy(), entry));
        i += 1;
    }
    proof {
        assert(keys(classified@) =~= all_paths(domain@));
        assert(entry_names(classified@) =~= domain@);
    }
    classified
}

/// The groups of states that a reader has to act on.
#[derive(Debug, Clone, Copy, PartialEq, Eq, Structural)]
pub enum StateGroup {
    Drift,
    Incoming,
}

/// Whether a state belongs to a group.
pub open spec fn in_group(group: StateGroup, state: FileState) -> bool {
    match group {
        StateGroup::Drift => drifted(state),
        StateGroup::Incoming => incoming(state),
    }
}

impl StateGroup {
    /// Whether a state belongs to the group.
    pub fn includes(self, state: FileState) -> (found: bool)
        ensures
            found == in_group(self, state),
    {
        match self {
            StateGroup::Drift => state.is_drift(),
            StateGroup::Incoming => state.is_incoming(),
        }
    }
}

/// The classified paths whose state is in a group, in the order they read in.
pub fn changed_paths(
    classified: &Vec<(FilePath, ClassifiedPath)>,
    group: StateGroup,
) -> (changed: Vec<(FilePath, ClassifiedPath)>)
    ensures
        changed@ == classified@.filter(|e: (FilePath, ClassifiedPath)| in_group(group, e.1.state)),
{
    let ghost keep = |e: (FilePath, ClassifiedPath)| in_group(group, e.1.state);
    let mut changed: Vec<(FilePath, ClassifiedPath)> = Vec::new();
    let mut i: usize = 0;
    proof {
        lemma_take_all(classified@);
        reveal(Seq::filter);
    }
    while i < classified.len()
        invariant
            i <= classified.len(),
            keep == |e: (FilePath, ClassifiedPath)| in_group(group, e.1.state),
            changed@ == classified@.take(i as int).filter(keep),
        decreases classified.len() - i,
    {
        proof {
            lemma_filter_step(classified@, keep, i as int);
        }
        if group.includes(classified[i].1.state) {
            changed.push((classified[i].0.copy(), classified[i].1.copy()));
        }
        i += 1;
    }
    proof {
        lemma_take_all(classified@);
    }
    changed
}

/// Where one path stands, for a caller asking about a path by name.
pub open spec fn named_state(
    classified: Seq<(FilePath, ClassifiedPath)>,
    path: Components,
) -> FileState {
    match value_at(classified, path) {
        Some(found) => found.state,
        None => FileState::AbsentEverywhere,
    }
}

/// Where one path stands. A path outside the classified set is a path nothing
/// knows about, which is a real answer rather than a missing one.
pub fn state_of(classified: &Vec<(FilePath, ClassifiedPath)>, path: &FilePath) -> (state: FileState)
    ensures
        state == named_state(classified@, path@),
{
    match find(classified, path) {
        Some(found) => found.state,
        None => FileState::AbsentEverywhere,
    }
}

} // verus!
