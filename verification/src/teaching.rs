//! What dotsync teaches at each of its stops: what it was doing, what it
//! expected, why it stopped, and what to do about it.
use vstd::prelude::*;
use vstd::string::*;
use crate::text::{cat3, cat5, list2, list3, list4, opt_str, texts, Text};

verus! {

/// The teaching block of a stop.
#[derive(Debug, Clone)]
pub struct Teaching {
    pub summary: String,
    pub what_dotsync_does: String,
    pub this_flow: String,
    pub expected: String,
    pub why_stopped: String,
    /// One invocation or decision per entry, in the order to try them.
    pub next_steps: Vec<String>,
}

/// A teaching block as contracts see it.
pub struct TeachingView {
    pub summary: Text,
    pub what_dotsync_does: Text,
    pub this_flow: Text,
    pub expected: Text,
    pub why_stopped: Text,
    pub next_steps: Seq<Text>,
}

impl View for Teaching {
    type V = TeachingView;

    open spec fn view(&self) -> TeachingView {
        TeachingView {
            summary: self.summary@,
            what_dotsync_does: self.what_dotsync_does@,
            this_flow: self.this_flow@,
            expected: self.expected@,
            why_stopped: self.why_stopped@,
            next_steps: texts(self.next_steps@),
        }
    }
}

impl Teaching {
    /// A teaching block from its parts.
    pub fn new(
        summary: String,
        what_dotsync_does: String,
        this_flow: String,
        expected: String,
        why_stopped: String,
        next_steps: Vec<String>,
    ) -> (teaching: Teaching)
        ensures
            teaching@ == (TeachingView {
                summary: summary@,
                what_dotsync_does: what_dotsync_does@,
                this_flow: this_flow@,
                expected: expected@,
                why_stopped: why_stopped@,
                next_steps: texts(next_steps@),
            }),
    {
        Teaching { summary, what_dotsync_does, this_flow, expected, why_stopped, next_steps }
    }
}

pub const THE_SCOPE_GRAPH: &'static str = "Dotsync stores dotfiles in a DAG of scopes, and a machine holds everything its own scope holds plus everything the scopes above it hold. Every scope is a branch in dotsync's hidden repo, created once, where its parents are.";

pub const SYNC_CONFLICT_SUMMARY_ONE: &'static str = "home and this machine's scope both changed the same file";

pub const SYNC_CONFLICT_SUMMARY_MANY: &'static str = "home and this machine's scope both changed the same files";

pub const SYNC_CONFLICT_WHAT: &'static str = "Dotsync keeps its hidden repo as the source of truth for your home-directory config, and a sync merges what the scopes hold now with whatever you have edited in home since the last one. An edit dotsync can merge around is carried across the sync; nothing has to be committed first.";

pub const SYNC_CONFLICT_FLOW: &'static str = "This sync flow merged three versions of every managed file: the version this machine last synced, the version in home now, and the version the scope holds now.";

pub const SYNC_CONFLICT_EXPECTED: &'static str = "It expects at most one of home and the scope to have changed each file — or, where both did, to have changed different lines of it.";

pub const SYNC_CONFLICT_WHY: &'static str = "Both sides changed the same part of the same file, so there is no merged version dotsync can work out on its own. Nothing was written: home is untouched, and the incoming changes to every other file are held back with it, because home is derived from one commit and a home built half from each side would make the next run read those incoming changes as edits of yours undoing them.";

pub const SYNC_CONFLICT_STEP_1: &'static str = "read the three versions of each file below, decide what the file should hold, and write that into the file at its real path in home.";

pub const SYNC_CONFLICT_STEP_2_1: &'static str = "then record your decision on a scope: `dotsync commit ";

pub const SYNC_CONFLICT_STEP_2_2: &'static str = " -m \"message\" -- <path>`. That is what makes it everybody's version, and it leaves this sync nothing left to merge.";

pub const SYNC_CONFLICT_STEP_3: &'static str = "or, if the version the scope already holds is the one you want, run `dotsync discard <path>` and let the sync finish. That throws away what is in home at the paths you name and nothing else.";

pub const CASCADE_PAUSED_SUMMARY_ONE_1: &'static str = "paused at scope `";

pub const CASCADE_PAUSED_SUMMARY_ONE_2: &'static str = "`: two histories changed the same file differently";

pub const CASCADE_PAUSED_SUMMARY_MANY_1: &'static str = "paused at scope `";

pub const CASCADE_PAUSED_SUMMARY_MANY_2: &'static str = "`: two histories changed the same files differently";

pub const CASCADE_PAUSED_WHAT: &'static str = "Dotsync layers scopes down to each machine: a change recorded on one scope is merged into the scopes below it, and a change another machine published is merged into what this one holds. Both of those are the same merge, and it runs over the whole scope graph on every command that writes.";

pub const CASCADE_PAUSED_FLOW_1: &'static str = "This run was merging everything that reaches `";

pub const CASCADE_PAUSED_FLOW_2: &'static str = "` — what this machine has, what other machines have published, and what its parent scopes now hold — into one new version of it.";

pub const CASCADE_PAUSED_EXPECTED: &'static str = "It expects at most one of those histories to have changed each file, or, where more than one did, to have changed different lines of it.";

pub const CASCADE_PAUSED_WHY_NONE: &'static str = "More than one of them changed the same part of the same file, so there is no merged version dotsync can work out on its own. Nothing was written: the scope's head has not moved and no other machine can see this state.";

pub const CASCADE_PAUSED_WHY_SOME_1: &'static str = "More than one of them changed the same part of the same file, so there is no merged version dotsync can work out on its own. Nothing was written: the scope's head has not moved and no other machine can see this state.\n\nThis machine is `";

pub const CASCADE_PAUSED_WHY_SOME_2: &'static str = "`, which does not descend from `";

pub const CASCADE_PAUSED_WHY_SOME_3: &'static str = "`, so what you are resolving is not this machine's config — the file in home is a scratch buffer for `";

pub const CASCADE_PAUSED_WHY_SOME_4: &'static str = "`'s merge. `";

pub const CASCADE_PAUSED_WHY_SOME_5: &'static str = "`'s own version comes back after `dotsync continue` or `dotsync abort`.";

pub const CASCADE_PAUSED_STEP_1: &'static str = "read the versions of each file below, decide what it should hold, and write that into the file at its real path in home; take out any marker lines you paste in.";

pub const CASCADE_PAUSED_STEP_2: &'static str = "run `dotsync continue` from the same machine to record your decision and finish converging. Leaving a file exactly as it is says you decided on the version already there.";

pub const CASCADE_PAUSED_STEP_3: &'static str = "or run `dotsync abort` from the same machine to discard it; that reverts the conflicted files in home to this machine's scope state, so save anything you want to keep outside home first.";

pub const UNRESOLVED_CONFLICT_SUMMARY: &'static str = "conflict markers left in the resolution";

pub const UNRESOLVED_CONFLICT_WHAT: &'static str = "Dotsync records a home edit on one scope, then cascades that scope through descendant scope branches so every machine receives the right final config. Where two branches changed one file differently, the cascade pauses and asks you for the merged contents.";

pub const UNRESOLVED_CONFLICT_FLOW: &'static str = "This continue flow reads each conflicted file back out of your home directory and records what it finds there as the resolution.";

pub const UNRESOLVED_CONFLICT_EXPECTED: &'static str = "It expects to find config: whatever you decided the file should hold.";

pub const UNRESOLVED_CONFLICT_WHY_1: &'static str = "The file below still has conflict markers in it, so it is a resolution somebody stopped half way through. Recorded as the merged contents they would cascade into every scope below `";

pub const UNRESOLVED_CONFLICT_WHY_2: &'static str = "` and every other machine would then sync `<<<<<<<` into its live config.";

pub const UNRESOLVED_CONFLICT_STEP_1_1: &'static str = "the versions to choose between are the ones the pause printed; `dotsync view --scope ";

pub const UNRESOLVED_CONFLICT_STEP_1_2: &'static str = " --file ";

pub const UNRESOLVED_CONFLICT_STEP_1_3: &'static str = "` prints the one on the scope again.";

pub const UNRESOLVED_CONFLICT_STEP_2: &'static str = "take the marker lines out, leave the contents you want, then run `dotsync continue`.";

pub const UNRESOLVED_CONFLICT_STEP_3: &'static str = "or run `dotsync abort` to discard the merge; that reverts the conflicted files in home to this machine's scope state, so save anything you want to keep outside home first.";

pub const UNRESOLVED_CONFLICT_STEP_4: &'static str = "if the file is genuinely meant to contain lines of `<<<<<<<` and `>>>>>>>`, `continue` cannot record it: abort, and commit it to the scope directly instead.";

pub const PAUSED_IN_PROGRESS_SUMMARY: &'static str = "paused cascade in progress";

pub const PAUSED_IN_PROGRESS_WHAT: &'static str = "Dotsync records a home edit on one scope, then cascades that scope through descendant scope branches so every machine receives the right final config.";

pub const PAUSED_IN_PROGRESS_FLOW: &'static str = "This commit flow was about to start a new scoped commit, but a previous cascade is still paused for conflict resolution.";

pub const PAUSED_IN_PROGRESS_EXPECTED: &'static str = "It expects exactly one cascade to be active at a time so commit history, conflict resolution, and home sync state stay aligned.";

pub const PAUSED_IN_PROGRESS_WHY: &'static str = "Dotsync stopped before fetching, committing, or syncing because starting another commit would hide the real paused-cascade task and may mutate unrelated scope state.";

pub const PAUSED_IN_PROGRESS_STEP_1: &'static str = "edit each conflicted file at its real path in home so it holds the merged contents you want; take out any marker lines you paste in.";

pub const PAUSED_IN_PROGRESS_STEP_2: &'static str = "run `dotsync continue` to finish the paused cascade.";

pub const PAUSED_IN_PROGRESS_STEP_3: &'static str = "or run `dotsync abort` to discard the paused cascade; that reverts the conflicted files in home to this machine's scope state.";

pub const PAUSED_IN_PROGRESS_STEP_4: &'static str = "after `dotsync continue` succeeds, rerun the new commit if it is still needed.";

pub const STALE_PATHS_SUMMARY_ONE: &'static str = "cannot commit a file this machine has not changed";

pub const STALE_PATHS_SUMMARY_MANY: &'static str = "cannot commit files this machine has not changed";

pub const STALE_PATHS_WHAT: &'static str = "Dotsync records the home files you name onto a scope branch and cascades them to every machine sharing it. Plain `dotsync` goes the other way, writing what the scopes hold back into home.";

pub const STALE_PATHS_FLOW: &'static str = "This commit flow reads each path you named across three sides: what dotsync last synced to this machine, what is in home now, and what the scopes hold now.";

pub const STALE_PATHS_EXPECTED: &'static str = "It expects the paths you name to hold a change you made in home since the last sync.";

pub const STALE_PATHS_WHY: &'static str = "Recording these would put older bytes back on the scope and cascade them, silently reverting whoever published the change that is already there.";

pub const STALE_PATHS_STEP_1: &'static str = "run `dotsync` to bring this machine up to date; the incoming change is written into home, and an incoming deletion removes the file.";

pub const STALE_PATHS_STEP_2: &'static str = "then edit the file in home if you still want a change of your own, and commit it. To bring back a file another machine deleted, recreate it in home after syncing and commit that.";

pub const STALE_PATHS_STEP_3_1: &'static str = "there is no way to skip the middle step: a commit of home's older bytes onto `";

pub const STALE_PATHS_STEP_3_2: &'static str = "` is the revert, so making it deliberately means syncing, writing what you want, and committing that.";

pub const NOTHING_TO_DISCARD_SUMMARY_ONE: &'static str = "there is nothing of yours to discard there";

pub const NOTHING_TO_DISCARD_SUMMARY_MANY: &'static str = "there is nothing of yours to discard at those paths";

pub const NOTHING_TO_DISCARD_WHAT: &'static str = "Dotsync writes what the scopes hold into your home directory, and carries a file you have edited since across each sync rather than overwriting it. That edit stays yours until you commit it to a scope — or decide against it.";

pub const NOTHING_TO_DISCARD_FLOW: &'static str = "This discard flow throws away what home holds at the paths you name and writes the scope's version of them instead.";

pub const NOTHING_TO_DISCARD_EXPECTED: &'static str = "It expects each path you name to be one of the changes `dotsync status` lists.";

pub const NOTHING_TO_DISCARD_WHY: &'static str = "Dotsync wrote nothing. Discarding is the one thing it does that cannot be undone, so a path it has nothing to discard at is a mistyped path far more often than it is a change of mind.";

pub const NOTHING_TO_DISCARD_STEP_1: &'static str = "run `dotsync status` to see the changes there are, and name one of those.";

pub const NOTHING_TO_DISCARD_STEP_2: &'static str = "to record a change instead of discarding it, run `dotsync commit <scope> -m \"message\" -- <paths...>`.";

pub const INVALID_SCOPE_SUMMARY: &'static str = "invalid scope";

pub const INVALID_SCOPE_WHAT: &'static str = "Dotsync stores dotfiles in a scope DAG so shared config can live on shared ancestor scopes and machine-specific config can stay isolated on leaf scopes.";

pub const INVALID_SCOPE_FLOW: &'static str = "This flow resolves the scope you named against the scope graph, which dotsync reads off its own repo: every scope is a branch, created once and never moved.";

pub const INVALID_SCOPE_EXPECTED: &'static str = "It expects the scope you name to be one of them.";

pub const INVALID_SCOPE_WHY: &'static str = "Dotsync stopped because there is no such scope: it can neither place a change on one nor show you what one holds.";

pub const INVALID_SCOPE_STEP_1: &'static str = "run `dotsync view` to list the scopes that do exist.";

pub const INVALID_SCOPE_STEP_2: &'static str = "then name one of those. For a commit, pick the root-est appropriate ancestor scope that should own the change.";

pub const NOT_REGULAR_SUMMARY: &'static str = "that is not a regular file";

pub const NOT_REGULAR_WHAT: &'static str = "Dotsync records the bytes it finds at a path and writes those same bytes back to that path on every machine sharing the scope.";

pub const NOT_REGULAR_FLOW: &'static str = "This flow read your home directory to see what each managed path holds now.";

pub const NOT_REGULAR_EXPECTED: &'static str = "It expects every path it reads to be a regular file, or a link to one.";

pub const NOT_REGULAR_WHY: &'static str = "There are no bytes to read: a fifo, a socket or a device is a thing to talk to, not a thing to copy. Dotsync stops rather than opening it, because opening one waits forever for something that is never going to write to it.";

pub const NOT_REGULAR_STEP_1: &'static str = "leave it out of the commit, or move it out of the directory you named. A directory selection steps around one on its own and says so.";

pub const NOT_REGULAR_STEP_2: &'static str = "if this path is one dotsync already tracks, put the real file back — or commit the deletion once it is gone.";

pub const FILE_NOT_ON_SCOPE_SUMMARY: &'static str = "that file is not on that scope";

pub const FILE_NOT_ON_SCOPE_WHAT: &'static str = "Dotsync stores dotfiles in a scope DAG, and a file lives on the scope it was committed to. Every scope below that one inherits it through the cascade, so the same file is visible on many scopes and absent from the ones above it.";

pub const FILE_NOT_ON_SCOPE_FLOW: &'static str = "This view flow reads the file out of the tree that one scope holds.";

pub const FILE_NOT_ON_SCOPE_EXPECTED: &'static str = "It expects that scope to hold the file — the scope it was committed to, or one below it.";

pub const FILE_NOT_ON_SCOPE_WHY: &'static str = "Dotsync stopped rather than printing nothing: empty output would read exactly like an empty file.";

pub const FILE_NOT_ON_SCOPE_STEP_1: &'static str = "run `dotsync view --file <path>` to see which scopes hold it.";

pub const FILE_NOT_ON_SCOPE_STEP_2: &'static str = "run `dotsync view --scope <scope>` to see what that scope does hold.";

pub const UNREACHABLE_SUMMARY: &'static str = "could not reach the remote";

pub const UNREACHABLE_WHAT: &'static str = "Dotsync keeps your config in a hidden repo and shares it between your machines through a git remote, so every machine starts from what the others have already published.";

pub const UNREACHABLE_FLOW: &'static str = "This init flow clones that remote into the hidden repo, works out which scopes this machine belongs to, and syncs them into home.";

pub const UNREACHABLE_EXPECTED: &'static str = "It expects the remote URL you gave it to be reachable from this machine now.";

pub const UNREACHABLE_WHY: &'static str = "Dotsync stopped rather than starting from an empty history: scopes created here would collide with the ones already on the remote the first time this machine reached it.";

pub const UNREACHABLE_STEP_1: &'static str = "check the remote URL, this machine's network, and your credentials for that remote.";

pub const UNREACHABLE_STEP_2: &'static str = "then run `dotsync init <remote-url>` again.";

pub const NOT_INITIALIZED_SUMMARY: &'static str = "not initialized";

pub const NOT_INITIALIZED_WHAT: &'static str = "Dotsync keeps your config in a hidden repo at ~/.local/share/dotsync/repo and syncs the scopes this machine belongs to into your home directory. Every command works against that repo.";

pub const NOT_INITIALIZED_FLOW: &'static str = "This flow opened that repo to find out what this machine's scopes hold.";

pub const NOT_INITIALIZED_EXPECTED: &'static str = "It expects `dotsync init <remote-url>` to have been run in this home directory already, which is what creates the repo.";

pub const NOT_INITIALIZED_WHY: &'static str = "There is nothing to compare your home directory against, so dotsync cannot answer for it.";

pub const NOT_INITIALIZED_STEP_1: &'static str = "run `dotsync init <remote-url>` from this home directory. The remote URL is the git remote that stores your dotsync repo.";

pub const NOT_INITIALIZED_STEP_2_1: &'static str = "then rerun `";

pub const NOT_INITIALIZED_STEP_2_2: &'static str = "`.";

pub const REPO_EXISTS_SUMMARY: &'static str = "already initialized";

pub const REPO_EXISTS_WHAT: &'static str = "Dotsync keeps your config in a hidden repo at ~/.local/share/dotsync/repo, created once per machine by `dotsync init` and used by every command after that.";

pub const REPO_EXISTS_FLOW: &'static str = "This init flow clones the remote into that repo and works out which scopes this machine belongs to.";

pub const REPO_EXISTS_EXPECTED: &'static str = "It expects to be the thing that creates the repo, so it refuses to run over one that exists.";

pub const REPO_EXISTS_WHY: &'static str = "Cloning over an existing repo would discard whatever this machine has committed but not published.";

pub const REPO_EXISTS_STEP_1: &'static str = "run `dotsync` to sync this machine, which is what `init` would have finished by doing.";

pub const REPO_EXISTS_STEP_2: &'static str = "run `dotsync status` to see what this machine has changed, and `dotsync view` to see the scopes it knows about.";

pub const REPO_EXISTS_STEP_3: &'static str = "to point this machine at a different remote, move the existing repo aside by hand first — dotsync has no command for that yet.";

pub const NO_SUCH_PARENT_SUMMARY: &'static str = "that scope is not in the repo";

pub const NO_SUCH_PARENT_FLOW: &'static str = "This flow was about to create a scope, hanging it off the scopes you named.";

pub const NO_SUCH_PARENT_EXPECTED: &'static str = "It expects every parent you name to be a scope this repo already has, because a scope is created where its parents are and cannot be moved afterwards.";

pub const NO_SUCH_PARENT_WHY: &'static str = "A scope hung off a name nothing answers to would receive nothing and reach nothing.";

pub const NO_SUCH_PARENT_STEP_1: &'static str = "run `dotsync view` to see the scopes there are.";

pub const NO_SUCH_PARENT_STEP_2: &'static str = "then name the one this config should come from: the root-est scope whose machines should all share it.";

pub const NO_SUCH_PARENT_STEP_3: &'static str = "to create the parent itself first, run `dotsync create-scope <name> --parent <scope>`.";

pub const PARENT_REQUIRED_SUMMARY: &'static str = "say where this scope hangs";

pub const PARENT_REQUIRED_FLOW: &'static str = "This flow was about to create a scope, and a scope is created where its parents are.";

pub const PARENT_REQUIRED_EXPECTED: &'static str = "It expects at least one `--parent`, because that is what decides which config this scope receives and which machines a change on it reaches.";

pub const PARENT_REQUIRED_WHY: &'static str = "Nothing else says it. A hostname cannot tell a `home-linux` from a `work-linux`, and the graph is append-only, so a scope put in the wrong place cannot be moved afterwards — this is the only moment the answer can be given.";

pub const PARENT_REQUIRED_STEP_1: &'static str = "run `dotsync view` on a machine that is already set up to see the scopes there are.";

pub const PARENT_REQUIRED_STEP_2_1: &'static str = "then name the one this config should come from: `--parent <scope>`, or several for a `";

pub const PARENT_REQUIRED_STEP_2_2: &'static str = "` that inherits from more than one.";

pub const SHARED_SCOPE_SUMMARY: &'static str = "that scope is shared with other machines";

pub const SHARED_SCOPE_FLOW: &'static str = "This init flow was about to adopt the scope named after this machine's hostname as the scope only this machine holds.";

pub const SHARED_SCOPE_EXPECTED: &'static str = "It expects that scope to be a leaf: nothing else hanging off it, so nothing it holds reaches anywhere else.";

pub const SHARED_SCOPE_WHY_1: &'static str = "`";

pub const SHARED_SCOPE_WHY_2: &'static str = "` is what `";

pub const SHARED_SCOPE_WHY_3: &'static str = "` inherit from, so config committed to it would reach them as well — which is the opposite of what a machine's own scope is for.";

pub const SHARED_SCOPE_STEP_1: &'static str = "set DOTSYNC_HOSTNAME to a name that is this machine's alone, then run `dotsync init <remote-url> --parent <scope>` again.";

pub const SHARED_SCOPE_STEP_2: &'static str = "run `dotsync view` to see which scopes exist and what hangs off them.";

pub const ALREADY_PLACED_SUMMARY: &'static str = "this machine's scope already exists";

pub const ALREADY_PLACED_FLOW: &'static str = "This init flow looked for the scope named after this machine's hostname, and found it.";

pub const ALREADY_PLACED_EXPECTED: &'static str = "It expects to be told where to hang a scope it is creating, and nothing when it is adopting one that exists.";

pub const ALREADY_PLACED_WHY: &'static str = "Where a scope hangs was decided when it was created, and the graph is append-only, so `--parent` here could only be ignored or wrong.";

pub const ALREADY_PLACED_STEP_1: &'static str = "run `dotsync init <remote-url>` without `--parent` to adopt this machine's scope as it stands.";

pub const ALREADY_PLACED_STEP_2: &'static str = "run `dotsync view` to see where it hangs.";

pub const MACHINE_SCOPE_MISSING_SUMMARY: &'static str = "this machine has no scope";

pub const MACHINE_SCOPE_MISSING_FLOW: &'static str = "This flow looked for the scope named after this machine's hostname, which is the one this machine syncs into home.";

pub const MACHINE_SCOPE_MISSING_EXPECTED: &'static str = "It expects that scope to be in the repo: `dotsync init` creates it when the machine joins.";

pub const MACHINE_SCOPE_MISSING_WHY: &'static str = "Without it there is nothing that says what belongs on this machine, so there is nothing to sync, and nowhere to record a change of its own.";

pub const MACHINE_SCOPE_MISSING_STEP_1: &'static str = "run `dotsync view` to see the scopes there are.";

pub const MACHINE_SCOPE_MISSING_STEP_2_1: &'static str = "give this machine a scope again with `dotsync create-scope ";

pub const MACHINE_SCOPE_MISSING_STEP_2_2: &'static str = " --parent <the scope its config should come from>`.";

pub const MACHINE_SCOPE_MISSING_STEP_3_NONE: &'static str = "this repo has no scopes at all, so there is nothing to hang one off — `dotsync init <remote-url>` against the remote that has them.";

pub const MACHINE_SCOPE_MISSING_STEP_3_SOME_1: &'static str = "if you do not know which, `dotsync create-scope ";

pub const MACHINE_SCOPE_MISSING_STEP_3_SOME_2: &'static str = " --parent ";

pub const MACHINE_SCOPE_MISSING_STEP_3_SOME_3: &'static str = "` hangs it off the root scope: everything every machine shares, and nothing else.";

pub const MACHINE_SCOPE_MISSING_STEP_4: &'static str = "if this machine is meant to be called something else, set DOTSYNC_HOSTNAME and rerun.";

pub const NAME_TAKEN_SUMMARY: &'static str = "that name is taken";

pub const NAME_TAKEN_FLOW: &'static str = "This flow was about to create a scope, which means creating a branch of that name in dotsync's repo.";

pub const NAME_TAKEN_EXPECTED: &'static str = "It expects the name to be free, on this machine and on the remote.";

pub const NAME_TAKEN_WHY_1: &'static str = "Something already answers to `";

pub const NAME_TAKEN_WHY_2: &'static str = "` — a scope somebody created, or a branch pushed by something that is not dotsync. Writing over it would take it away from whoever is using it.";

pub const NAME_TAKEN_STEP_1: &'static str = "run `dotsync view` to see whether it is already a scope, in which case there is nothing to create.";

pub const NAME_TAKEN_STEP_2: &'static str = "otherwise pick another name.";

pub const PARENTS_DISAGREE_SUMMARY: &'static str = "those parent scopes disagree";

pub const PARENTS_DISAGREE_FLOW: &'static str = "This flow was about to create a scope holding everything its parents hold, which for more than one parent means merging what they hold.";

pub const PARENTS_DISAGREE_EXPECTED: &'static str = "It expects the parents to agree about every file they share, or to have changed different lines of it.";

pub const PARENTS_DISAGREE_WHY_1: &'static str = "The new scope's first commit would be a conflict in ";

pub const PARENTS_DISAGREE_WHY_2: &'static str = " that nobody asked for and no command is waiting to resolve.";

pub const PARENTS_DISAGREE_STEP_1: &'static str = "run `dotsync view --file <path>` to see which scopes hold the file and what each of them says.";

pub const PARENTS_DISAGREE_STEP_2: &'static str = "commit one agreed version to a scope both parents inherit from, let it cascade, then create the scope.";

pub const PARENTS_DISAGREE_STEP_3: &'static str = "or create the scope under one parent for now.";

/// What a sync says that stopped because home and the scope changed one file.
pub open spec fn sync_conflict_teaching(scope: Text, count: nat) -> TeachingView {
    TeachingView {
        summary: if count == 1 { SYNC_CONFLICT_SUMMARY_ONE@ } else { SYNC_CONFLICT_SUMMARY_MANY@ },
        what_dotsync_does: SYNC_CONFLICT_WHAT@,
        this_flow: SYNC_CONFLICT_FLOW@,
        expected: SYNC_CONFLICT_EXPECTED@,
        why_stopped: SYNC_CONFLICT_WHY@,
        next_steps: seq![SYNC_CONFLICT_STEP_1@, SYNC_CONFLICT_STEP_2_1@ + scope + SYNC_CONFLICT_STEP_2_2@, SYNC_CONFLICT_STEP_3@],
    }
}

/// What a run says that stopped at a merge of scopes.
pub open spec fn cascade_paused_teaching(scope: Text, borrowed_from: Option<Text>, count: nat) -> TeachingView {
    TeachingView {
        summary: if count == 1 { CASCADE_PAUSED_SUMMARY_ONE_1@ + scope + CASCADE_PAUSED_SUMMARY_ONE_2@ } else { CASCADE_PAUSED_SUMMARY_MANY_1@ + scope + CASCADE_PAUSED_SUMMARY_MANY_2@ },
        what_dotsync_does: CASCADE_PAUSED_WHAT@,
        this_flow: CASCADE_PAUSED_FLOW_1@ + scope + CASCADE_PAUSED_FLOW_2@,
        expected: CASCADE_PAUSED_EXPECTED@,
        why_stopped: match borrowed_from { None => CASCADE_PAUSED_WHY_NONE@, Some(borrowed_from) => CASCADE_PAUSED_WHY_SOME_1@ + borrowed_from + CASCADE_PAUSED_WHY_SOME_2@ + scope + CASCADE_PAUSED_WHY_SOME_3@ + scope + CASCADE_PAUSED_WHY_SOME_4@ + borrowed_from + CASCADE_PAUSED_WHY_SOME_5@ },
        next_steps: seq![CASCADE_PAUSED_STEP_1@, CASCADE_PAUSED_STEP_2@, CASCADE_PAUSED_STEP_3@],
    }
}

/// What `continue` says of a resolution that still holds conflict markers.
pub open spec fn unresolved_conflict_teaching(scope: Text, first: Text) -> TeachingView {
    TeachingView {
        summary: UNRESOLVED_CONFLICT_SUMMARY@,
        what_dotsync_does: UNRESOLVED_CONFLICT_WHAT@,
        this_flow: UNRESOLVED_CONFLICT_FLOW@,
        expected: UNRESOLVED_CONFLICT_EXPECTED@,
        why_stopped: UNRESOLVED_CONFLICT_WHY_1@ + scope + UNRESOLVED_CONFLICT_WHY_2@,
        next_steps: seq![UNRESOLVED_CONFLICT_STEP_1_1@ + scope + UNRESOLVED_CONFLICT_STEP_1_2@ + first + UNRESOLVED_CONFLICT_STEP_1_3@, UNRESOLVED_CONFLICT_STEP_2@, UNRESOLVED_CONFLICT_STEP_3@, UNRESOLVED_CONFLICT_STEP_4@],
    }
}

/// What a commit says that meets a cascade still paused.
pub open spec fn paused_in_progress_teaching() -> TeachingView {
    TeachingView {
        summary: PAUSED_IN_PROGRESS_SUMMARY@,
        what_dotsync_does: PAUSED_IN_PROGRESS_WHAT@,
        this_flow: PAUSED_IN_PROGRESS_FLOW@,
        expected: PAUSED_IN_PROGRESS_EXPECTED@,
        why_stopped: PAUSED_IN_PROGRESS_WHY@,
        next_steps: seq![PAUSED_IN_PROGRESS_STEP_1@, PAUSED_IN_PROGRESS_STEP_2@, PAUSED_IN_PROGRESS_STEP_3@, PAUSED_IN_PROGRESS_STEP_4@],
    }
}

/// What a commit says of paths that this machine did not change.
pub open spec fn stale_paths_teaching(scope: Text, count: nat) -> TeachingView {
    TeachingView {
        summary: if count == 1 { STALE_PATHS_SUMMARY_ONE@ } else { STALE_PATHS_SUMMARY_MANY@ },
        what_dotsync_does: STALE_PATHS_WHAT@,
        this_flow: STALE_PATHS_FLOW@,
        expected: STALE_PATHS_EXPECTED@,
        why_stopped: STALE_PATHS_WHY@,
        next_steps: seq![STALE_PATHS_STEP_1@, STALE_PATHS_STEP_2@, STALE_PATHS_STEP_3_1@ + scope + STALE_PATHS_STEP_3_2@],
    }
}

/// What `discard` says of paths that hold no change of this machine's own.
pub open spec fn nothing_to_discard_teaching(count: nat) -> TeachingView {
    TeachingView {
        summary: if count == 1 { NOTHING_TO_DISCARD_SUMMARY_ONE@ } else { NOTHING_TO_DISCARD_SUMMARY_MANY@ },
        what_dotsync_does: NOTHING_TO_DISCARD_WHAT@,
        this_flow: NOTHING_TO_DISCARD_FLOW@,
        expected: NOTHING_TO_DISCARD_EXPECTED@,
        why_stopped: NOTHING_TO_DISCARD_WHY@,
        next_steps: seq![NOTHING_TO_DISCARD_STEP_1@, NOTHING_TO_DISCARD_STEP_2@],
    }
}

/// What a command says of a scope name that no scope has.
pub open spec fn invalid_scope_teaching() -> TeachingView {
    TeachingView {
        summary: INVALID_SCOPE_SUMMARY@,
        what_dotsync_does: INVALID_SCOPE_WHAT@,
        this_flow: INVALID_SCOPE_FLOW@,
        expected: INVALID_SCOPE_EXPECTED@,
        why_stopped: INVALID_SCOPE_WHY@,
        next_steps: seq![INVALID_SCOPE_STEP_1@, INVALID_SCOPE_STEP_2@],
    }
}

/// What a run says of a path in home that is no regular file.
pub open spec fn not_regular_teaching() -> TeachingView {
    TeachingView {
        summary: NOT_REGULAR_SUMMARY@,
        what_dotsync_does: NOT_REGULAR_WHAT@,
        this_flow: NOT_REGULAR_FLOW@,
        expected: NOT_REGULAR_EXPECTED@,
        why_stopped: NOT_REGULAR_WHY@,
        next_steps: seq![NOT_REGULAR_STEP_1@, NOT_REGULAR_STEP_2@],
    }
}

/// What `view` says of a file that a scope does not hold.
pub open spec fn file_not_on_scope_teaching() -> TeachingView {
    TeachingView {
        summary: FILE_NOT_ON_SCOPE_SUMMARY@,
        what_dotsync_does: FILE_NOT_ON_SCOPE_WHAT@,
        this_flow: FILE_NOT_ON_SCOPE_FLOW@,
        expected: FILE_NOT_ON_SCOPE_EXPECTED@,
        why_stopped: FILE_NOT_ON_SCOPE_WHY@,
        next_steps: seq![FILE_NOT_ON_SCOPE_STEP_1@, FILE_NOT_ON_SCOPE_STEP_2@],
    }
}

/// What `init` says of a remote that it could not reach.
pub open spec fn unreachable_teaching() -> TeachingView {
    TeachingView {
        summary: UNREACHABLE_SUMMARY@,
        what_dotsync_does: UNREACHABLE_WHAT@,
        this_flow: UNREACHABLE_FLOW@,
        expected: UNREACHABLE_EXPECTED@,
        why_stopped: UNREACHABLE_WHY@,
        next_steps: seq![UNREACHABLE_STEP_1@, UNREACHABLE_STEP_2@],
    }
}

/// What a run says on a machine that `init` was not run on.
pub open spec fn not_initialized_teaching(rerun: Text) -> TeachingView {
    TeachingView {
        summary: NOT_INITIALIZED_SUMMARY@,
        what_dotsync_does: NOT_INITIALIZED_WHAT@,
        this_flow: NOT_INITIALIZED_FLOW@,
        expected: NOT_INITIALIZED_EXPECTED@,
        why_stopped: NOT_INITIALIZED_WHY@,
        next_steps: seq![NOT_INITIALIZED_STEP_1@, NOT_INITIALIZED_STEP_2_1@ + rerun + NOT_INITIALIZED_STEP_2_2@],
    }
}

/// What `init` says on a machine that it was run on before.
pub open spec fn repo_exists_teaching() -> TeachingView {
    TeachingView {
        summary: REPO_EXISTS_SUMMARY@,
        what_dotsync_does: REPO_EXISTS_WHAT@,
        this_flow: REPO_EXISTS_FLOW@,
        expected: REPO_EXISTS_EXPECTED@,
        why_stopped: REPO_EXISTS_WHY@,
        next_steps: seq![REPO_EXISTS_STEP_1@, REPO_EXISTS_STEP_2@, REPO_EXISTS_STEP_3@],
    }
}

/// What is said of a parent scope that the repo does not have.
pub open spec fn no_such_parent_teaching() -> TeachingView {
    TeachingView {
        summary: NO_SUCH_PARENT_SUMMARY@,
        what_dotsync_does: THE_SCOPE_GRAPH@,
        this_flow: NO_SUCH_PARENT_FLOW@,
        expected: NO_SUCH_PARENT_EXPECTED@,
        why_stopped: NO_SUCH_PARENT_WHY@,
        next_steps: seq![NO_SUCH_PARENT_STEP_1@, NO_SUCH_PARENT_STEP_2@, NO_SUCH_PARENT_STEP_3@],
    }
}

/// What is said of a new scope for which no parent is named.
pub open spec fn parent_required_teaching(scope: Text) -> TeachingView {
    TeachingView {
        summary: PARENT_REQUIRED_SUMMARY@,
        what_dotsync_does: THE_SCOPE_GRAPH@,
        this_flow: PARENT_REQUIRED_FLOW@,
        expected: PARENT_REQUIRED_EXPECTED@,
        why_stopped: PARENT_REQUIRED_WHY@,
        next_steps: seq![PARENT_REQUIRED_STEP_1@, PARENT_REQUIRED_STEP_2_1@ + scope + PARENT_REQUIRED_STEP_2_2@],
    }
}

/// What `init` says of a scope that other scopes hang off.
pub open spec fn shared_scope_teaching(scope: Text, children: Text) -> TeachingView {
    TeachingView {
        summary: SHARED_SCOPE_SUMMARY@,
        what_dotsync_does: THE_SCOPE_GRAPH@,
        this_flow: SHARED_SCOPE_FLOW@,
        expected: SHARED_SCOPE_EXPECTED@,
        why_stopped: SHARED_SCOPE_WHY_1@ + scope + SHARED_SCOPE_WHY_2@ + children + SHARED_SCOPE_WHY_3@,
        next_steps: seq![SHARED_SCOPE_STEP_1@, SHARED_SCOPE_STEP_2@],
    }
}

/// What `init` says of a parent named for a scope that exists.
pub open spec fn already_placed_teaching() -> TeachingView {
    TeachingView {
        summary: ALREADY_PLACED_SUMMARY@,
        what_dotsync_does: THE_SCOPE_GRAPH@,
        this_flow: ALREADY_PLACED_FLOW@,
        expected: ALREADY_PLACED_EXPECTED@,
        why_stopped: ALREADY_PLACED_WHY@,
        next_steps: seq![ALREADY_PLACED_STEP_1@, ALREADY_PLACED_STEP_2@],
    }
}

/// What a run says on a machine that no scope is named after.
pub open spec fn machine_scope_missing_teaching(scope: Text, root: Option<Text>) -> TeachingView {
    TeachingView {
        summary: MACHINE_SCOPE_MISSING_SUMMARY@,
        what_dotsync_does: THE_SCOPE_GRAPH@,
        this_flow: MACHINE_SCOPE_MISSING_FLOW@,
        expected: MACHINE_SCOPE_MISSING_EXPECTED@,
        why_stopped: MACHINE_SCOPE_MISSING_WHY@,
        next_steps: seq![MACHINE_SCOPE_MISSING_STEP_1@, MACHINE_SCOPE_MISSING_STEP_2_1@ + scope + MACHINE_SCOPE_MISSING_STEP_2_2@, match root { None => MACHINE_SCOPE_MISSING_STEP_3_NONE@, Some(root) => MACHINE_SCOPE_MISSING_STEP_3_SOME_1@ + scope + MACHINE_SCOPE_MISSING_STEP_3_SOME_2@ + root + MACHINE_SCOPE_MISSING_STEP_3_SOME_3@ }, MACHINE_SCOPE_MISSING_STEP_4@],
    }
}

/// What is said of a name for a new scope that is in use.
pub open spec fn name_taken_teaching(scope: Text) -> TeachingView {
    TeachingView {
        summary: NAME_TAKEN_SUMMARY@,
        what_dotsync_does: THE_SCOPE_GRAPH@,
        this_flow: NAME_TAKEN_FLOW@,
        expected: NAME_TAKEN_EXPECTED@,
        why_stopped: NAME_TAKEN_WHY_1@ + scope + NAME_TAKEN_WHY_2@,
        next_steps: seq![NAME_TAKEN_STEP_1@, NAME_TAKEN_STEP_2@],
    }
}

/// What is said of a new scope whose parents disagree.
pub open spec fn parents_disagree_teaching(files: Text) -> TeachingView {
    TeachingView {
        summary: PARENTS_DISAGREE_SUMMARY@,
        what_dotsync_does: THE_SCOPE_GRAPH@,
        this_flow: PARENTS_DISAGREE_FLOW@,
        expected: PARENTS_DISAGREE_EXPECTED@,
        why_stopped: PARENTS_DISAGREE_WHY_1@ + files + PARENTS_DISAGREE_WHY_2@,
        next_steps: seq![PARENTS_DISAGREE_STEP_1@, PARENTS_DISAGREE_STEP_2@, PARENTS_DISAGREE_STEP_3@],
    }
}

/// Says [`sync_conflict_teaching`].
pub fn teach_sync_conflict(scope: &str, count: usize) -> (teaching: Teaching)
    ensures
        teaching@ == sync_conflict_teaching(scope@, count as nat),
{
    let summary = if count == 1 { SYNC_CONFLICT_SUMMARY_ONE.to_owned() } else { SYNC_CONFLICT_SUMMARY_MANY.to_owned() };
    let this_flow = SYNC_CONFLICT_FLOW.to_owned();
    let why_stopped = SYNC_CONFLICT_WHY.to_owned();
    let step1 = SYNC_CONFLICT_STEP_1.to_owned();
    let step2 = cat3(SYNC_CONFLICT_STEP_2_1, scope, SYNC_CONFLICT_STEP_2_2);
    let step3 = SYNC_CONFLICT_STEP_3.to_owned();
    Teaching::new(
        summary,
        SYNC_CONFLICT_WHAT.to_owned(),
        this_flow,
        SYNC_CONFLICT_EXPECTED.to_owned(),
        why_stopped,
        list3(step1, step2, step3),
    )
}

/// Says [`cascade_paused_teaching`].
pub fn teach_cascade_paused(scope: &str, borrowed_from: Option<&str>, count: usize) -> (teaching: Teaching)
    ensures
        teaching@ == cascade_paused_teaching(scope@, opt_str(borrowed_from), count as nat),
{
    let summary = if count == 1 { cat3(CASCADE_PAUSED_SUMMARY_ONE_1, scope, CASCADE_PAUSED_SUMMARY_ONE_2) } else { cat3(CASCADE_PAUSED_SUMMARY_MANY_1, scope, CASCADE_PAUSED_SUMMARY_MANY_2) };
    let this_flow = cat3(CASCADE_PAUSED_FLOW_1, scope, CASCADE_PAUSED_FLOW_2);
    let why_stopped = match borrowed_from { None => CASCADE_PAUSED_WHY_NONE.to_owned(), Some(borrowed_from) => cat5(cat5(CASCADE_PAUSED_WHY_SOME_1, borrowed_from, CASCADE_PAUSED_WHY_SOME_2, scope, CASCADE_PAUSED_WHY_SOME_3).as_str(), scope, CASCADE_PAUSED_WHY_SOME_4, borrowed_from, CASCADE_PAUSED_WHY_SOME_5) };
    let step1 = CASCADE_PAUSED_STEP_1.to_owned();
    let step2 = CASCADE_PAUSED_STEP_2.to_owned();
    let step3 = CASCADE_PAUSED_STEP_3.to_owned();
    Teaching::new(
        summary,
        CASCADE_PAUSED_WHAT.to_owned(),
        this_flow,
        CASCADE_PAUSED_EXPECTED.to_owned(),
        why_stopped,
        list3(step1, step2, step3),
    )
}

/// Says [`unresolved_conflict_teaching`].
pub fn teach_unresolved_conflict(scope: &str, first: &str) -> (teaching: Teaching)
    ensures
        teaching@ == unresolved_conflict_teaching(scope@, first@),
{
    let summary = UNRESOLVED_CONFLICT_SUMMARY.to_owned();
    let this_flow = UNRESOLVED_CONFLICT_FLOW.to_owned();
    let why_stopped = cat3(UNRESOLVED_CONFLICT_WHY_1, scope, UNRESOLVED_CONFLICT_WHY_2);
    let step1 = cat5(UNRESOLVED_CONFLICT_STEP_1_1, scope, UNRESOLVED_CONFLICT_STEP_1_2, first, UNRESOLVED_CONFLICT_STEP_1_3);
    let step2 = UNRESOLVED_CONFLICT_STEP_2.to_owned();
    let step3 = UNRESOLVED_CONFLICT_STEP_3.to_owned();
    let step4 = UNRESOLVED_CONFLICT_STEP_4.to_owned();
    Teaching::new(
        summary,
        UNRESOLVED_CONFLICT_WHAT.to_owned(),
        this_flow,
        UNRESOLVED_CONFLICT_EXPECTED.to_owned(),
        why_stopped,
        list4(step1, step2, step3, step4),
    )
}

/// Says [`paused_in_progress_teaching`].
pub fn teach_paused_in_progress() -> (teaching: Teaching)
    ensures
        teaching@ == paused_in_progress_teaching(),
{
    let summary = PAUSED_IN_PROGRESS_SUMMARY.to_owned();
    let this_flow = PAUSED_IN_PROGRESS_FLOW.to_owned();
    let why_stopped = PAUSED_IN_PROGRESS_WHY.to_owned();
    let step1 = PAUSED_IN_PROGRESS_STEP_1.to_owned();
    let step2 = PAUSED_IN_PROGRESS_STEP_2.to_owned();
    let step3 = PAUSED_IN_PROGRESS_STEP_3.to_owned();
    let step4 = PAUSED_IN_PROGRESS_STEP_4.to_owned();
    Teaching::new(
        summary,
        PAUSED_IN_PROGRESS_WHAT.to_owned(),
        this_flow,
        PAUSED_IN_PROGRESS_EXPECTED.to_owned(),
        why_stopped,
        list4(step1, step2, step3, step4),
    )
}

/// Says [`stale_paths_teaching`].
pub fn teach_stale_paths(scope: &str, count: usize) -> (teaching: Teaching)
    ensures
        teaching@ == stale_paths_teaching(scope@, count as nat),
{
    let summary = if count == 1 { STALE_PATHS_SUMMARY_ONE.to_owned() } else { STALE_PATHS_SUMMARY_MANY.to_owned() };
    let this_flow = STALE_PATHS_FLOW.to_owned();
    let why_stopped = STALE_PATHS_WHY.to_owned();
    let step1 = STALE_PATHS_STEP_1.to_owned();
    let step2 = STALE_PATHS_STEP_2.to_owned();
    let step3 = cat3(STALE_PATHS_STEP_3_1, scope, STALE_PATHS_STEP_3_2);
    Teaching::new(
        summary,
        STALE_PATHS_WHAT.to_owned(),
        this_flow,
        STALE_PATHS_EXPECTED.to_owned(),
        why_stopped,
        list3(step1, step2, step3),
    )
}

/// Says [`nothing_to_discard_teaching`].
pub fn teach_nothing_to_discard(count: usize) -> (teaching: Teaching)
    ensures
        teaching@ == nothing_to_discard_teaching(count as nat),
{
    let summary = if count == 1 { NOTHING_TO_DISCARD_SUMMARY_ONE.to_owned() } else { NOTHING_TO_DISCARD_SUMMARY_MANY.to_owned() };
    let this_flow = NOTHING_TO_DISCARD_FLOW.to_owned();
    let why_stopped = NOTHING_TO_DISCARD_WHY.to_owned();
    let step1 = NOTHING_TO_DISCARD_STEP_1.to_owned();
    let step2 = NOTHING_TO_DISCARD_STEP_2.to_owned();
    Teaching::new(
        summary,
        NOTHING_TO_DISCARD_WHAT.to_owned(),
        this_flow,
        NOTHING_TO_DISCARD_EXPECTED.to_owned(),
        why_stopped,
        list2(step1, step2),
    )
}

/// Says [`invalid_scope_teaching`].
pub fn teach_invalid_scope() -> (teaching: Teaching)
    ensures
        teaching@ == invalid_scope_teaching(),
{
    let summary = INVALID_SCOPE_SUMMARY.to_owned();
    let this_flow = INVALID_SCOPE_FLOW.to_owned();
    let why_stopped = INVALID_SCOPE_WHY.to_owned();
    let step1 = INVALID_SCOPE_STEP_1.to_owned();
    let step2 = INVALID_SCOPE_STEP_2.to_owned();
    Teaching::new(
        summary,
        INVALID_SCOPE_WHAT.to_owned(),
        this_flow,
        INVALID_SCOPE_EXPECTED.to_owned(),
        why_stopped,
        list2(step1, step2),
    )
}

/// Says [`not_regular_teaching`].
pub fn teach_not_regular() -> (teaching: Teaching)
    ensures
        teaching@ == not_regular_teaching(),
{
    let summary = NOT_REGULAR_SUMMARY.to_owned();
    let this_flow = NOT_REGULAR_FLOW.to_owned();
    let why_stopped = NOT_REGULAR_WHY.to_owned();
    let step1 = NOT_REGULAR_STEP_1.to_owned();
    let step2 = NOT_REGULAR_STEP_2.to_owned();
    Teaching::new(
        summary,
        NOT_REGULAR_WHAT.to_owned(),
        this_flow,
        NOT_REGULAR_EXPECTED.to_owned(),
        why_stopped,
        list2(step1, step2),
    )
}

/// Says [`file_not_on_scope_teaching`].
pub fn teach_file_not_on_scope() -> (teaching: Teaching)
    ensures
        teaching@ == file_not_on_scope_teaching(),
{
    let summary = FILE_NOT_ON_SCOPE_SUMMARY.to_owned();
    let this_flow = FILE_NOT_ON_SCOPE_FLOW.to_owned();
    let why_stopped = FILE_NOT_ON_SCOPE_WHY.to_owned();
    let step1 = FILE_NOT_ON_SCOPE_STEP_1.to_owned();
    let step2 = FILE_NOT_ON_SCOPE_STEP_2.to_owned();
    Teaching::new(
        summary,
        FILE_NOT_ON_SCOPE_WHAT.to_owned(),
        this_flow,
        FILE_NOT_ON_SCOPE_EXPECTED.to_owned(),
        why_stopped,
        list2(step1, step2),
    )
}

/// Says [`unreachable_teaching`].
pub fn teach_unreachable() -> (teaching: Teaching)
    ensures
        teaching@ == unreachable_teaching(),
{
    let summary = UNREACHABLE_SUMMARY.to_owned();
    let this_flow = UNREACHABLE_FLOW.to_owned();
    let why_stopped = UNREACHABLE_WHY.to_owned();
    let step1 = UNREACHABLE_STEP_1.to_owned();
    let step2 = UNREACHABLE_STEP_2.to_owned();
    Teaching::new(
        summary,
        UNREACHABLE_WHAT.to_owned(),
        this_flow,
        UNREACHABLE_EXPECTED.to_owned(),
        why_stopped,
        list2(step1, step2),
    )
}

/// Says [`not_initialized_teaching`].
pub fn teach_not_initialized(rerun: &str) -> (teaching: Teaching)
    ensures
        teaching@ == not_initialized_teaching(rerun@),
{
    let summary = NOT_INITIALIZED_SUMMARY.to_owned();
    let this_flow = NOT_INITIALIZED_FLOW.to_owned();
    let why_stopped = NOT_INITIALIZED_WHY.to_owned();
    let step1 = NOT_INITIALIZED_STEP_1.to_owned();
    let step2 = cat3(NOT_INITIALIZED_STEP_2_1, rerun, NOT_INITIALIZED_STEP_2_2);
    Teaching::new(
        summary,
        NOT_INITIALIZED_WHAT.to_owned(),
        this_flow,
        NOT_INITIALIZED_EXPECTED.to_owned(),
        why_stopped,
        list2(step1, step2),
    )
}

/// Says [`repo_exists_teaching`].
pub fn teach_repo_exists() -> (teaching: Teaching)
    ensures
        teaching@ == repo_exists_teaching(),
{
    let summary = REPO_EXISTS_SUMMARY.to_owned();
    let this_flow = REPO_EXISTS_FLOW.to_owned();
    let why_stopped = REPO_EXISTS_WHY.to_owned();
    let step1 = REPO_EXISTS_STEP_1.to_owned();
    let step2 = REPO_EXISTS_STEP_2.to_owned();
    let step3 = REPO_EXISTS_STEP_3.to_owned();
    Teaching::new(
        summary,
        REPO_EXISTS_WHAT.to_owned(),
        this_flow,
        REPO_EXISTS_EXPECTED.to_owned(),
        why_stopped,
        list3(step1, step2, step3),
    )
}

/// Says [`no_such_parent_teaching`].
pub fn teach_no_such_parent() -> (teaching: Teaching)
    ensures
        teaching@ == no_such_parent_teaching(),
{
    let summary = NO_SUCH_PARENT_SUMMARY.to_owned();
    let this_flow = NO_SUCH_PARENT_FLOW.to_owned();
    let why_stopped = NO_SUCH_PARENT_WHY.to_owned();
    let step1 = NO_SUCH_PARENT_STEP_1.to_owned();
    let step2 = NO_SUCH_PARENT_STEP_2.to_owned();
    let step3 = NO_SUCH_PARENT_STEP_3.to_owned();
    Teaching::new(
        summary,
        THE_SCOPE_GRAPH.to_owned(),
        this_flow,
        NO_SUCH_PARENT_EXPECTED.to_owned(),
        why_stopped,
        list3(step1, step2, step3),
    )
}

/// Says [`parent_required_teaching`].
pub fn teach_parent_required(scope: &str) -> (teaching: Teaching)
    ensures
        teaching@ == parent_required_teaching(scope@),
{
    let summary = PARENT_REQUIRED_SUMMARY.to_owned();
    let this_flow = PARENT_REQUIRED_FLOW.to_owned();
    let why_stopped = PARENT_REQUIRED_WHY.to_owned();
    let step1 = PARENT_REQUIRED_STEP_1.to_owned();
    let step2 = cat3(PARENT_REQUIRED_STEP_2_1, scope, PARENT_REQUIRED_STEP_2_2);
    Teaching::new(
        summary,
        THE_SCOPE_GRAPH.to_owned(),
        this_flow,
        PARENT_REQUIRED_EXPECTED.to_owned(),
        why_stopped,
        list2(step1, step2),
    )
}

/// Says [`shared_scope_teaching`].
pub fn teach_shared_scope(scope: &str, children: &str) -> (teaching: Teaching)
    ensures
        teaching@ == shared_scope_teaching(scope@, children@),
{
    let summary = SHARED_SCOPE_SUMMARY.to_owned();
    let this_flow = SHARED_SCOPE_FLOW.to_owned();
    let why_stopped = cat5(SHARED_SCOPE_WHY_1, scope, SHARED_SCOPE_WHY_2, children, SHARED_SCOPE_WHY_3);
    let step1 = SHARED_SCOPE_STEP_1.to_owned();
    let step2 = SHARED_SCOPE_STEP_2.to_owned();
    Teaching::new(
        summary,
        THE_SCOPE_GRAPH.to_owned(),
        this_flow,
        SHARED_SCOPE_EXPECTED.to_owned(),
        why_stopped,
        list2(step1, step2),
    )
}

/// Says [`already_placed_teaching`].
pub fn teach_already_placed() -> (teaching: Teaching)
    ensures
        teaching@ == already_placed_teaching(),
{
    let summary = ALREADY_PLACED_SUMMARY.to_owned();
    let this_flow = ALREADY_PLACED_FLOW.to_owned();
    let why_stopped = ALREADY_PLACED_WHY.to_owned();
    let step1 = ALREADY_PLACED_STEP_1.to_owned();
    let step2 = ALREADY_PLACED_STEP_2.to_owned();
    Teaching::new(
        summary,
        THE_SCOPE_GRAPH.to_owned(),
        this_flow,
        ALREADY_PLACED_EXPECTED.to_owned(),
        why_stopped,
        list2(step1, step2),
    )
}

/// Says [`machine_scope_missing_teaching`].
pub fn teach_machine_scope_missing(scope: &str, root: Option<&str>) -> (teaching: Teaching)
    ensures
        teaching@ == machine_scope_missing_teaching(scope@, opt_str(root)),
{
    let summary = MACHINE_SCOPE_MISSING_SUMMARY.to_owned();
    let this_flow = MACHINE_SCOPE_MISSING_FLOW.to_owned();
    let why_stopped = MACHINE_SCOPE_MISSING_WHY.to_owned();
    let step1 = MACHINE_SCOPE_MISSING_STEP_1.to_owned();
    let step2 = cat3(MACHINE_SCOPE_MISSING_STEP_2_1, scope, MACHINE_SCOPE_MISSING_STEP_2_2);
    let step3 = match root { None => MACHINE_SCOPE_MISSING_STEP_3_NONE.to_owned(), Some(root) => cat5(MACHINE_SCOPE_MISSING_STEP_3_SOME_1, scope, MACHINE_SCOPE_MISSING_STEP_3_SOME_2, root, MACHINE_SCOPE_MISSING_STEP_3_SOME_3) };
    let step4 = MACHINE_SCOPE_MISSING_STEP_4.to_owned();
    let next_steps = list4(step1, step2, step3, step4);
    proof {
        assert(texts(next_steps@) =~= machine_scope_missing_teaching(
            scope@,
            opt_str(root),
        ).next_steps);
    }
    Teaching::new(
        summary,
        THE_SCOPE_GRAPH.to_owned(),
        this_flow,
        MACHINE_SCOPE_MISSING_EXPECTED.to_owned(),
        why_stopped,
        next_steps,
    )
}

/// Says [`name_taken_teaching`].
pub fn teach_name_taken(scope: &str) -> (teaching: Teaching)
    ensures
        teaching@ == name_taken_teaching(scope@),
{
    let summary = NAME_TAKEN_SUMMARY.to_owned();
    let this_flow = NAME_TAKEN_FLOW.to_owned();
    let why_stopped = cat3(NAME_TAKEN_WHY_1, scope, NAME_TAKEN_WHY_2);
    let step1 = NAME_TAKEN_STEP_1.to_owned();
    let step2 = NAME_TAKEN_STEP_2.to_owned();
    Teaching::new(
        summary,
        THE_SCOPE_GRAPH.to_owned(),
        this_flow,
        NAME_TAKEN_EXPECTED.to_owned(),
        why_stopped,
        list2(step1, step2),
    )
}

/// Says [`parents_disagree_teaching`].
pub fn teach_parents_disagree(files: &str) -> (teaching: Teaching)
    ensures
        teaching@ == parents_disagree_teaching(files@),
{
    let summary = PARENTS_DISAGREE_SUMMARY.to_owned();
    let this_flow = PARENTS_DISAGREE_FLOW.to_owned();
    let why_stopped = cat3(PARENTS_DISAGREE_WHY_1, files, PARENTS_DISAGREE_WHY_2);
    let step1 = PARENTS_DISAGREE_STEP_1.to_owned();
    let step2 = PARENTS_DISAGREE_STEP_2.to_owned();
    let step3 = PARENTS_DISAGREE_STEP_3.to_owned();
    Teaching::new(
        summary,
        THE_SCOPE_GRAPH.to_owned(),
        this_flow,
        PARENTS_DISAGREE_EXPECTED.to_owned(),
        why_stopped,
        list3(step1, step2, step3),
    )
}

} // verus!
