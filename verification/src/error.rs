//! The stops that a run can end in, and everything each of them has to say.
use vstd::prelude::*;
use vstd::string::*;
use crate::drift::{code_text, reason_text, FileState};
use crate::paths::FilePath;
use crate::teaching::{
    already_placed_teaching, cascade_paused_teaching, file_not_on_scope_teaching,
    invalid_scope_teaching, machine_scope_missing_teaching, name_taken_teaching,
    no_such_parent_teaching, not_initialized_teaching, not_regular_teaching,
    nothing_to_discard_teaching, parent_required_teaching, parents_disagree_teaching,
    paused_in_progress_teaching, repo_exists_teaching, shared_scope_teaching, stale_paths_teaching,
    sync_conflict_teaching, teach_already_placed, teach_cascade_paused, teach_file_not_on_scope,
    teach_invalid_scope, teach_machine_scope_missing, teach_name_taken, teach_no_such_parent,
    teach_not_initialized, teach_not_regular, teach_nothing_to_discard, teach_parent_required,
    teach_parents_disagree, teach_paused_in_progress, teach_repo_exists, teach_shared_scope,
    teach_stale_paths, teach_sync_conflict, teach_unreachable, teach_unresolved_conflict,
    unreachable_teaching, unresolved_conflict_teaching, TeachingView,
};
use crate::text::{
    cat2, cat3, cat4, cat5, decimal, decimal_text, fill_count, join, joined, list1, opt_str,
    opt_text, texts, with_count, Text,
};

pub use crate::teaching::Teaching;

verus! {

/// Everything a stop has to say, read off the error itself.
#[derive(Debug, Clone)]
pub struct Explanation {
    pub code: &'static str,
    pub message: String,
    /// The scope a merge is waiting to be resolved at, when that is what
    /// stopped the run.
    pub paused_cascade: Option<String>,
    /// What dotsync found, one fact per entry.
    pub current_state: Vec<String>,
    /// The files a stop could not merge, each with every version of it.
    pub conflicts: Vec<ConflictedFile>,
    /// What to teach the reader, for a stop with somewhere to go from here.
    pub teaching: Option<Teaching>,
}

/// An explanation as contracts see it.
pub struct ExplanationView {
    pub code: Text,
    pub message: Text,
    pub paused_cascade: Option<Text>,
    pub current_state: Seq<Text>,
    pub conflicts: Seq<ConflictedFileView>,
    pub teaching: Option<TeachingView>,
}

impl View for Explanation {
    type V = ExplanationView;

    open spec fn view(&self) -> ExplanationView {
        ExplanationView {
            code: self.code@,
            message: self.message@,
            paused_cascade: opt_text(self.paused_cascade),
            current_state: texts(self.current_state@),
            conflicts: file_views(self.conflicts@),
            teaching: match self.teaching {
                Some(teaching) => Some(teaching@),
                None => None,
            },
        }
    }
}

/// One file a merge could not resolve, with every version of it: the sides and
/// the version they both changed.
#[derive(Debug, Clone)]
pub struct ConflictedFile {
    pub path: FilePath,
    /// Where the file stands across the three sides home knows about, when one
    /// of the two sides is home.
    pub state: Option<FileState>,
    /// Base first, then the sides, in the order the merge holds them.
    pub versions: Vec<ConflictedVersion>,
}

/// A conflicted file as contracts see it.
pub struct ConflictedFileView {
    pub path: Text,
    pub state: Option<FileState>,
    pub versions: Seq<ConflictedVersionView>,
}

impl View for ConflictedFile {
    type V = ConflictedFileView;

    open spec fn view(&self) -> ConflictedFileView {
        ConflictedFileView {
            path: self.path.text@,
            state: self.state,
            versions: version_views(self.versions@),
        }
    }
}

/// One version of a conflicted file: which part of the merge it is, what to
/// call it, and what it holds.
#[derive(Debug, Clone)]
pub struct ConflictedVersion {
    pub role: ConflictRole,
    /// What this version is, in words.
    pub label: String,
    /// `None` when this version does not hold the file at all.
    pub contents: Option<Vec<u8>>,
}

/// A version as contracts see it.
pub struct ConflictedVersionView {
    pub role: ConflictRole,
    pub label: Text,
    pub contents: Option<Seq<u8>>,
}

/// The bytes of a version that may hold none.
pub open spec fn opt_bytes(contents: Option<Vec<u8>>) -> Option<Seq<u8>> {
    match contents {
        Some(bytes) => Some(bytes@),
        None => None,
    }
}

impl View for ConflictedVersion {
    type V = ConflictedVersionView;

    open spec fn view(&self) -> ConflictedVersionView {
        ConflictedVersionView {
            role: self.role,
            label: self.label@,
            contents: opt_bytes(self.contents),
        }
    }
}

/// The views of some versions.
pub open spec fn version_views(versions: Seq<ConflictedVersion>) -> Seq<ConflictedVersionView> {
    versions.map_values(|v: ConflictedVersion| v@)
}

/// The views of some files.
pub open spec fn file_views(files: Seq<ConflictedFile>) -> Seq<ConflictedFileView> {
    files.map_values(|f: ConflictedFile| f@)
}

/// Which part of a merge a version is.
#[derive(Debug, Clone, Copy, PartialEq, Eq, Structural)]
pub enum ConflictRole {
    /// The version both sides changed.
    Base,
    /// A version that changed it.
    Side,
}

/// The machine-readable name of a role.
pub open spec fn role_text(role: ConflictRole) -> Text {
    match role {
        ConflictRole::Base => "base"@,
        ConflictRole::Side => "side"@,
    }
}

impl ConflictRole {
    /// The machine-readable name of this role.
    pub fn code(self) -> (text: &'static str)
        ensures
            text@ == role_text(self),
    {
        match self {
            ConflictRole::Base => "base",
            ConflictRole::Side => "side",
        }
    }
}

/// One path a commit named that dotsync will not record, and why.
#[derive(Debug, Clone)]
pub struct RejectedCommitPath {
    pub path: FilePath,
    pub problem: CommitPathProblem,
}

/// One path a commit named that names a real file dotsync could record, but
/// whose content is not this machine's to record.
#[derive(Debug, Clone)]
pub struct RefusedCommitPath {
    pub path: FilePath,
    pub state: FileState,
}

/// One path a named directory matched that the commit left out.
#[derive(Debug, Clone)]
pub struct SkippedCommitPath {
    pub path: FilePath,
    pub reason: SkipReason,
}

/// Why a bulk selection left a path alone.
#[derive(Debug, Clone, Copy, PartialEq, Eq, Structural)]
pub enum SkipReason {
    /// Home holds no change of this machine's own at the path.
    NotChangedHere(FileState),
    /// A socket, a device, a fifo: something with no file content to record.
    NotARegularFile,
}

/// The machine-readable name of a reason.
pub open spec fn skip_code(reason: SkipReason) -> Text {
    match reason {
        SkipReason::NotChangedHere(state) => code_text(state),
        SkipReason::NotARegularFile => "not_a_regular_file"@,
    }
}

/// A reason in words.
pub open spec fn skip_text(reason: SkipReason) -> Text {
    match reason {
        SkipReason::NotChangedHere(state) => reason_text(state),
        SkipReason::NotARegularFile => "not a regular file, so there is no content to record"@,
    }
}

impl SkipReason {
    /// The code an agent branches on, in the same field as a file's state
    /// everywhere else.
    pub fn code(&self) -> (text: &'static str)
        ensures
            text@ == skip_code(*self),
    {
        match self {
            SkipReason::NotChangedHere(state) => state.code(),
            SkipReason::NotARegularFile => "not_a_regular_file",
        }
    }

    /// The same thing in words, as a phrase that reads after a path.
    pub fn explain(&self) -> (text: String)
        ensures
            text@ == skip_text(*self),
    {
        match self {
            SkipReason::NotChangedHere(state) => state.reason().to_owned(),
            SkipReason::NotARegularFile =>
                "not a regular file, so there is no content to record".to_owned(),
        }
    }
}

/// Why dotsync will not record a path that a commit named.
#[derive(Debug, Clone)]
pub enum CommitPathProblem {
    /// Your whole home directory, however it was named.
    HomeRoot,
    Absolute,
    EscapesHome,
    /// Matched neither a file in home nor a file already on the target scope.
    Unmatched { home_path: FilePath },
    DotsyncRepoRoot { repo_root: FilePath },
    InsideDotsyncRepo { repo_root: FilePath },
    /// A changed copy of the scope graph, headed for a scope that dotsync does
    /// not read it from.
    ScopeGraphOutsideAllScope,
}

/// What dotsync says of a path whose content is not this machine's to record.
pub open spec fn refusal_text(path: Text, state: FileState) -> Text {
    match state {
        FileState::StaleNotYours => "`"@ + path
            + "` has not been edited here: home holds exactly what dotsync last synced, and the repo has changed it since. That change came from another machine, and committing home's copy would revert it."@,
        FileState::IncomingNew => "`"@ + path
            + "` is not in home: the repo has just added it on another machine and this machine has not synced it yet, so there is nothing here to record."@,
        FileState::RemovedFromRepo => "`"@ + path
            + "` was deleted on another machine, and home still holds the copy dotsync last synced. Committing it would put the file back."@,
        FileState::IncomingNewCollidesWithUntrackedHome => "`"@ + path
            + "` has never been synced here, and the repo has just added a different file at the same path. Committing home's copy would discard the one that arrived."@,
        other => "`"@ + path + "` is "@ + reason_text(other) + "."@,
    }
}

impl RefusedCommitPath {
    /// What happened to the file.
    pub fn explain(&self) -> (text: String)
        ensures
            text@ == refusal_text(self.path.text@, self.state),
    {
        let path = self.path.text.as_str();
        match self.state {
            FileState::StaleNotYours => cat3(
                "`",
                path,
                "` has not been edited here: home holds exactly what dotsync last synced, and the repo has changed it since. That change came from another machine, and committing home's copy would revert it.",
            ),
            FileState::IncomingNew => cat3(
                "`",
                path,
                "` is not in home: the repo has just added it on another machine and this machine has not synced it yet, so there is nothing here to record.",
            ),
            FileState::RemovedFromRepo => cat3(
                "`",
                path,
                "` was deleted on another machine, and home still holds the copy dotsync last synced. Committing it would put the file back.",
            ),
            FileState::IncomingNewCollidesWithUntrackedHome => cat3(
                "`",
                path,
                "` has never been synced here, and the repo has just added a different file at the same path. Committing home's copy would discard the one that arrived.",
            ),
            other => cat5("`", path, "` is ", other.reason(), "."),
        }
    }
}

/// What dotsync says of a path that it will not record.
pub open spec fn rejection_text(path: Text, problem: CommitPathProblem, scope: Text) -> Text {
    match problem {
        CommitPathProblem::HomeRoot => "`"@ + path
            + "` is your whole home directory. Dotsync would walk all of it and put every file it found on scope `"@
            + scope
            + "` — ssh keys, credentials, browser profiles — and every machine sharing that scope would then have them written into its own home."@,
        CommitPathProblem::Absolute => "`"@ + path
            + "` is an absolute path, and dotsync resolves every commit path against your home directory."@,
        CommitPathProblem::EscapesHome => "`"@ + path
            + "` climbs out of your home directory with `..`, and dotsync records the path you name verbatim, so every machine on the scope would write it outside its own home."@,
        CommitPathProblem::Unmatched { home_path } => "`"@ + path
            + "` matched nothing: no file exists at or under "@ + home_path.text@ + ", and scope `"@
            + scope + "` tracks no file at or under `"@ + path + "`."@,
        CommitPathProblem::DotsyncRepoRoot { repo_root } => "`"@ + path
            + "` is dotsync's hidden repo itself, at "@ + repo_root.text@
            + ", which is where dotsync stores every scope."@,
        CommitPathProblem::InsideDotsyncRepo { repo_root } => "`"@ + path
            + "` is inside dotsync's hidden repo at "@ + repo_root.text@
            + ", which is where dotsync stores every scope."@,
        CommitPathProblem::ScopeGraphOutsideAllScope => "`"@ + path
            + "` is the scope graph, and dotsync reads it from scope `all` only. A copy on scope `"@
            + scope
            + "` would configure nothing, and would overwrite the real one in home on every machine of that scope."@,
    }
}

impl RejectedCommitPath {
    /// Why dotsync will not record the path on `scope`.
    pub fn explain(&self, scope: &str) -> (text: String)
        ensures
            text@ == rejection_text(self.path.text@, self.problem, scope@),
    {
        let path = self.path.text.as_str();
        match &self.problem {
            CommitPathProblem::HomeRoot => cat5(
                "`",
                path,
                "` is your whole home directory. Dotsync would walk all of it and put every file it found on scope `",
                scope,
                "` — ssh keys, credentials, browser profiles — and every machine sharing that scope would then have them written into its own home.",
            ),
            CommitPathProblem::Absolute => cat3(
                "`",
                path,
                "` is an absolute path, and dotsync resolves every commit path against your home directory.",
            ),
            CommitPathProblem::EscapesHome => cat3(
                "`",
                path,
                "` climbs out of your home directory with `..`, and dotsync records the path you name verbatim, so every machine on the scope would write it outside its own home.",
            ),
            CommitPathProblem::Unmatched { home_path } => {
                let front = cat5(
                    "`",
                    path,
                    "` matched nothing: no file exists at or under ",
                    home_path.text.as_str(),
                    ", and scope `",
                );
                cat5(front.as_str(), scope, "` tracks no file at or under `", path, "`.")
            },
            CommitPathProblem::DotsyncRepoRoot { repo_root } => cat5(
                "`",
                path,
                "` is dotsync's hidden repo itself, at ",
                repo_root.text.as_str(),
                ", which is where dotsync stores every scope.",
            ),
            CommitPathProblem::InsideDotsyncRepo { repo_root } => cat5(
                "`",
                path,
                "` is inside dotsync's hidden repo at ",
                repo_root.text.as_str(),
                ", which is where dotsync stores every scope.",
            ),
            CommitPathProblem::ScopeGraphOutsideAllScope => cat5(
                "`",
                path,
                "` is the scope graph, and dotsync reads it from scope `all` only. A copy on scope `",
                scope,
                "` would configure nothing, and would overwrite the real one in home on every machine of that scope.",
            ),
        }
    }

    /// Whether the path is dotsync's own state.
    pub fn is_dotsync_state(&self) -> (found: bool)
        ensures
            found == (self.problem is DotsyncRepoRoot || self.problem is InsideDotsyncRepo),
    {
        matches!(
            self.problem,
            CommitPathProblem::DotsyncRepoRoot { .. } | CommitPathProblem::InsideDotsyncRepo { .. }
        )
    }

    /// Whether the path is the whole home directory.
    pub fn is_home_root(&self) -> (found: bool)
        ensures
            found == (self.problem is HomeRoot),
    {
        matches!(self.problem, CommitPathProblem::HomeRoot)
    }
}

/// The ways a run can stop.
#[allow(inconsistent_fields)]
#[derive(Debug)]
pub enum DotsyncError {
    HomeNotSet,
    /// A path that is not valid UTF-8, as its escaped and quoted form.
    NonUtf8Path { quoted: String },
    GitSubmodule { path: FilePath },
    /// A path in home that exists and is not a regular file.
    NotARegularFile { path: FilePath },
    UnusableCommitPaths { scope: String, rejected: Vec<RejectedCommitPath> },
    StaleCommitPaths { scope: String, refused: Vec<RefusedCommitPath> },
    UnresolvedConflict { scope: String, paths: Vec<FilePath> },
    /// `discard` naming a path that holds no change of this machine's own.
    NothingToDiscard { paths: Vec<FilePath> },
    /// A file that could not be read, and what the system said of it.
    Io { path: FilePath, source: String },
    /// A scope named as a parent that the repo has no scope for.
    NoSuchParentScope { parent: String, scopes: Vec<String> },
    /// Creating a scope without saying where it hangs.
    ParentScopeRequired { scope: String, scopes: Vec<String> },
    /// A machine trying to adopt a scope other scopes already hang off.
    MachineScopeIsShared { scope: String, children: Vec<String> },
    /// A parent named for a machine whose scope exists already.
    MachineScopeAlreadyPlaced { scope: String, parents: Vec<String> },
    /// This machine's hostname names no scope in the repo.
    MachineScopeMissing {
        scope: String,
        scopes: Vec<String>,
        /// A scope with no parents, when the repo has one.
        root: Option<String>,
    },
    /// Creating a scope over a name the repo already uses.
    ScopeNameTaken { scope: String },
    /// A scope created under parents that hold different versions of one file.
    ScopeCreationConflict { scope: String, files: Vec<String> },
    InvalidScope { scope: String },
    /// Asked for a file on a scope that does not hold it.
    FileNotOnScope { scope: String, path: FilePath },
    /// The scope graph names a scope this machine's repo has no history for.
    ScopeNotInRepo { scope: String },
    /// Home and the scope changed the same file differently.
    SyncConflict { scope: String, files: Vec<ConflictedFile> },
    /// Converging a scope met a file two sides changed differently.
    CascadePaused {
        scope: String,
        /// This machine's own scope, when `scope` is neither it nor above it.
        borrowed_from: Option<String>,
        files: Vec<ConflictedFile>,
    },
    PausedCascadeInProgress { scope: String },
    NoPausedCascade,
    RepoAlreadyExists { path: FilePath },
    NotInitialized { path: FilePath },
    MissingHostname,
    /// Reaching the remote failed where reaching it is the point of the
    /// command.
    RemoteUnreachable { reason: String },
    /// An `init` that stopped and could not take its own leavings with it.
    PartialInitLeftBehind { path: FilePath, source: String, original: Box<DotsyncError> },
    /// Something inside dotsync's own repository handling went wrong.
    Jj { message: String },
}

/// One message when there is one of something, another when there are several.
pub open spec fn counted(count: nat, one: Text, many: Text) -> Text {
    if count == 1 {
        one
    } else {
        with_count(many, decimal(count))
    }
}

/// One message when there is one of something, another when there are several.
/// `{n}` in the plural form is the count.
pub fn one_or_many(count: usize, one: &str, many: &str) -> (text: String)
    ensures
        text@ == counted(count as nat, one@, many@),
{
    if count == 1 {
        one.to_owned()
    } else {
        let number = decimal_text(count);
        fill_count(many, number.as_str())
    }
}

/// The one line of a stop.
pub open spec fn message_text(error: DotsyncError) -> Text
    decreases error,
{
    match error {
        DotsyncError::HomeNotSet =>
            "HOME is not set, so dotsync cannot find your home directory. Set HOME to the home directory dotsync should manage, then rerun."@,
        DotsyncError::NonUtf8Path { quoted } => "path "@ + quoted@
            + " is not valid UTF-8; dotsync can only manage files whose paths are valid UTF-8"@,
        DotsyncError::GitSubmodule { path } => path.text@
            + " is a git submodule; dotsync manages regular files and symlinks only"@,
        DotsyncError::NotARegularFile { path } => path.text@
            + " is not a regular file, so dotsync cannot record what it holds"@,
        DotsyncError::UnusableCommitPaths { scope, rejected } => counted(
            rejected@.len(),
            "cannot commit the path you named"@,
            "cannot commit {n} of the paths you named"@,
        ),
        DotsyncError::StaleCommitPaths { scope, refused } => counted(
            refused@.len(),
            "cannot commit the path you named, because this machine did not change it"@,
            "cannot commit {n} of the paths you named, because this machine did not change them"@,
        ),
        DotsyncError::UnresolvedConflict { scope, paths } => decimal(paths@.len())
            + " conflicted file(s) still hold conflict markers"@,
        DotsyncError::NothingToDiscard { paths } => counted(
            paths@.len(),
            "there is no change of yours to discard at the path you named"@,
            "there is no change of yours to discard at {n} of the paths you named"@,
        ),
        DotsyncError::Io { path, source } => "failed to read "@ + path.text@ + ": "@ + source@,
        DotsyncError::NoSuchParentScope { parent, scopes } => "there is no scope called `"@
            + parent@ + "`"@,
        DotsyncError::ParentScopeRequired { scope, scopes } => "scope `"@ + scope@
            + "` needs at least one parent scope"@,
        DotsyncError::MachineScopeIsShared { scope, children } => "scope `"@ + scope@
            + "` is shared with "@ + joined(texts(children@), ", "@),
        DotsyncError::MachineScopeAlreadyPlaced { scope, parents } => "scope `"@ + scope@
            + "` already exists"@,
        DotsyncError::MachineScopeMissing { scope, scopes, root } =>
            "this machine has no scope of its own: nothing in the repo is called `"@ + scope@
            + "`"@,
        DotsyncError::ScopeNameTaken { scope } => "`"@ + scope@
            + "` already exists on the remote"@,
        DotsyncError::ScopeCreationConflict { scope, files } => "scope `"@ + scope@
            + "` cannot be created while its parents disagree about "@ + joined(
            texts(files@),
            ", "@,
        ),
        DotsyncError::InvalidScope { scope } => "scope `"@ + scope@ + "` does not exist"@,
        DotsyncError::FileNotOnScope { scope, path } => "`"@ + path.text@
            + "` is not on scope `"@ + scope@ + "`"@,
        DotsyncError::ScopeNotInRepo { scope } => "scope `"@ + scope@
            + "` is configured, but this machine's repo has no history for it"@,
        DotsyncError::SyncConflict { scope, files } => decimal(files@.len())
            + " home file(s) conflict with what scope `"@ + scope@ + "` holds"@,
        DotsyncError::CascadePaused { scope, borrowed_from, files } => "converging scope `"@
            + scope@ + "` stopped on "@ + decimal(files@.len()) + " conflicted file(s)"@,
        DotsyncError::PausedCascadeInProgress { scope } => "paused cascade at scope `"@ + scope@
            + "` must be resolved before starting another commit"@,
        DotsyncError::NoPausedCascade => "there is no paused cascade on this machine"@,
        DotsyncError::RepoAlreadyExists { path } => "repo already exists at "@ + path.text@,
        DotsyncError::NotInitialized { path } => "Dotsync could not find its hidden repo at "@
            + path.text@
            + ". Run `dotsync init <remote-url>` from this home directory first."@,
        DotsyncError::MissingHostname => "unable to determine machine hostname"@,
        DotsyncError::RemoteUnreachable { reason } => "could not reach the remote: "@ + reason@,
        DotsyncError::PartialInitLeftBehind { path, source, original } => message_text(*original)
            + "\n\nDotsync could also not remove the partly created repo at "@ + path.text@ + ": "@
            + source@ + ". Delete that directory before running `dotsync init` again."@,
        DotsyncError::Jj { message } =>
            "dotsync could not complete an internal repository operation: "@ + message@,
    }
}

impl DotsyncError {
    /// The one line of this stop.
    pub fn message(&self) -> (text: String)
        ensures
            text@ == message_text(*self),
        decreases self,
    {
        match self {
            DotsyncError::HomeNotSet =>
                "HOME is not set, so dotsync cannot find your home directory. Set HOME to the home directory dotsync should manage, then rerun.".to_owned(),
            DotsyncError::NonUtf8Path { quoted } => cat3(
                "path ",
                quoted.as_str(),
                " is not valid UTF-8; dotsync can only manage files whose paths are valid UTF-8",
            ),
            DotsyncError::GitSubmodule { path } => cat2(
                path.text.as_str(),
                " is a git submodule; dotsync manages regular files and symlinks only",
            ),
            DotsyncError::NotARegularFile { path } => cat2(
                path.text.as_str(),
                " is not a regular file, so dotsync cannot record what it holds",
            ),
            DotsyncError::UnusableCommitPaths { scope, rejected } => one_or_many(
                rejected.len(),
                "cannot commit the path you named",
                "cannot commit {n} of the paths you named",
            ),
            DotsyncError::StaleCommitPaths { scope, refused } => one_or_many(
                refused.len(),
                "cannot commit the path you named, because this machine did not change it",
                "cannot commit {n} of the paths you named, because this machine did not change them",
            ),
            DotsyncError::UnresolvedConflict { scope, paths } => cat2(
                decimal_text(paths.len()).as_str(),
                " conflicted file(s) still hold conflict markers",
            ),
            DotsyncError::NothingToDiscard { paths } => one_or_many(
                paths.len(),
                "there is no change of yours to discard at the path you named",
                "there is no change of yours to discard at {n} of the paths you named",
            ),
            DotsyncError::Io { path, source } => cat4(
                "failed to read ",
                path.text.as_str(),
                ": ",
                source.as_str(),
            ),
            DotsyncError::NoSuchParentScope { parent, scopes } => cat3(
                "there is no scope called `",
                parent.as_str(),
                "`",
            ),
            DotsyncError::ParentScopeRequired { scope, scopes } => cat3(
                "scope `",
                scope.as_str(),
                "` needs at least one parent scope",
            ),
            DotsyncError::MachineScopeIsShared { scope, children } => cat4(
                "scope `",
                scope.as_str(),
                "` is shared with ",
                join(children, ", ").as_str(),
            ),
            DotsyncError::MachineScopeAlreadyPlaced { scope, parents } => cat3(
                "scope `",
                scope.as_str(),
                "` already exists",
            ),
            DotsyncError::MachineScopeMissing { scope, scopes, root } => cat3(
                "this machine has no scope of its own: nothing in the repo is called `",
                scope.as_str(),
                "`",
            ),
            DotsyncError::ScopeNameTaken { scope } => cat3(
                "`",
                scope.as_str(),
                "` already exists on the remote",
            ),
            DotsyncError::ScopeCreationConflict { scope, files } => cat4(
                "scope `",
                scope.as_str(),
                "` cannot be created while its parents disagree about ",
                join(files, ", ").as_str(),
            ),
            DotsyncError::InvalidScope { scope } => cat3(
                "scope `",
                scope.as_str(),
                "` does not exist",
            ),
            DotsyncError::FileNotOnScope { scope, path } => cat5(
                "`",
                path.text.as_str(),
                "` is not on scope `",
                scope.as_str(),
                "`",
            ),
            DotsyncError::ScopeNotInRepo { scope } => cat3(
                "scope `",
                scope.as_str(),
                "` is configured, but this machine's repo has no history for it",
            ),
            DotsyncError::SyncConflict { scope, files } => cat4(
                decimal_text(files.len()).as_str(),
                " home file(s) conflict with what scope `",
                scope.as_str(),
                "` holds",
            ),
            DotsyncError::CascadePaused { scope, borrowed_from, files } => cat5(
                "converging scope `",
                scope.as_str(),
                "` stopped on ",
                decimal_text(files.len()).as_str(),
                " conflicted file(s)",
            ),
            DotsyncError::PausedCascadeInProgress { scope } => cat3(
                "paused cascade at scope `",
                scope.as_str(),
                "` must be resolved before starting another commit",
            ),
            DotsyncError::NoPausedCascade =>
                "there is no paused cascade on this machine".to_owned(),
            DotsyncError::RepoAlreadyExists { path } => cat2(
                "repo already exists at ",
                path.text.as_str(),
            ),
            DotsyncError::NotInitialized { path } => cat3(
                "Dotsync could not find its hidden repo at ",
                path.text.as_str(),
                ". Run `dotsync init <remote-url>` from this home directory first.",
            ),
            DotsyncError::MissingHostname => "unable to determine machine hostname".to_owned(),
            DotsyncError::RemoteUnreachable { reason } => cat2(
                "could not reach the remote: ",
                reason.as_str(),
            ),
            DotsyncError::PartialInitLeftBehind { path, source, original } => {
                let first = original.message();
                let front = cat4(
                    first.as_str(),
                    "\n\nDotsync could also not remove the partly created repo at ",
                    path.text.as_str(),
                    ": ",
                );
                cat3(
                    front.as_str(),
                    source.as_str(),
                    ". Delete that directory before running `dotsync init` again.",
                )
            },
            DotsyncError::Jj { message } => cat2(
                "dotsync could not complete an internal repository operation: ",
                message.as_str(),
            ),
        }
    }
}

/// Whether an error is a failure inside dotsync's own repository handling, with
/// this message.
pub open spec fn is_internal(error: DotsyncError, text: Text) -> bool {
    match error {
        DotsyncError::Jj { message } => message@ == text,
        _ => false,
    }
}

/// Whether an error says that the repo has no history for a scope.
pub open spec fn is_not_in_repo(error: DotsyncError, named: Text) -> bool {
    match error {
        DotsyncError::ScopeNotInRepo { scope } => scope@ == named,
        _ => false,
    }
}

/// Whether an error says that there is no scope of a name.
pub open spec fn is_invalid_scope(error: DotsyncError, named: Text) -> bool {
    match error {
        DotsyncError::InvalidScope { scope } => scope@ == named,
        _ => false,
    }
}

/// A failure inside dotsync's own repository handling.
pub fn jj_error(message: String) -> (error: DotsyncError)
    ensures
        error == (DotsyncError::Jj { message }),
{
    DotsyncError::Jj { message }
}

/// The texts of some paths.
pub open spec fn path_texts(paths: Seq<FilePath>) -> Seq<Text> {
    paths.map_values(|p: FilePath| p.text@)
}

fn shown_paths(paths: &Vec<FilePath>) -> (shown: Vec<String>)
    ensures
        texts(shown@) == path_texts(paths@),
{
    let mut shown: Vec<String> = Vec::new();
    let mut i: usize = 0;
    while i < paths.len()
        invariant
            i <= paths.len(),
            shown.len() == i,
            forall|j: int| 0 <= j < i ==> (#[trigger] shown@[j])@ == paths@[j].text@,
        decreases paths.len() - i,
    {
        shown.push(paths[i].text.clone());
        i += 1;
    }
    proof {
        assert(texts(shown@) =~= path_texts(paths@));
    }
    shown
}

/// Some paths in one line.
pub fn display_paths(paths: &Vec<FilePath>) -> (text: String)
    ensures
        text@ == joined(path_texts(paths@), ", "@),
{
    let shown = shown_paths(paths);
    join(&shown, ", ")
}

/// What the repo does have, for a stop about a scope name it does not.
pub open spec fn repo_scopes_text(named: Text, scopes: Seq<Text>) -> Text {
    if scopes.len() == 0 {
        "named scope: "@ + named + "; this remote has no scopes yet"@
    } else {
        "named scope: "@ + named + "; scopes in the repo: "@ + joined(scopes, ", "@)
    }
}

/// What the repo does have, for a stop about a scope name it does not.
pub fn scopes_in_the_repo(named: &str, scopes: &Vec<String>) -> (text: String)
    ensures
        text@ == repo_scopes_text(named@, texts(scopes@)),
{
    if scopes.is_empty() {
        cat3("named scope: ", named, "; this remote has no scopes yet")
    } else {
        let list = join(scopes, ", ");
        cat4("named scope: ", named, "; scopes in the repo: ", list.as_str())
    }
}

/// One fact for each of some paths, which reads on after the path.
pub open spec fn facts(paths: Seq<Text>, rest: Text) -> Seq<Text> {
    paths.map_values(|path: Text| "`"@ + path + rest)
}

fn facts_of(paths: &Vec<String>, rest: &str) -> (list: Vec<String>)
    ensures
        texts(list@) == facts(texts(paths@), rest@),
{
    let mut list: Vec<String> = Vec::new();
    let mut i: usize = 0;
    while i < paths.len()
        invariant
            i <= paths.len(),
            list.len() == i,
            forall|j: int| 0 <= j < i ==> (#[trigger] list@[j])@ == "`"@ + paths@[j]@ + rest@,
        decreases paths.len() - i,
    {
        list.push(cat3("`", paths[i].as_str(), rest));
        i += 1;
    }
    proof {
        assert(texts(list@) =~= facts(texts(paths@), rest@));
    }
    list
}

/// The paths of some conflicted files.
pub open spec fn file_paths(files: Seq<ConflictedFile>) -> Seq<Text> {
    files.map_values(|f: ConflictedFile| f.path.text@)
}

fn shown_files(files: &Vec<ConflictedFile>) -> (shown: Vec<String>)
    ensures
        texts(shown@) == file_paths(files@),
{
    let mut shown: Vec<String> = Vec::new();
    let mut i: usize = 0;
    while i < files.len()
        invariant
            i <= files.len(),
            shown.len() == i,
            forall|j: int| 0 <= j < i ==> (#[trigger] shown@[j])@ == files@[j].path.text@,
        decreases files.len() - i,
    {
        shown.push(files[i].path.text.clone());
        i += 1;
    }
    proof {
        assert(texts(shown@) =~= file_paths(files@));
    }
    shown
}

impl ConflictedVersion {
    /// A copy of the version.
    pub fn copy(&self) -> (copy: ConflictedVersion)
        ensures
            copy@ == self@,
    {
        let contents = match &self.contents {
            Some(bytes) => {
                let again: Vec<u8> = bytes.clone();
                proof {
                    assert(again@ =~= bytes@);
                }
                Some(again)
            },
            None => None,
        };
        ConflictedVersion { role: self.role, label: self.label.clone(), contents }
    }
}

impl ConflictedFile {
    /// A copy of the file with its versions.
    pub fn copy(&self) -> (copy: ConflictedFile)
        ensures
            copy@ == self@,
    {
        let mut versions: Vec<ConflictedVersion> = Vec::new();
        let mut i: usize = 0;
        while i < self.versions.len()
            invariant
                i <= self.versions.len(),
                versions.len() == i,
                forall|j: int| 0 <= j < i ==> (#[trigger] versions@[j])@ == self.versions@[j]@,
            decreases self.versions.len() - i,
        {
            versions.push(self.versions[i].copy());
            i += 1;
        }
        proof {
            assert(version_views(versions@) =~= version_views(self.versions@));
        }
        ConflictedFile { path: self.path.copy(), state: self.state, versions }
    }
}

/// A copy of some conflicted files.
pub fn copy_files(files: &Vec<ConflictedFile>) -> (copy: Vec<ConflictedFile>)
    ensures
        file_views(copy@) == file_views(files@),
{
    let mut copy: Vec<ConflictedFile> = Vec::new();
    let mut i: usize = 0;
    while i < files.len()
        invariant
            i <= files.len(),
            copy.len() == i,
            forall|j: int| 0 <= j < i ==> (#[trigger] copy@[j])@ == files@[j]@,
        decreases files.len() - i,
    {
        copy.push(files[i].copy());
        i += 1;
    }
    proof {
        assert(file_views(copy@) =~= file_views(files@));
    }
    copy
}

/// What dotsync says of each of some rejected paths.
pub open spec fn rejection_texts(rejected: Seq<RejectedCommitPath>, scope: Text) -> Seq<Text> {
    rejected.map_values(|r: RejectedCommitPath| rejection_text(r.path.text@, r.problem, scope))
}

fn explain_rejected(rejected: &Vec<RejectedCommitPath>, scope: &str) -> (list: Vec<String>)
    ensures
        texts(list@) == rejection_texts(rejected@, scope@),
{
    let mut list: Vec<String> = Vec::new();
    let mut i: usize = 0;
    while i < rejected.len()
        invariant
            i <= rejected.len(),
            list.len() == i,
            forall|j: int|
                0 <= j < i ==> (#[trigger] list@[j])@ == rejection_texts(rejected@, scope@)[j],
        decreases rejected.len() - i,
    {
        list.push(rejected[i].explain(scope));
        i += 1;
    }
    proof {
        assert(texts(list@) =~= rejection_texts(rejected@, scope@));
    }
    list
}

/// What dotsync says of each of some refused paths.
pub open spec fn refusal_texts(refused: Seq<RefusedCommitPath>) -> Seq<Text> {
    refused.map_values(|r: RefusedCommitPath| refusal_text(r.path.text@, r.state))
}

fn explain_refused(refused: &Vec<RefusedCommitPath>) -> (list: Vec<String>)
    ensures
        texts(list@) == refusal_texts(refused@),
{
    let mut list: Vec<String> = Vec::new();
    let mut i: usize = 0;
    while i < refused.len()
        invariant
            i <= refused.len(),
            list.len() == i,
            forall|j: int| 0 <= j < i ==> (#[trigger] list@[j])@ == refusal_texts(refused@)[j],
        decreases refused.len() - i,
    {
        list.push(refused[i].explain());
        i += 1;
    }
    proof {
        assert(texts(list@) =~= refusal_texts(refused@));
    }
    list
}

/// Whether any of some rejected paths is the whole home directory.
pub open spec fn names_home_root(rejected: Seq<RejectedCommitPath>) -> bool {
    exists|i: int| 0 <= i < rejected.len() && (#[trigger] rejected[i]).problem is HomeRoot
}

/// Whether any of some rejected paths is dotsync's own state.
pub open spec fn names_dotsync_state(rejected: Seq<RejectedCommitPath>) -> bool {
    exists|i: int|
        0 <= i < rejected.len() && ((#[trigger] rejected[i]).problem is DotsyncRepoRoot
            || rejected[i].problem is InsideDotsyncRepo)
}

pub const UNUSABLE_SUMMARY_ONE: &'static str = "cannot commit that path";

pub const UNUSABLE_SUMMARY_MANY: &'static str = "cannot commit those paths";

pub const UNUSABLE_WHAT: &'static str = "Dotsync records the home files you name onto a scope branch, then cascades that scope so every machine sharing it receives the change. Every file on a scope is written back into home on each of those machines.";

pub const UNUSABLE_FLOW: &'static str = "This commit flow resolves each path you name against your home directory, checks that it is a config file dotsync may record, and commits the ones that changed.";

pub const UNUSABLE_EXPECTED: &'static str = "It expects every path you name to be a config file inside your home directory, named relative to it, and to exist either in home or on the target scope already.";

pub const UNUSABLE_WHY: &'static str = "Dotsync stopped before recording anything. A commit records every path you named or none of them, so fixing the paths above and rerunning the same command is safe.";

pub const UNUSABLE_STEP_RELATIVE_1: &'static str = "name paths relative to your home directory: `dotsync commit ";

pub const UNUSABLE_STEP_RELATIVE_2: &'static str = " -m \"message\" -- .config/fish/config.fish`.";

pub const UNUSABLE_STEP_PLAIN: &'static str = "do not use `~/`, absolute paths, or `..`; dotsync resolves every path against your home directory already, and records it verbatim.";

pub const UNUSABLE_STEP_HOME: &'static str = "name the directories or files you actually mean: `dotsync commit <scope> -m \"message\" -- .config/fish/ .bashrc`. Dotsync will not sweep a whole home directory onto a scope.";

pub const UNUSABLE_STEP_STATE: &'static str = "commit the config files you edited instead; dotsync's hidden repo is not config and cannot travel on a scope.";

pub const UNUSABLE_STEP_CREATE: &'static str = "to add a scope, run `dotsync create-scope <name> --parent <scope>`; scopes are branches in dotsync's own repo, not files in home.";

pub const UNUSABLE_STEP_STATUS: &'static str = "run `dotsync status` to see which managed files changed.";

/// What to do about paths that a commit will not record.
pub open spec fn unusable_steps(scope: Text, rejected: Seq<RejectedCommitPath>) -> Seq<Text> {
    let general = seq![
        UNUSABLE_STEP_RELATIVE_1@ + scope + UNUSABLE_STEP_RELATIVE_2@,
        UNUSABLE_STEP_PLAIN@,
    ];
    let about_home = if names_home_root(rejected) {
        seq![UNUSABLE_STEP_HOME@]
    } else {
        Seq::empty()
    };
    let about_state = if names_dotsync_state(rejected) {
        seq![UNUSABLE_STEP_STATE@, UNUSABLE_STEP_CREATE@]
    } else {
        Seq::empty()
    };
    general + about_home + about_state + seq![UNUSABLE_STEP_STATUS@]
}

/// What a commit says of paths that it will not record.
pub open spec fn unusable_teaching(scope: Text, rejected: Seq<RejectedCommitPath>) -> TeachingView {
    TeachingView {
        summary: if rejected.len() == 1 {
            UNUSABLE_SUMMARY_ONE@
        } else {
            UNUSABLE_SUMMARY_MANY@
        },
        what_dotsync_does: UNUSABLE_WHAT@,
        this_flow: UNUSABLE_FLOW@,
        expected: UNUSABLE_EXPECTED@,
        why_stopped: UNUSABLE_WHY@,
        next_steps: unusable_steps(scope, rejected),
    }
}

fn teach_unusable(scope: &str, rejected: &Vec<RejectedCommitPath>) -> (teaching: Teaching)
    ensures
        teaching@ == unusable_teaching(scope@, rejected@),
{
    let mut home = false;
    let mut state = false;
    let mut i: usize = 0;
    while i < rejected.len()
        invariant
            i <= rejected.len(),
            home == exists|j: int|
                0 <= j < i && (#[trigger] rejected@[j]).problem is HomeRoot,
            state == exists|j: int|
                0 <= j < i && ((#[trigger] rejected@[j]).problem is DotsyncRepoRoot
                    || rejected@[j].problem is InsideDotsyncRepo),
        decreases rejected.len() - i,
    {
        if rejected[i].is_home_root() {
            home = true;
        }
        if rejected[i].is_dotsync_state() {
            state = true;
        }
        i += 1;
    }
    let mut steps: Vec<String> = Vec::new();
    steps.push(cat3(UNUSABLE_STEP_RELATIVE_1, scope, UNUSABLE_STEP_RELATIVE_2));
    steps.push(UNUSABLE_STEP_PLAIN.to_owned());
    if home {
        steps.push(UNUSABLE_STEP_HOME.to_owned());
    }
    if state {
        steps.push(UNUSABLE_STEP_STATE.to_owned());
        steps.push(UNUSABLE_STEP_CREATE.to_owned());
    }
    steps.push(UNUSABLE_STEP_STATUS.to_owned());
    proof {
        assert(texts(steps@) =~= unusable_steps(scope@, rejected@));
    }
    let summary = if rejected.len() == 1 {
        UNUSABLE_SUMMARY_ONE
    } else {
        UNUSABLE_SUMMARY_MANY
    };
    Teaching::new(
        summary.to_owned(),
        UNUSABLE_WHAT.to_owned(),
        UNUSABLE_FLOW.to_owned(),
        UNUSABLE_EXPECTED.to_owned(),
        UNUSABLE_WHY.to_owned(),
        steps,
    )
}

/// A stop whose one line is the whole of it.
pub open spec fn bare_stop(code: Text, error: DotsyncError) -> ExplanationView {
    ExplanationView {
        code,
        message: message_text(error),
        paused_cascade: None,
        current_state: Seq::empty(),
        conflicts: Seq::empty(),
        teaching: None,
    }
}

/// The command that a stop names to be run again.
pub open spec fn rerun_text(invocation: Option<Text>) -> Text {
    match invocation {
        Some(text) => text,
        None => "dotsync"@,
    }
}

/// Everything a stop has to say.
pub open spec fn explanation(error: DotsyncError, invocation: Option<Text>) -> ExplanationView
    decreases error,
{
    match error {
        DotsyncError::SyncConflict { scope, files } => ExplanationView {
            conflicts: file_views(files@),
            current_state: facts(
                file_paths(files@),
                "` was changed in home and on `"@ + scope@
                    + "` since this machine last synced it"@,
            ),
            teaching: Some(sync_conflict_teaching(scope@, files@.len())),
            ..bare_stop("sync_conflict"@, error)
        },
        DotsyncError::CascadePaused { scope, borrowed_from, files } => ExplanationView {
            conflicts: file_views(files@),
            paused_cascade: Some(scope@),
            current_state: facts(
                file_paths(files@),
                "` was changed differently by two of the histories merging into `"@ + scope@
                    + "`"@,
            ),
            teaching: Some(
                cascade_paused_teaching(scope@, opt_text(borrowed_from), files@.len()),
            ),
            ..bare_stop("cascade_paused"@, error)
        },
        DotsyncError::UnresolvedConflict { scope, paths } => ExplanationView {
            paused_cascade: Some(scope@),
            current_state: seq![
                "still holding conflict markers, for the merge paused at scope `"@ + scope@ + "`: "@
                    + joined(path_texts(paths@), ", "@),
            ],
            teaching: Some(
                unresolved_conflict_teaching(
                    scope@,
                    if paths@.len() > 0 {
                        paths@[0].text@
                    } else {
                        Seq::empty()
                    },
                ),
            ),
            ..bare_stop("unresolved_conflict"@, error)
        },
        DotsyncError::PausedCascadeInProgress { scope } => ExplanationView {
            paused_cascade: Some(scope@),
            current_state: seq!["paused scope: "@ + scope@],
            teaching: Some(paused_in_progress_teaching()),
            ..bare_stop("paused_cascade_in_progress"@, error)
        },
        DotsyncError::UnusableCommitPaths { scope, rejected } => ExplanationView {
            current_state: rejection_texts(rejected@, scope@),
            teaching: Some(unusable_teaching(scope@, rejected@)),
            ..bare_stop("unusable_commit_paths"@, error)
        },
        DotsyncError::StaleCommitPaths { scope, refused } => ExplanationView {
            current_state: refusal_texts(refused@),
            teaching: Some(stale_paths_teaching(scope@, refused@.len())),
            ..bare_stop("stale_commit_paths"@, error)
        },
        DotsyncError::NothingToDiscard { paths } => ExplanationView {
            current_state: facts(path_texts(paths@), DISCARD_FACT@),
            teaching: Some(nothing_to_discard_teaching(paths@.len())),
            ..bare_stop("nothing_to_discard"@, error)
        },
        DotsyncError::InvalidScope { scope } => ExplanationView {
            teaching: Some(invalid_scope_teaching()),
            ..bare_stop("invalid_scope"@, error)
        },
        DotsyncError::NotARegularFile { path } => ExplanationView {
            teaching: Some(not_regular_teaching()),
            ..bare_stop("not_a_regular_file"@, error)
        },
        DotsyncError::FileNotOnScope { scope, path } => ExplanationView {
            teaching: Some(file_not_on_scope_teaching()),
            ..bare_stop("file_not_on_scope"@, error)
        },
        DotsyncError::RemoteUnreachable { reason } => ExplanationView {
            current_state: seq![reason@],
            teaching: Some(unreachable_teaching()),
            ..bare_stop("remote_unreachable"@, error)
        },
        DotsyncError::PartialInitLeftBehind { path, source, original } => ExplanationView {
            message: message_text(error),
            ..explanation(*original, invocation)
        },
        DotsyncError::NotInitialized { path } => ExplanationView {
            current_state: seq![
                "expected repo path: "@ + path.text@
                    + "; standard location: ~/.local/share/dotsync/repo"@,
            ],
            teaching: Some(not_initialized_teaching(rerun_text(invocation))),
            ..bare_stop("not_initialized"@, error)
        },
        DotsyncError::RepoAlreadyExists { path } => ExplanationView {
            teaching: Some(repo_exists_teaching()),
            ..bare_stop("repo_exists"@, error)
        },
        DotsyncError::NoSuchParentScope { parent, scopes } => ExplanationView {
            current_state: seq![repo_scopes_text(parent@, texts(scopes@))],
            teaching: Some(no_such_parent_teaching()),
            ..bare_stop("no_such_parent_scope"@, error)
        },
        DotsyncError::ParentScopeRequired { scope, scopes } => ExplanationView {
            current_state: seq![
                "creating scope: "@ + scope@ + "; "@ + if scopes@.len() == 0 {
                    "this remote has no scopes yet"@
                } else {
                    "scopes in the repo: "@ + joined(texts(scopes@), ", "@)
                },
            ],
            teaching: Some(parent_required_teaching(scope@)),
            ..bare_stop("parent_scope_required"@, error)
        },
        DotsyncError::MachineScopeIsShared { scope, children } => ExplanationView {
            current_state: seq![
                "scope: "@ + scope@ + "; scopes hanging off it: "@ + joined(
                    texts(children@),
                    ", "@,
                ),
            ],
            teaching: Some(
                shared_scope_teaching(scope@, joined(texts(children@), "` and `"@)),
            ),
            ..bare_stop("machine_scope_is_shared"@, error)
        },
        DotsyncError::MachineScopeAlreadyPlaced { scope, parents } => ExplanationView {
            current_state: seq![
                "scope: "@ + scope@ + "; it already hangs off: "@ + joined(texts(parents@), ", "@),
            ],
            teaching: Some(already_placed_teaching()),
            ..bare_stop("machine_scope_already_placed"@, error)
        },
        DotsyncError::MachineScopeMissing { scope, scopes, root } => ExplanationView {
            current_state: seq![repo_scopes_text(scope@, texts(scopes@))],
            teaching: Some(machine_scope_missing_teaching(scope@, opt_text(root))),
            ..bare_stop("machine_scope_missing"@, error)
        },
        DotsyncError::ScopeNameTaken { scope } => ExplanationView {
            teaching: Some(name_taken_teaching(scope@)),
            ..bare_stop("scope_name_taken"@, error)
        },
        DotsyncError::ScopeCreationConflict { scope, files } => ExplanationView {
            current_state: seq![
                "scope: "@ + scope@ + "; its parents hold different versions of: "@ + joined(
                    texts(files@),
                    ", "@,
                ),
            ],
            teaching: Some(parents_disagree_teaching(joined(texts(files@), ", "@))),
            ..bare_stop("scope_creation_conflict"@, error)
        },
        DotsyncError::HomeNotSet => bare_stop("home_not_set"@, error),
        DotsyncError::NonUtf8Path { quoted } => bare_stop("non_utf8_path"@, error),
        DotsyncError::GitSubmodule { path } => bare_stop("git_submodule"@, error),
        DotsyncError::NoPausedCascade => bare_stop("no_paused_cascade"@, error),
        DotsyncError::Io { path, source } => bare_stop("io"@, error),
        DotsyncError::ScopeNotInRepo { scope } => bare_stop("scope_not_in_repo"@, error),
        DotsyncError::MissingHostname => bare_stop("missing_hostname"@, error),
        DotsyncError::Jj { message } => bare_stop("internal"@, error),
    }
}

/// Whether two errors are the same stop, whatever they are about. A half-made
/// repo that an `init` left behind is the stop that the `init` came to.
pub open spec fn same_stop(one: DotsyncError, other: DotsyncError) -> bool {
    let one = first_stop(one);
    let other = first_stop(other);
    &&& one is HomeNotSet <==> other is HomeNotSet
    &&& one is NonUtf8Path <==> other is NonUtf8Path
    &&& one is GitSubmodule <==> other is GitSubmodule
    &&& one is NotARegularFile <==> other is NotARegularFile
    &&& one is UnusableCommitPaths <==> other is UnusableCommitPaths
    &&& one is StaleCommitPaths <==> other is StaleCommitPaths
    &&& one is UnresolvedConflict <==> other is UnresolvedConflict
    &&& one is NothingToDiscard <==> other is NothingToDiscard
    &&& one is Io <==> other is Io
    &&& one is NoSuchParentScope <==> other is NoSuchParentScope
    &&& one is ParentScopeRequired <==> other is ParentScopeRequired
    &&& one is MachineScopeIsShared <==> other is MachineScopeIsShared
    &&& one is MachineScopeAlreadyPlaced <==> other is MachineScopeAlreadyPlaced
    &&& one is MachineScopeMissing <==> other is MachineScopeMissing
    &&& one is ScopeNameTaken <==> other is ScopeNameTaken
    &&& one is ScopeCreationConflict <==> other is ScopeCreationConflict
    &&& one is InvalidScope <==> other is InvalidScope
    &&& one is FileNotOnScope <==> other is FileNotOnScope
    &&& one is ScopeNotInRepo <==> other is ScopeNotInRepo
    &&& one is SyncConflict <==> other is SyncConflict
    &&& one is CascadePaused <==> other is CascadePaused
    &&& one is PausedCascadeInProgress <==> other is PausedCascadeInProgress
    &&& one is NoPausedCascade <==> other is NoPausedCascade
    &&& one is RepoAlreadyExists <==> other is RepoAlreadyExists
    &&& one is NotInitialized <==> other is NotInitialized
    &&& one is MissingHostname <==> other is MissingHostname
    &&& one is RemoteUnreachable <==> other is RemoteUnreachable
    &&& one is Jj <==> other is Jj
}

/// The stop behind what it could not take with it.
pub open spec fn first_stop(error: DotsyncError) -> DotsyncError
    decreases error,
{
    match error {
        DotsyncError::PartialInitLeftBehind { path, source, original } => first_stop(*original),
        _ => error,
    }
}

proof fn lemma_first_stop(error: DotsyncError, invocation: Option<Text>)
    ensures
        !(first_stop(error) is PartialInitLeftBehind),
        explanation(error, invocation) == (ExplanationView {
            message: message_text(error),
            ..explanation(first_stop(error), invocation)
        }),
    decreases error,
{
    match error {
        DotsyncError::PartialInitLeftBehind { path, source, original } => {
            lemma_first_stop(*original, invocation);
        },
        _ => {},
    }
}

/// The codes tell all stops apart, whatever was typed.
pub proof fn law_stop_codes_differ(
    one: DotsyncError,
    other: DotsyncError,
    typed: Option<Text>,
    typed_other: Option<Text>,
)
    requires
        explanation(one, typed).code == explanation(other, typed_other).code,
    ensures
        same_stop(one, other),
{
    lemma_first_stop(one, typed);
    lemma_first_stop(other, typed_other);
    reveal_strlit("home_not_set");
    reveal_strlit("non_utf8_path");
    reveal_strlit("git_submodule");
    reveal_strlit("not_a_regular_file");
    reveal_strlit("unusable_commit_paths");
    reveal_strlit("stale_commit_paths");
    reveal_strlit("unresolved_conflict");
    reveal_strlit("nothing_to_discard");
    reveal_strlit("io");
    reveal_strlit("no_such_parent_scope");
    reveal_strlit("parent_scope_required");
    reveal_strlit("machine_scope_is_shared");
    reveal_strlit("machine_scope_already_placed");
    reveal_strlit("machine_scope_missing");
    reveal_strlit("scope_name_taken");
    reveal_strlit("scope_creation_conflict");
    reveal_strlit("invalid_scope");
    reveal_strlit("file_not_on_scope");
    reveal_strlit("scope_not_in_repo");
    reveal_strlit("sync_conflict");
    reveal_strlit("cascade_paused");
    reveal_strlit("paused_cascade_in_progress");
    reveal_strlit("no_paused_cascade");
    reveal_strlit("repo_exists");
    reveal_strlit("not_initialized");
    reveal_strlit("missing_hostname");
    reveal_strlit("remote_unreachable");
    reveal_strlit("internal");
    let a = explanation(first_stop(one), typed).code;
    let b = explanation(first_stop(other), typed_other).code;
    assert(a.len() == b.len());
    assert(a[0] == b[0]);
    assert(a.len() > 3 ==> a[3] == b[3]);
}

/// A stop says what it is in the words of the error, whatever lies behind it.
pub proof fn law_a_stop_keeps_its_message(error: DotsyncError, invocation: Option<Text>)
    ensures
        explanation(error, invocation).message == message_text(error),
{
    lemma_first_stop(error, invocation);
}

/// A stop names a paused scope exactly where a merge is waiting to be resolved
/// at one.
pub proof fn law_a_paused_scope_is_named(error: DotsyncError, invocation: Option<Text>)
    ensures
        explanation(error, invocation).paused_cascade == match first_stop(error) {
            DotsyncError::CascadePaused { scope, borrowed_from, files } => Some(scope@),
            DotsyncError::UnresolvedConflict { scope, paths } => Some(scope@),
            DotsyncError::PausedCascadeInProgress { scope } => Some(scope@),
            _ => None,
        },
{
    lemma_first_stop(error, invocation);
}

/// A stop that teaches has somewhere to go from here: it gives a step to try.
pub proof fn law_a_teaching_stop_gives_a_next_step(error: DotsyncError, invocation: Option<Text>)
    ensures
        match explanation(error, invocation).teaching {
            Some(teaching) => teaching.next_steps.len() > 0,
            None => true,
        },
{
    lemma_first_stop(error, invocation);
}

/// A conflict is presented whole: every file that the merge could not resolve,
/// with every version of it.
pub proof fn law_a_conflict_is_presented_whole(error: DotsyncError, invocation: Option<Text>)
    ensures
        explanation(error, invocation).conflicts == match first_stop(error) {
            DotsyncError::SyncConflict { scope, files } => file_views(files@),
            DotsyncError::CascadePaused { scope, borrowed_from, files } => file_views(files@),
            _ => Seq::empty(),
        },
{
    lemma_first_stop(error, invocation);
}

pub const DISCARD_FACT: &'static str = "` holds no change of this machine's own: dotsync either does not manage it, or home already holds what the scope says it should.";

impl Explanation {
    fn stop(code: &'static str, error: &DotsyncError) -> (stop: Explanation)
        ensures
            stop@ == bare_stop(code@, *error),
            stop.teaching is None,
    {
        let stop = Explanation {
            code,
            message: error.message(),
            paused_cascade: None,
            current_state: Vec::new(),
            conflicts: Vec::new(),
            teaching: None,
        };
        proof {
            assert(stop@.current_state =~= Seq::<Text>::empty());
            assert(stop@.conflicts =~= Seq::<ConflictedFileView>::empty());
        }
        stop
    }

    fn state(self, facts: Vec<String>) -> (stop: Explanation)
        ensures
            stop@ == (ExplanationView { current_state: texts(facts@), ..self@ }),
    {
        let mut stop = self;
        stop.current_state = facts;
        stop
    }

    fn conflicts(self, files: Vec<ConflictedFile>) -> (stop: Explanation)
        ensures
            stop@ == (ExplanationView { conflicts: file_views(files@), ..self@ }),
    {
        let mut stop = self;
        stop.conflicts = files;
        stop
    }

    fn paused_at(self, scope: &str) -> (stop: Explanation)
        ensures
            stop@ == (ExplanationView { paused_cascade: Some(scope@), ..self@ }),
    {
        let mut stop = self;
        stop.paused_cascade = Some(scope.to_owned());
        stop
    }

    fn teaching(self, teaching: Teaching) -> (stop: Explanation)
        ensures
            stop@ == (ExplanationView { teaching: Some(teaching@), ..self@ }),
    {
        let mut stop = self;
        stop.teaching = Some(teaching);
        stop
    }
}

fn borrowed(value: &Option<String>) -> (text: Option<&str>)
    ensures
        opt_str(text) == opt_text(*value),
{
    match value {
        Some(text) => Some(text.as_str()),
        None => None,
    }
}

impl DotsyncError {
    /// What this stop is, what it found, and where to go from here.
    ///
    /// `invocation` is what the user typed, when they typed something dotsync
    /// recognises: a stop that ends by naming the command to rerun has to name
    /// theirs.
    pub fn explain(&self, invocation: Option<&str>) -> (explained: Explanation)
        ensures
            explained@ == explanation(*self, opt_str(invocation)),
        decreases self,
    {
        match self {
            DotsyncError::SyncConflict { scope, files } => {
                let rest = cat3(
                    "` was changed in home and on `",
                    scope.as_str(),
                    "` since this machine last synced it",
                );
                let shown = shown_files(files);
                Explanation::stop("sync_conflict", self).conflicts(copy_files(files)).state(
                    facts_of(&shown, rest.as_str()),
                ).teaching(teach_sync_conflict(scope.as_str(), files.len()))
            },
            DotsyncError::CascadePaused { scope, borrowed_from, files } => {
                let rest = cat3(
                    "` was changed differently by two of the histories merging into `",
                    scope.as_str(),
                    "`",
                );
                let shown = shown_files(files);
                Explanation::stop("cascade_paused", self).conflicts(copy_files(files)).paused_at(
                    scope.as_str(),
                ).state(facts_of(&shown, rest.as_str())).teaching(
                    teach_cascade_paused(scope.as_str(), borrowed(borrowed_from), files.len()),
                )
            },
            DotsyncError::UnresolvedConflict { scope, paths } => {
                let list = display_paths(paths);
                let fact = cat4(
                    "still holding conflict markers, for the merge paused at scope `",
                    scope.as_str(),
                    "`: ",
                    list.as_str(),
                );
                let first = if paths.len() > 0 {
                    paths[0].text.clone()
                } else {
                    String::new()
                };
                Explanation::stop("unresolved_conflict", self).paused_at(scope.as_str()).state(
                    list1(fact),
                ).teaching(teach_unresolved_conflict(scope.as_str(), first.as_str()))
            },
            DotsyncError::PausedCascadeInProgress { scope } => {
                let fact = cat2("paused scope: ", scope.as_str());
                Explanation::stop("paused_cascade_in_progress", self).paused_at(
                    scope.as_str(),
                ).state(list1(fact)).teaching(teach_paused_in_progress())
            },
            DotsyncError::UnusableCommitPaths { scope, rejected } => {
                Explanation::stop("unusable_commit_paths", self).state(
                    explain_rejected(rejected, scope.as_str()),
                ).teaching(teach_unusable(scope.as_str(), rejected))
            },
            DotsyncError::StaleCommitPaths { scope, refused } => {
                Explanation::stop("stale_commit_paths", self).state(
                    explain_refused(refused),
                ).teaching(teach_stale_paths(scope.as_str(), refused.len()))
            },
            DotsyncError::NothingToDiscard { paths } => {
                let shown = shown_paths(paths);
                Explanation::stop("nothing_to_discard", self).state(
                    facts_of(&shown, DISCARD_FACT),
                ).teaching(teach_nothing_to_discard(paths.len()))
            },
            DotsyncError::InvalidScope { scope } => {
                Explanation::stop("invalid_scope", self).teaching(teach_invalid_scope())
            },
            DotsyncError::NotARegularFile { path } => {
                Explanation::stop("not_a_regular_file", self).teaching(teach_not_regular())
            },
            DotsyncError::FileNotOnScope { scope, path } => {
                Explanation::stop("file_not_on_scope", self).teaching(teach_file_not_on_scope())
            },
            DotsyncError::RemoteUnreachable { reason } => {
                Explanation::stop("remote_unreachable", self).state(
                    list1(reason.clone()),
                ).teaching(teach_unreachable())
            },
            DotsyncError::PartialInitLeftBehind { path, source, original } => {
                let mut explained = original.explain(invocation);
                explained.message = self.message();
                explained
            },
            DotsyncError::NotInitialized { path } => {
                let fact = cat3(
                    "expected repo path: ",
                    path.text.as_str(),
                    "; standard location: ~/.local/share/dotsync/repo",
                );
                let rerun = match invocation {
                    Some(text) => text,
                    None => "dotsync",
                };
                Explanation::stop("not_initialized", self).state(list1(fact)).teaching(
                    teach_not_initialized(rerun),
                )
            },
            DotsyncError::RepoAlreadyExists { path } => {
                Explanation::stop("repo_exists", self).teaching(teach_repo_exists())
            },
            DotsyncError::NoSuchParentScope { parent, scopes } => {
                let fact = scopes_in_the_repo(parent.as_str(), scopes);
                Explanation::stop("no_such_parent_scope", self).state(list1(fact)).teaching(
                    teach_no_such_parent(),
                )
            },
            DotsyncError::ParentScopeRequired { scope, scopes } => {
                let known = if scopes.is_empty() {
                    "this remote has no scopes yet".to_owned()
                } else {
                    cat2("scopes in the repo: ", join(scopes, ", ").as_str())
                };
                let fact = cat4("creating scope: ", scope.as_str(), "; ", known.as_str());
                Explanation::stop("parent_scope_required", self).state(list1(fact)).teaching(
                    teach_parent_required(scope.as_str()),
                )
            },
            DotsyncError::MachineScopeIsShared { scope, children } => {
                let list = join(children, ", ");
                let fact = cat4(
                    "scope: ",
                    scope.as_str(),
                    "; scopes hanging off it: ",
                    list.as_str(),
                );
                let quoted = join(children, "` and `");
                Explanation::stop("machine_scope_is_shared", self).state(list1(fact)).teaching(
                    teach_shared_scope(scope.as_str(), quoted.as_str()),
                )
            },
            DotsyncError::MachineScopeAlreadyPlaced { scope, parents } => {
                let list = join(parents, ", ");
                let fact = cat4(
                    "scope: ",
                    scope.as_str(),
                    "; it already hangs off: ",
                    list.as_str(),
                );
                Explanation::stop("machine_scope_already_placed", self).state(list1(fact)).teaching(
                    teach_already_placed(),
                )
            },
            DotsyncError::MachineScopeMissing { scope, scopes, root } => {
                let fact = scopes_in_the_repo(scope.as_str(), scopes);
                Explanation::stop("machine_scope_missing", self).state(list1(fact)).teaching(
                    teach_machine_scope_missing(scope.as_str(), borrowed(root)),
                )
            },
            DotsyncError::ScopeNameTaken { scope } => {
                Explanation::stop("scope_name_taken", self).teaching(
                    teach_name_taken(scope.as_str()),
                )
            },
            DotsyncError::ScopeCreationConflict { scope, files } => {
                let list = join(files, ", ");
                let fact = cat4(
                    "scope: ",
                    scope.as_str(),
                    "; its parents hold different versions of: ",
                    list.as_str(),
                );
                Explanation::stop("scope_creation_conflict", self).state(list1(fact)).teaching(
                    teach_parents_disagree(list.as_str()),
                )
            },
            DotsyncError::HomeNotSet => Explanation::stop("home_not_set", self),
            DotsyncError::NonUtf8Path { quoted } => Explanation::stop("non_utf8_path", self),
            DotsyncError::GitSubmodule { path } => Explanation::stop("git_submodule", self),
            DotsyncError::NoPausedCascade => Explanation::stop("no_paused_cascade", self),
            DotsyncError::Io { path, source } => Explanation::stop("io", self),
            DotsyncError::ScopeNotInRepo { scope } => Explanation::stop("scope_not_in_repo", self),
            DotsyncError::MissingHostname => Explanation::stop("missing_hostname", self),
            DotsyncError::Jj { message } => Explanation::stop("internal", self),
        }
    }
}

} // verus!
