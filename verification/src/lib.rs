//! The core of dotsync: config files on a graph of scopes, one branch each, where
//! a change on a scope reaches every scope below it and home follows this
//! machine's own.
//!
//! Everything here decides, computes or renders. It holds no repo, no remote and
//! no file: a caller hands in what those said and does what comes back.
pub mod answer;
pub mod bootstrap;
pub mod cascade;
pub mod cli;
pub mod commit;
pub mod config;
pub mod converge;
pub mod creation;
pub mod drift;
pub mod error;
pub mod growth;
pub mod home;
pub mod inspect;
pub mod lineage;
pub mod machine;
pub mod order;
pub mod pass;
pub mod paths;
pub mod pause;
pub mod payload;
pub mod reach;
pub mod recorded;
pub mod render;
pub mod repo;
pub mod resume;
pub mod said;
pub mod scope_graph;
pub mod scope_lifecycle;
pub mod search;
pub mod selection;
pub mod seqs;
pub mod session;
pub mod settled;
pub mod status;
pub mod sync;
pub mod sync_run;
pub mod teaching;
pub mod text;
pub mod walk;
pub mod working_copy;

pub use crate::bootstrap::{CreatedScope, InitReport};
pub use crate::commit::{CommitReport, RecordedCommit};
pub use crate::drift::FileState;
pub use crate::error::{
    CommitPathProblem, ConflictRole, ConflictedFile, ConflictedVersion, DotsyncError, Explanation,
    RefusedCommitPath, RejectedCommitPath, SkipReason, SkippedCommitPath, Teaching,
};
pub use crate::inspect::{view, DiffReport, ScopeInfo, ViewAnswer, ViewReport};
pub use crate::pause::{AbortReport, ContinueReport, Resumed};
pub use crate::repo::PushReport;
pub use crate::selection::{CommitOptions, DotsyncPaths};
pub use crate::session::{Run, UnreachableRemote};
pub use crate::status::{MachineState, StatusReport};
pub use crate::sync::{FileChange, FileDrift, SyncCommandReport, SyncReport};
