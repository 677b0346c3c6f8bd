use dotsync::drift::FileState;
use dotsync::error::{
    one_or_many, scopes_in_the_repo, CommitPathProblem, ConflictRole, ConflictedFile,
    ConflictedVersion, DotsyncError, RefusedCommitPath, RejectedCommitPath,
};
use dotsync::paths::FilePath;

fn texts(list: &[&str]) -> Vec<String> {
    list.iter().map(|text| text.to_string()).collect()
}

fn at(path: &str) -> FilePath {
    FilePath::new(path)
}

fn conflicted(path: &str) -> ConflictedFile {
    ConflictedFile {
        path: at(path),
        state: Some(FileState::DivergedEdit),
        versions: vec![ConflictedVersion {
            role: ConflictRole::Side,
            label: "home".to_string(),
            contents: Some(vec![1, 2]),
        }],
    }
}

fn linux() -> String {
    "linux".to_string()
}

/// Every stop, with its code.
fn every_stop() -> Vec<(&'static str, DotsyncError)> {
    vec![
        ("home_not_set", DotsyncError::HomeNotSet),
        ("non_utf8_path", DotsyncError::NonUtf8Path { quoted: "\"\\xFF\"".to_string() }),
        ("git_submodule", DotsyncError::GitSubmodule { path: at("vendor") }),
        ("not_a_regular_file", DotsyncError::NotARegularFile { path: at("fifo") }),
        (
            "unusable_commit_paths",
            DotsyncError::UnusableCommitPaths {
                scope: linux(),
                rejected: vec![RejectedCommitPath {
                    path: at("/etc/hosts"),
                    problem: CommitPathProblem::Absolute,
                }],
            },
        ),
        (
            "stale_commit_paths",
            DotsyncError::StaleCommitPaths {
                scope: linux(),
                refused: vec![RefusedCommitPath {
                    path: at("a"),
                    state: FileState::StaleNotYours,
                }],
            },
        ),
        (
            "unresolved_conflict",
            DotsyncError::UnresolvedConflict { scope: linux(), paths: vec![at("a")] },
        ),
        ("nothing_to_discard", DotsyncError::NothingToDiscard { paths: vec![at("a")] }),
        ("io", DotsyncError::Io { path: at("/x"), source: "denied".to_string() }),
        (
            "no_such_parent_scope",
            DotsyncError::NoSuchParentScope {
                parent: "typo".to_string(),
                scopes: texts(&["all", "linux"]),
            },
        ),
        (
            "parent_scope_required",
            DotsyncError::ParentScopeRequired { scope: "desk".to_string(), scopes: vec![] },
        ),
        (
            "machine_scope_is_shared",
            DotsyncError::MachineScopeIsShared { scope: linux(), children: texts(&["a", "b"]) },
        ),
        (
            "machine_scope_already_placed",
            DotsyncError::MachineScopeAlreadyPlaced { scope: linux(), parents: texts(&["all"]) },
        ),
        (
            "machine_scope_missing",
            DotsyncError::MachineScopeMissing {
                scope: "desk".to_string(),
                scopes: texts(&["all"]),
                root: Some("all".to_string()),
            },
        ),
        ("scope_name_taken", DotsyncError::ScopeNameTaken { scope: linux() }),
        (
            "scope_creation_conflict",
            DotsyncError::ScopeCreationConflict { scope: linux(), files: texts(&["a", "b"]) },
        ),
        ("invalid_scope", DotsyncError::InvalidScope { scope: linux() }),
        ("file_not_on_scope", DotsyncError::FileNotOnScope { scope: linux(), path: at("a") }),
        ("scope_not_in_repo", DotsyncError::ScopeNotInRepo { scope: linux() }),
        (
            "sync_conflict",
            DotsyncError::SyncConflict { scope: linux(), files: vec![conflicted("a")] },
        ),
        (
            "cascade_paused",
            DotsyncError::CascadePaused {
                scope: linux(),
                borrowed_from: Some("desk".to_string()),
                files: vec![conflicted("a"), conflicted("b")],
            },
        ),
        (
            "paused_cascade_in_progress",
            DotsyncError::PausedCascadeInProgress { scope: linux() },
        ),
        ("no_paused_cascade", DotsyncError::NoPausedCascade),
        ("repo_exists", DotsyncError::RepoAlreadyExists { path: at("/repo") }),
        ("not_initialized", DotsyncError::NotInitialized { path: at("/repo") }),
        ("missing_hostname", DotsyncError::MissingHostname),
        ("remote_unreachable", DotsyncError::RemoteUnreachable { reason: "offline".to_string() }),
        ("internal", DotsyncError::Jj { message: "broken".to_string() }),
    ]
}

#[test]
fn every_stop_has_a_code_of_its_own() {
    let stops = every_stop();
    for (code, error) in &stops {
        assert_eq!(error.explain(None).code, *code);
    }
    for (i, (code, _)) in stops.iter().enumerate() {
        assert!(!stops[..i].iter().any(|(other, _)| other == code), "{code} comes twice");
    }
}

#[test]
fn every_stop_says_what_it_is_in_its_own_words() {
    for (code, error) in every_stop() {
        assert_eq!(error.explain(Some("dotsync commit")).message, error.message(), "{code}");
        assert!(!error.message().is_empty(), "{code} says nothing");
    }
    assert_eq!(
        DotsyncError::Jj { message: "broken".to_string() }.message(),
        "dotsync could not complete an internal repository operation: broken"
    );
}

#[test]
fn a_stop_that_teaches_gives_a_next_step() {
    for (code, error) in every_stop() {
        if let Some(teaching) = error.explain(None).teaching {
            assert!(!teaching.next_steps.is_empty(), "{code} leads nowhere");
            assert!(!teaching.summary.is_empty());
        }
    }
    assert!(DotsyncError::HomeNotSet.explain(None).teaching.is_none());
    assert!(DotsyncError::RepoAlreadyExists { path: at("/r") }.explain(None).teaching.is_some());
}

#[test]
fn a_paused_scope_is_named_where_a_merge_waits() {
    for (code, error) in every_stop() {
        let waits =
            ["cascade_paused", "unresolved_conflict", "paused_cascade_in_progress"].contains(&code);
        let named = error.explain(None).paused_cascade;
        assert_eq!(named.as_deref(), if waits { Some("linux") } else { None }, "{code}");
    }
}

#[test]
fn a_conflict_is_presented_with_every_version() {
    let stop = DotsyncError::CascadePaused {
        scope: linux(),
        borrowed_from: None,
        files: vec![conflicted("a"), conflicted("b")],
    };
    let explained = stop.explain(None);
    assert_eq!(explained.conflicts.len(), 2);
    assert_eq!(explained.conflicts[1].path.text, "b");
    assert_eq!(explained.conflicts[1].versions[0].contents, Some(vec![1, 2]));
    assert_eq!(
        explained.current_state,
        texts(&[
            "`a` was changed differently by two of the histories merging into `linux`",
            "`b` was changed differently by two of the histories merging into `linux`",
        ])
    );
}

#[test]
fn what_an_init_left_behind_is_explained_as_the_init() {
    let left = DotsyncError::PartialInitLeftBehind {
        path: at("/repo"),
        source: "busy".to_string(),
        original: Box::new(DotsyncError::RemoteUnreachable { reason: "offline".to_string() }),
    };
    let explained = left.explain(None);
    assert_eq!(explained.code, "remote_unreachable");
    assert_eq!(explained.current_state, texts(&["offline"]));
    let original = DotsyncError::RemoteUnreachable { reason: "offline".to_string() };
    assert_eq!(
        explained.message,
        format!(
            "{}\n\nDotsync could also not remove the partly created repo at /repo: busy. Delete that directory before running `dotsync init` again.",
            original.message()
        )
    );
}

#[test]
fn a_stop_names_the_command_to_rerun() {
    let stop = DotsyncError::NotInitialized { path: at("/repo") };
    let steps = |typed| stop.explain(typed).teaching.expect("it teaches").next_steps.join("\n");
    assert!(steps(Some("dotsync commit")).contains("`dotsync commit`"));
    assert!(!steps(None).contains("`dotsync commit`"));
}

#[test]
fn a_path_is_refused_in_words() {
    let refused = |state| RefusedCommitPath { path: at(".bashrc"), state }.explain();
    assert_eq!(
        refused(FileState::RemovedFromRepo),
        "`.bashrc` was deleted on another machine, and home still holds the copy dotsync last synced. Committing it would put the file back."
    );
    assert_eq!(
        refused(FileState::InSync),
        format!("`.bashrc` is {}.", FileState::InSync.reason())
    );
    let rejected = |problem| RejectedCommitPath { path: at("x"), problem };
    assert_eq!(
        rejected(CommitPathProblem::Unmatched { home_path: at("/home/max/x") }).explain("linux"),
        "`x` matched nothing: no file exists at or under /home/max/x, and scope `linux` tracks no file at or under `x`."
    );
    assert!(rejected(CommitPathProblem::HomeRoot).is_home_root());
    assert!(!rejected(CommitPathProblem::Absolute).is_home_root());
    assert!(rejected(CommitPathProblem::DotsyncRepoRoot { repo_root: at("/r") }).is_dotsync_state());
    assert!(!rejected(CommitPathProblem::HomeRoot).is_dotsync_state());
}

#[test]
fn counts_choose_their_words() {
    assert_eq!(one_or_many(1, "that file", "those {n} files"), "that file");
    assert_ne!(one_or_many(2, "that file", "those files"), "that file");
    let listed = scopes_in_the_repo("typo", &texts(&["all", "linux"]));
    assert!(listed.contains("all, linux"), "{listed}");
    let none = scopes_in_the_repo("typo", &vec![]);
    assert_ne!(listed, none);
}
