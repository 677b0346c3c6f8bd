use dotsync::drift::{
    changed_paths, classify, classify_managed_trees, state_of, Entries, FileState, StateGroup,
    TreeValue,
};
use dotsync::inspect::diff_report;
use dotsync::paths::FilePath;
use dotsync::sync::{file_changes, nothing_to_discard, sort_local_changes, LocalChanges};
use dotsync::sync_run::{
    sync_outcome, BothSides, HomeMerge, SyncEvent, SyncRun, SyncState,
};
use dotsync::sync::{conflicted_versions, finishing, machine_head, ConflictTerm, SyncReport};
use dotsync::error::{ConflictRole, DotsyncError};
use dotsync::repo::{Head, PushReport};
use dotsync::scope_graph::{Bookmark, Creation, History, ScopeGraph};
use dotsync::status::{status_report, MachineState};

fn file(id: &str) -> TreeValue {
    TreeValue::File { id: id.to_string(), executable: false }
}

fn link(id: &str) -> TreeValue {
    TreeValue::Symlink(id.to_string())
}

fn entries(list: &[(&str, &str)]) -> Entries {
    list.iter().map(|(path, id)| (FilePath::new(path), file(id))).collect()
}

fn graph() -> ScopeGraph {
    let history = History {
        bookmarks: vec![Bookmark { name: "all".to_string(), heads: vec!["a".to_string()] }],
        creations: vec![Creation {
            scope: "all".to_string(),
            commits: vec!["a".to_string()],
            description: None,
        }],
        ancestry: vec![("a".to_string(), "a".to_string())],
    };
    dotsync::scope_graph::derive(&history).ok().expect("the history is a DAG")
}

fn shown(paths: &[FilePath]) -> Vec<&str> {
    paths.iter().map(|path| path.text.as_str()).collect()
}

const EVERY_STATE: [FileState; 17] = [
    FileState::AbsentEverywhere,
    FileState::UntrackedInHome,
    FileState::IncomingNew,
    FileState::IncomingNewAlreadyMatchesHome,
    FileState::IncomingNewCollidesWithUntrackedHome,
    FileState::DeletedInHome,
    FileState::DeletedInHomeTipAlsoChanged,
    FileState::EditedInHome,
    FileState::KindDiffersFromScope,
    FileState::EditedInHomeButRemovedFromRepo,
    FileState::AlreadyApplied,
    FileState::DivergedEdit,
    FileState::DivergedEditThatMerges,
    FileState::StaleNotYours,
    FileState::RemovedFromRepo,
    FileState::RemovedEverywhere,
    FileState::InSync,
];

#[test]
fn every_combination_of_three_sides_has_its_state() {
    let (x, y, z) = (file("x"), file("y"), file("z"));
    let (x, y, z) = (Some(&x), Some(&y), Some(&z));
    for (last, home, tip, merges, expected) in [
        (None, None, None, false, FileState::AbsentEverywhere),
        (x, None, None, false, FileState::RemovedEverywhere),
        (None, x, x, false, FileState::IncomingNewAlreadyMatchesHome),
        (x, x, x, false, FileState::InSync),
        (x, y, y, false, FileState::AlreadyApplied),
        (None, None, x, false, FileState::IncomingNew),
        (x, x, None, false, FileState::RemovedFromRepo),
        (x, x, y, false, FileState::StaleNotYours),
        (x, None, x, false, FileState::DeletedInHome),
        (x, None, y, false, FileState::DeletedInHomeTipAlsoChanged),
        (None, x, None, false, FileState::UntrackedInHome),
        (x, y, None, false, FileState::EditedInHomeButRemovedFromRepo),
        (x, y, x, false, FileState::EditedInHome),
        (None, x, y, false, FileState::IncomingNewCollidesWithUntrackedHome),
        (None, x, y, true, FileState::DivergedEditThatMerges),
        (x, y, z, false, FileState::DivergedEdit),
        (x, y, z, true, FileState::DivergedEditThatMerges),
    ] {
        assert_eq!(classify(last, home, tip, merges), expected);
    }
    let linked = link("x");
    assert_eq!(classify(x, Some(&linked), x, false), FileState::KindDiffersFromScope);
    let executable = TreeValue::File { id: "x".to_string(), executable: true };
    assert_eq!(classify(x, Some(&executable), x, false), FileState::EditedInHome);
}

#[test]
fn the_codes_of_the_states_are_all_different() {
    for one in EVERY_STATE {
        for other in EVERY_STATE {
            assert_eq!(one.code() == other.code(), one == other);
        }
    }
    assert_eq!(FileState::DivergedEdit.code(), "conflicted");
    assert_eq!(FileState::EditedInHome.code(), "modified");
    assert_eq!(FileState::InSync.code(), "in_sync");
}

#[test]
fn the_reason_of_a_reported_state_tells_which_it_is() {
    for one in EVERY_STATE {
        if one.is_drift() || one.is_incoming() || one == FileState::UntrackedInHome {
            for other in EVERY_STATE {
                assert_eq!(one.reason() == other.reason(), one == other);
            }
        }
    }
    assert_eq!(FileState::AlreadyApplied.reason(), FileState::InSync.reason());
}

#[test]
fn a_change_is_this_machines_own_or_incoming_and_never_both() {
    for state in EVERY_STATE {
        assert!(!(state.is_drift() && state.is_incoming()), "{state:?} is both");
    }
    assert!(FileState::DeletedInHome.is_drift());
    assert!(FileState::StaleNotYours.is_incoming());
    assert!(FileState::StaleNotYours.blocks_commit());
    assert!(!FileState::EditedInHome.blocks_commit());
    assert!(FileState::DivergedEdit.forcing_decides_something());
    assert!(!FileState::EditedInHome.forcing_decides_something());
}

#[test]
fn trees_are_classified_path_by_path() {
    let mark = entries(&[("a", "1"), ("b", "1"), ("c", "1"), ("e", "1")]);
    let snapshot = entries(&[("a", "1"), ("b", "2"), ("e", "2")]);
    let head = entries(&[("a", "2"), ("b", "1"), ("c", "1"), ("d", "1"), ("e", "3")]);
    let classified = classify_managed_trees(&mark, &snapshot, &head, &vec![FilePath::new("e")]);
    let found: Vec<(&str, FileState)> =
        classified.iter().map(|(path, at)| (path.text.as_str(), at.state)).collect();
    assert_eq!(
        found,
        vec![
            ("a", FileState::StaleNotYours),
            ("b", FileState::EditedInHome),
            ("c", FileState::DeletedInHome),
            ("d", FileState::IncomingNew),
            ("e", FileState::DivergedEdit),
        ]
    );
    let merged = classify_managed_trees(&mark, &snapshot, &head, &vec![]);
    assert_eq!(state_of(&merged, &FilePath::new("e")), FileState::DivergedEditThatMerges);
    assert_eq!(state_of(&merged, &FilePath::new("x")), FileState::AbsentEverywhere);

    let drift = changed_paths(&classified, StateGroup::Drift);
    let drifted: Vec<&str> = drift.iter().map(|(path, _)| path.text.as_str()).collect();
    assert_eq!(drifted, vec!["b", "c", "e"]);
    let incoming = file_changes(&classified, StateGroup::Incoming);
    let arriving: Vec<&str> = incoming.iter().map(|change| change.path.text.as_str()).collect();
    assert_eq!(arriving, vec!["a", "d"]);
    let machine = MachineState {
        paused_cascade: None,
        unpushed_scopes: vec![],
        diverged_scopes: vec![],
    };
    let report = status_report("all".to_string(), machine, &classified);
    assert_eq!(report.changes.len(), 3);
    assert_eq!(report.incoming.len(), 2);
}

#[test]
fn a_sync_accounts_for_every_local_change() {
    let mark = entries(&[("a", "1"), ("b", "1"), ("c", "1")]);
    let snapshot = entries(&[("a", "2"), ("b", "2"), ("c", "1")]);
    let head = entries(&[("a", "1"), ("b", "1"), ("c", "2")]);
    let classified = classify_managed_trees(&mark, &snapshot, &head, &vec![]);
    let (gone, kept) = sort_local_changes(&classified, &LocalChanges::Carry);
    assert_eq!((gone.len(), kept.len()), (0, 2));
    let (gone, kept) = sort_local_changes(&classified, &LocalChanges::Discard);
    assert_eq!((gone.len(), kept.len()), (2, 0));
    let at = LocalChanges::DiscardAt(vec![FilePath::new("./b")]);
    let (gone, _) = sort_local_changes(&classified, &at);
    assert_eq!(gone.len(), 0, "`./b` is another path than `b`");
    let at = LocalChanges::DiscardAt(vec![FilePath::new("b/")]);
    let (gone, kept) = sort_local_changes(&classified, &at);
    assert_eq!(gone[0].0.text, "b");
    assert_eq!(kept[0].path.text, "a");

    let outcome = sync_outcome(
        "work-linux",
        &FilePath::new("/home/max"),
        &head,
        &classified,
        &at,
        HomeMerge::Taken {
            contents: vec![BothSides { repo: Some(vec![1]), home: Some(vec![2]) }],
        },
    );
    let report = outcome.ok().expect("the merge was taken");
    assert_eq!(report.current_scope, "work-linux");
    assert_eq!(shown(&report.synced_paths), vec!["a", "b", "c"]);
    assert_eq!(report.drifts.len(), 1);
    assert_eq!(report.drifts[0].system_path.text, "/home/max/b");
    assert_eq!(report.drifts[0].repo_bytes, Some(vec![1]));
    assert_eq!(report.drifts[0].home_bytes, Some(vec![2]));
    assert_eq!(report.drifts[0].state, FileState::EditedInHome);
    assert_eq!(report.carried_changes.len(), 1);
}

#[test]
fn what_a_sync_destroys_is_listed_in_order() {
    let mark = entries(&[("a", "1"), ("b", "1"), ("c", "1")]);
    let snapshot = entries(&[("a", "2"), ("b", "2"), ("c", "2")]);
    let classified = classify_managed_trees(&mark, &snapshot, &mark, &vec![]);
    let sides = |id: u8| BothSides { repo: Some(vec![0]), home: Some(vec![id]) };
    let outcome = sync_outcome(
        "all",
        &FilePath::new("/h"),
        &mark,
        &classified,
        &LocalChanges::Discard,
        HomeMerge::Taken { contents: vec![sides(1), sides(2), sides(3)] },
    );
    let report = outcome.ok().expect("the merge was taken");
    let listed: Vec<(&str, Option<Vec<u8>>)> = report
        .drifts
        .iter()
        .map(|drift| (drift.repo_path.text.as_str(), drift.home_bytes.clone()))
        .collect();
    assert_eq!(
        listed,
        vec![("a", Some(vec![1])), ("b", Some(vec![2])), ("c", Some(vec![3]))]
    );
}

#[test]
fn a_conflict_presents_the_base_before_the_sides() {
    let term = |label: &str, contents: Option<Vec<u8>>| ConflictTerm {
        label: label.to_string(),
        contents,
    };
    let versions = conflicted_versions(
        &vec![term("last synced", Some(vec![1]))],
        &vec![term("home", Some(vec![2])), term("all", None)],
    );
    let labels: Vec<(&str, ConflictRole)> =
        versions.iter().map(|version| (version.label.as_str(), version.role)).collect();
    assert_eq!(
        labels,
        vec![
            ("last synced", ConflictRole::Base),
            ("home", ConflictRole::Side),
            ("all", ConflictRole::Side),
        ]
    );
    let mark = entries(&[("a", "1"), ("b", "1")]);
    let snapshot = entries(&[("a", "2"), ("b", "2")]);
    let head = entries(&[("a", "3"), ("b", "1")]);
    let classified = classify_managed_trees(&mark, &snapshot, &head, &vec![FilePath::new("a")]);
    let outcome = sync_outcome(
        "all",
        &FilePath::new("/h"),
        &head,
        &classified,
        &LocalChanges::Carry,
        HomeMerge::Conflicted { unresolved: vec![(FilePath::new("a"), versions)] },
    );
    match outcome {
        Err(DotsyncError::SyncConflict { scope, files }) => {
            assert_eq!(scope, "all");
            assert_eq!(files.len(), 1);
            assert_eq!(files[0].path.text, "a");
            assert_eq!(files[0].state, Some(FileState::DivergedEdit));
            assert_eq!(files[0].versions.len(), 3);
        }
        _ => panic!("the merge did not resolve"),
    }
}

#[test]
fn a_discard_names_only_paths_that_hold_a_change() {
    let mark = entries(&[("a", "1"), ("b", "1")]);
    let snapshot = entries(&[("a", "2"), ("b", "1")]);
    let classified = classify_managed_trees(&mark, &snapshot, &mark, &vec![]);
    let targets = |list: &[&str]| list.iter().map(|path| FilePath::new(path)).collect::<Vec<_>>();
    assert!(nothing_to_discard(&targets(&["a"]), &classified).is_none());
    match nothing_to_discard(&targets(&["a", "b", "typo"]), &classified) {
        Some(DotsyncError::NothingToDiscard { paths }) => {
            assert_eq!(shown(&paths), vec!["b", "typo"]);
        }
        _ => panic!("two of the paths hold no change"),
    }
    let run = SyncRun::start(Some(targets(&["b"]))).step(SyncEvent::Fetched);
    assert!(matches!(run.state, SyncState::Classify));
    let run = run.step(SyncEvent::Classified { classified });
    assert!(matches!(run.state, SyncState::Done(Err(DotsyncError::NothingToDiscard { .. }))));
}

#[test]
fn a_plain_run_publishes_before_it_touches_home() {
    let report = SyncReport {
        current_scope: "all".to_string(),
        synced_paths: vec![],
        drifts: vec![],
        carried_changes: vec![],
    };
    let run = SyncRun::start(None).step(SyncEvent::Fetched);
    assert!(matches!(run.state, SyncState::Converge));
    let run = run.step(SyncEvent::Published { push: PushReport::UpToDate });
    assert!(matches!(run.state, SyncState::Converge));
    let run = run.step(SyncEvent::Converged);
    assert!(matches!(run.state, SyncState::Publish));
    let run = run.step(SyncEvent::Published { push: PushReport::UpToDate });
    assert!(matches!(run.state, SyncState::SyncHome { .. }));
    let run = run.step(SyncEvent::HomeSynced { sync: report });
    match run.state {
        SyncState::Done(Ok(done)) => assert_eq!(done.sync.current_scope, "all"),
        _ => panic!("the run is done"),
    }
    let stopped = SyncRun::start(None).step(SyncEvent::Stopped { error: DotsyncError::HomeNotSet });
    assert!(matches!(stopped.state, SyncState::Done(Err(DotsyncError::HomeNotSet))));
}

#[test]
fn the_runs_own_failure_wins_over_a_failure_to_persist() {
    let failed = |error| finishing::<u8>(Err(DotsyncError::MissingHostname), error);
    assert!(matches!(failed(Ok(())), Err(DotsyncError::MissingHostname)));
    assert!(matches!(
        failed(Err(DotsyncError::HomeNotSet)),
        Err(DotsyncError::MissingHostname)
    ));
    assert!(matches!(
        finishing(Ok(1u8), Err(DotsyncError::HomeNotSet)),
        Err(DotsyncError::HomeNotSet)
    ));
    assert!(matches!(finishing(Ok(1u8), Ok(())), Ok(1)));
}

#[test]
fn a_machine_without_its_scope_is_told_what_the_repo_has() {
    let heads = vec![("all".to_string(), Head::at("a".to_string()))];
    let graph = graph();
    assert_eq!(machine_head(&graph, &heads, "all").ok().as_deref(), Some("a"));
    match machine_head(&graph, &heads, "laptop") {
        Err(DotsyncError::MachineScopeMissing { scope, scopes, root }) => {
            assert_eq!(scope, "laptop");
            assert_eq!(scopes, vec!["all".to_string()]);
            assert_eq!(root.as_deref(), Some("all"));
        }
        _ => panic!("the repo has no such scope"),
    }
    let contested = Head { sides: vec!["a".to_string(), "b".to_string()], contested: true };
    let heads = vec![("all".to_string(), contested)];
    assert!(matches!(
        machine_head(&graph, &heads, "all"),
        Err(DotsyncError::ScopeNotInRepo { .. })
    ));
}

#[test]
fn diff_shows_what_status_lists() {
    let mark = entries(&[("a", "1"), ("b", "1"), ("c", "1")]);
    let snapshot = entries(&[("a", "2"), ("b", "1"), ("c", "2")]);
    let head = entries(&[("a", "1"), ("b", "2"), ("c", "1")]);
    let classified = classify_managed_trees(&mark, &snapshot, &head, &vec![]);
    let machine = || MachineState {
        paused_cascade: None,
        unpushed_scopes: vec![],
        diverged_scopes: vec![],
    };
    let status = status_report("all".to_string(), machine(), &classified);
    let sides = |id: u8| BothSides { repo: None, home: Some(vec![id]) };
    let diff = diff_report(
        "all".to_string(),
        machine(),
        &FilePath::new("/h"),
        &classified,
        vec![sides(1), sides(3)],
    );
    let listed: Vec<(&str, FileState)> =
        status.changes.iter().map(|change| (change.path.text.as_str(), change.state)).collect();
    let compared: Vec<(&str, FileState)> =
        diff.drifts.iter().map(|drift| (drift.repo_path.text.as_str(), drift.state)).collect();
    assert_eq!(listed, compared);
    assert_eq!(listed, vec![("a", FileState::EditedInHome), ("c", FileState::EditedInHome)]);
    assert_eq!(diff.drifts[1].home_bytes, Some(vec![3]));
    assert_eq!(diff.drifts[1].system_path.text, "/h/c");
}
