use dotsync::commit::{
    commit_finishing, commit_overlays, commit_scope_label, commit_write, merge_base, merge_found, paused_commit_record,
    scope_is_ancestor_or_self, CascadeEnd, CommitEvent, CommitFailure, CommitReport, CommitRun, CommitState, MergeBase,
    MergeFound,
};
use dotsync::converge::{
    checkpoint, convergence_candidates, convergence_description, convergence_inputs, merge_plan,
    push_again, scope_step, Input, ScopeStep,
};
use dotsync::drift::TreeValue;
use dotsync::error::{ConflictRole, ConflictedVersion, DotsyncError};
use dotsync::pass::{PassAction, PassEvent, PassRun};
use dotsync::paths::FilePath;
use dotsync::pause::{
    abort_plan, after_resolving, borrowed_from, continue_plan, holds_conflict_markers,
    paused_run_path, paused_scope, refuse_markers, reject_commit_if_paused, ContinuePlan, HomeFile,
    PausedCommit, PausedRun, Resumed,
};
use dotsync::repo::{Head, Heads, PushReport, RefPair, Rejection};
use dotsync::resume::{
    present, sync_conflict_report, AbortEvent, AbortRun, AbortState, PausedMerge, PublishEvent,
    PublishState, ResumeEvent, ResumeRun, ResumeState, SyncConflictEvent, SyncConflictRun,
    SyncConflictState,
};
use dotsync::scope_graph::{Bookmark, Creation, History, ScopeGraph};
use dotsync::selection::{DotsyncPaths, Selection};
use dotsync::status::{machine_state, PausedCascade};
use dotsync::sync::{LocalChanges, SyncReport};

fn texts(list: &[&str]) -> Vec<String> {
    list.iter().map(|text| text.to_string()).collect()
}

fn paths(list: &[&str]) -> Vec<FilePath> {
    list.iter().map(|path| FilePath::new(path)).collect()
}

fn shown(list: &[FilePath]) -> Vec<&str> {
    list.iter().map(|path| path.text.as_str()).collect()
}

fn head(sides: &[&str]) -> Head {
    Head { sides: texts(sides), contested: sides.len() > 1 }
}

/// `all`, `linux` and `work` below it, and `laptop` below `linux`.
fn graph() -> ScopeGraph {
    let created = |scope: &str, id: &str| Creation {
        scope: scope.to_string(),
        commits: texts(&[id]),
        description: None,
    };
    let placed = |name: &str, id: &str| Bookmark { name: name.to_string(), heads: texts(&[id]) };
    let pair = |above: &str, below: &str| (above.to_string(), below.to_string());
    let history = History {
        bookmarks: vec![
            placed("all", "a"),
            placed("laptop", "p"),
            placed("linux", "l"),
            placed("work", "w"),
        ],
        creations: vec![
            created("all", "a"),
            created("laptop", "p"),
            created("linux", "l"),
            created("work", "w"),
        ],
        ancestry: vec![
            pair("a", "a"),
            pair("a", "l"),
            pair("l", "l"),
            pair("a", "w"),
            pair("w", "w"),
            pair("a", "p"),
            pair("l", "p"),
            pair("p", "p"),
        ],
    };
    dotsync::scope_graph::derive(&history).ok().expect("the history is a DAG")
}

fn heads(list: &[(&str, &[&str])]) -> Heads {
    list.iter().map(|(scope, sides)| (scope.to_string(), head(sides))).collect()
}

fn report() -> SyncReport {
    SyncReport {
        current_scope: "laptop".to_string(),
        synced_paths: vec![],
        drifts: vec![],
        carried_changes: vec![],
    }
}

fn conflict() -> DotsyncError {
    DotsyncError::CascadePaused {
        scope: "linux".to_string(),
        borrowed_from: None,
        files: vec![],
    }
}

#[test]
fn a_scopes_new_head_accounts_for_its_own_sides_and_its_parents() {
    let now = heads(&[("all", &["a2"]), ("linux", &["l2", "l3"])]);
    let published = head(&["l3"]);
    let found = convergence_candidates(&graph(), &now, &published, "linux");
    let labels: Vec<(&str, &str)> =
        found.iter().map(|input| (input.id.as_str(), input.label.as_str())).collect();
    assert_eq!(
        labels,
        vec![
            ("l2", "`linux` as this machine has it"),
            ("l3", "`linux` as it was published"),
            ("a2", "scope `all`"),
        ]
    );
    let left = convergence_inputs(found, &texts(&["a2", "l2"]));
    let ids: Vec<&str> = left.iter().map(|input| input.id.as_str()).collect();
    assert_eq!(ids, vec!["l2", "a2"]);
}

#[test]
fn what_becomes_of_a_scope_follows_from_what_is_left() {
    let input = |id: &str| Input { id: id.to_string(), label: id.to_string() };
    assert!(matches!(scope_step(&vec![], &head(&[])), ScopeStep::Skip));
    assert!(matches!(scope_step(&vec![input("l")], &head(&["l"])), ScopeStep::Keep));
    assert!(matches!(
        scope_step(&vec![input("m")], &head(&["l"])),
        ScopeStep::FastForward { id } if id == "m"
    ));
    assert!(matches!(
        scope_step(&vec![input("l")], &head(&["l", "k"])),
        ScopeStep::FastForward { id } if id == "l"
    ));
    let three = vec![input("l"), input("m"), input("n")];
    assert!(matches!(scope_step(&three, &head(&["l"])), ScopeStep::Merge));
    let steps = merge_plan(&three);
    assert_eq!(steps.len(), 2);
    assert_eq!(steps[0].merged, texts(&["l"]));
    assert_eq!(steps[0].merged_label, "l");
    assert_eq!(steps[0].with, "m");
    assert_eq!(steps[1].merged, texts(&["l", "m"]));
    assert_eq!(steps[1].merged_label, "the merge so far");
    assert_eq!(steps[1].with_label, "n");
    assert_eq!(convergence_description("linux"), "dotsync: converge linux");
}

/// Runs a pass in which `covered` says which commits each commit covers, and
/// the merges into `stops` are conflicted.
fn run_pass(
    start: Heads,
    covered: &[(&str, &[&str])],
    stops: &[&str],
    answered: Option<&str>,
) -> (Vec<String>, bool, Option<String>) {
    let graph = graph();
    let none: Heads = vec![];
    let mut run = PassRun::start(&graph, start, answered.map(str::to_string));
    let mut log: Vec<String> = Vec::new();
    loop {
        let event = match run.action(&graph, &none) {
            PassAction::Reduce { candidates, .. } => {
                let ids: Vec<String> = candidates.iter().map(|input| input.id.clone()).collect();
                let uncovered: Vec<String> = ids
                    .iter()
                    .filter(|id| {
                        !ids.iter().any(|other| {
                            other != *id
                                && covered.iter().any(|(by, below)| {
                                    by == other && below.contains(&id.as_str())
                                })
                        })
                    })
                    .cloned()
                    .collect();
                PassEvent::Reduced { uncovered }
            }
            PassAction::SetHead { scope, id } => {
                log.push(format!("set {scope} {id}"));
                PassEvent::HeadSet
            }
            PassAction::Merge { scope, .. } => {
                PassEvent::Merged { conflicted: stops.contains(&scope.as_str()) }
            }
            PassAction::LayAnswer { scope } => {
                log.push(format!("answer {scope}"));
                PassEvent::AnswerLaid { conflicted: false }
            }
            PassAction::Write { scope, parents, description } => {
                log.push(format!("{description} {}", parents.join("+")));
                PassEvent::Written { id: format!("{scope}*") }
            }
            PassAction::Finish { moved, paused } => return (log, moved, paused),
        };
        run = run.step(&graph, &none, event);
    }
}

const SETTLED: [(&str, &[&str]); 3] = [("l", &["a"]), ("w", &["a"]), ("p", &["l", "a"])];

fn settled() -> Heads {
    heads(&[("all", &["a"]), ("laptop", &["p"]), ("linux", &["l"]), ("work", &["w"])])
}

#[test]
fn a_pass_over_settled_scopes_moves_nothing() {
    let (log, moved, paused) = run_pass(settled(), &SETTLED, &[], None);
    assert_eq!(log, texts(&[]));
    assert!(!moved);
    assert_eq!(paused, None);
}

#[test]
fn a_change_on_the_root_reaches_every_scope_below() {
    let start = heads(&[
        ("all", &["a2"]),
        ("laptop", &["p"]),
        ("linux", &["l"]),
        ("work", &["w"]),
    ]);
    let (log, moved, paused) = run_pass(start, &SETTLED, &[], None);
    assert_eq!(
        log,
        texts(&[
            "dotsync: converge linux l+a2",
            "dotsync: converge work w+a2",
            "dotsync: converge laptop p+linux*",
        ])
    );
    assert!(moved);
    assert_eq!(paused, None);
}

#[test]
fn nothing_below_a_conflict_moves() {
    let start = heads(&[
        ("all", &["a2"]),
        ("laptop", &["p"]),
        ("linux", &["l"]),
        ("work", &["w"]),
    ]);
    let (log, _, paused) = run_pass(start, &SETTLED, &["linux"], None);
    assert!(!log.iter().any(|line| line.contains("laptop")));
    assert_eq!(paused.as_deref(), Some("linux"));
    let start = heads(&[
        ("all", &["a2"]),
        ("laptop", &["p"]),
        ("linux", &["l"]),
        ("work", &["w"]),
    ]);
    let (log, moved, paused) = run_pass(start, &SETTLED, &["linux"], Some("linux"));
    assert_eq!(log[0], "answer linux");
    assert_eq!(log[1], "dotsync: converge linux l+a2");
    assert!(moved);
    assert_eq!(paused, None);
}

#[test]
fn a_head_that_others_cover_moves_forward() {
    let start = heads(&[("all", &["a", "a2"]), ("linux", &["l"])]);
    let covered: [(&str, &[&str]); 2] = [("a2", &["a"]), ("l", &["a", "a2"])];
    let (log, moved, _) = run_pass(start, &covered, &[], None);
    assert_eq!(log[0], "set all a2");
    assert!(moved);
}

#[test]
fn a_checkpoint_is_where_the_scopes_stand() {
    let now = heads(&[("all", &["a"]), ("laptop", &["p", "q"]), ("linux", &["l"])]);
    let found = checkpoint(&graph(), &now);
    assert_eq!(
        found,
        vec![
            ("all".to_string(), "a".to_string()),
            ("linux".to_string(), "l".to_string()),
        ]
    );
}

fn lost() -> PushReport {
    PushReport::Refused { scopes: texts(&["all"]), rejection: Rejection::RemoteMoved }
}

#[test]
fn only_a_lost_race_is_pushed_again_and_not_for_ever() {
    let declined = PushReport::Refused {
        scopes: texts(&["all"]),
        rejection: Rejection::RefusedTheWrite { reason: None },
    };
    assert!(push_again(1, &lost()));
    assert!(!push_again(3, &lost()));
    assert!(!push_again(1, &declined));
    assert!(!push_again(1, &PushReport::UpToDate));

    let mut pushes = 0;
    let mut state = PublishState::start();
    loop {
        state = match &state {
            PublishState::Push { .. } => {
                pushes += 1;
                state.step(PublishEvent::Pushed { report: lost() })
            }
            PublishState::Fetch { .. } => state.step(PublishEvent::Fetched),
            PublishState::Converge { .. } => state.step(PublishEvent::Converged),
            PublishState::Done(_) => break,
        };
    }
    assert_eq!(pushes, 3);
    assert!(matches!(state, PublishState::Done(Ok(PushReport::Refused { .. }))));
    let stopped = PublishState::start()
        .step(PublishEvent::Pushed { report: lost() })
        .step(PublishEvent::Fetched)
        .step(PublishEvent::Stopped { error: conflict() });
    assert!(matches!(stopped, PublishState::Done(Err(DotsyncError::CascadePaused { .. }))));
}

#[test]
fn conflict_markers_are_found_at_the_start_of_a_line() {
    let held = |text: &str| holds_conflict_markers(&text.as_bytes().to_vec());
    assert!(held("a\n<<<<<<< one\nx\n>>>>>>> two\n"));
    assert!(held("<<<<<<<<<< long\n>>>>>>>>>>"));
    assert!(!held("a <<<<<<< one\nb >>>>>>> two\n"));
    assert!(!held("<<<<<< one\n>>>>>> two\n"));
    assert!(!held("<<<<<<< one\n"));
    assert!(!held(""));
    let files = vec![
        HomeFile { path: FilePath::new("a"), contents: Some(b"fine".to_vec()) },
        HomeFile {
            path: FilePath::new("b"),
            contents: Some(b"<<<<<<< x\n=======\n>>>>>>> y\n".to_vec()),
        },
        HomeFile { path: FilePath::new("c"), contents: None },
    ];
    match refuse_markers(&files, "linux") {
        Some(DotsyncError::UnresolvedConflict { scope, paths }) => {
            assert_eq!(scope, "linux");
            assert_eq!(shown(&paths), vec!["b"]);
        }
        _ => panic!("`b` still holds markers"),
    }
    assert!(refuse_markers(&vec![], "linux").is_none());
}

#[test]
fn a_pause_elsewhere_borrows_this_machines_home() {
    let graph = graph();
    assert_eq!(borrowed_from(&graph, "laptop", "linux"), None);
    assert_eq!(borrowed_from(&graph, "laptop", "laptop"), None);
    assert_eq!(borrowed_from(&graph, "laptop", "work").as_deref(), Some("laptop"));
    let version = ConflictedVersion {
        role: ConflictRole::Base,
        label: "base".to_string(),
        contents: Some(vec![1]),
    };
    match present(&graph, "laptop", "work", vec![(FilePath::new("x"), vec![version])]) {
        DotsyncError::CascadePaused { scope, borrowed_from, files } => {
            assert_eq!(scope, "work");
            assert_eq!(borrowed_from.as_deref(), Some("laptop"));
            assert_eq!(files[0].path.text, "x");
            assert_eq!(files[0].state, None);
            assert_eq!(files[0].versions[0].contents, Some(vec![1]));
        }
        _ => panic!("a conflict of the pass"),
    }
}

fn stopped_commit() -> PausedCommit {
    PausedCommit {
        machine_scope: "laptop".to_string(),
        scope: "linux".to_string(),
        message: "message".to_string(),
        parent_commit_id: "l".to_string(),
        conflicted_paths: paths(&["a"]),
    }
}

fn record(paused_commit: Option<PausedCommit>) -> PausedRun {
    PausedRun { checkpoint: vec![("all".to_string(), "a".to_string())], paused_commit }
}

#[test]
fn a_stopped_commit_is_finished_before_the_pass_and_that_before_home() {
    let here = || vec![("work".to_string(), "w".to_string())];
    let pending = || Some("work".to_string());
    match continue_plan(Some(record(Some(stopped_commit()))), pending(), here()) {
        ContinuePlan::FinishCommit { paused, checkpoint } => {
            assert_eq!(paused.scope, "linux");
            assert_eq!(checkpoint[0].0, "all");
        }
        _ => panic!("the commit comes first"),
    }
    match continue_plan(Some(record(None)), pending(), here()) {
        ContinuePlan::FinishConvergence { scope, checkpoint } => {
            assert_eq!(scope, "work");
            assert_eq!(checkpoint[0].0, "all");
        }
        _ => panic!("the pass stops"),
    }
    match continue_plan(None, pending(), here()) {
        ContinuePlan::FinishConvergence { checkpoint, .. } => assert_eq!(checkpoint[0].0, "work"),
        _ => panic!("the pass stops"),
    }
    assert!(matches!(
        continue_plan(Some(record(None)), None, here()),
        ContinuePlan::CompleteSyncConflict
    ));
}

#[test]
fn a_lost_record_hides_no_pause() {
    let pending = Some("work".to_string());
    assert_eq!(paused_scope(&None, &pending).as_deref(), Some("work"));
    assert_eq!(paused_scope(&Some(record(Some(stopped_commit()))), &None).as_deref(), Some("linux"));
    assert_eq!(paused_scope(&Some(record(None)), &None), None);
    assert!(matches!(
        reject_commit_if_paused(&None, &pending),
        Some(DotsyncError::PausedCascadeInProgress { scope }) if scope == "work"
    ));
    assert!(reject_commit_if_paused(&None, &None).is_none());
    let at = DotsyncPaths {
        repo_root: FilePath::new("/home/max/repo"),
        home_dir: FilePath::new("/home/max"),
    };
    assert_eq!(paused_run_path(&at).text, "/home/max/repo/.dotsync-paused-cascade.json");
}

#[test]
fn a_continued_commit_forgets_its_record_before_the_pass() {
    let run = ResumeRun::start(PausedMerge::Commit, "linux".to_string(), None)
        .step(ResumeEvent::Observed)
        .step(ResumeEvent::MarkersChecked { refused: None });
    assert!(matches!(run.state, ResumeState::RecordResolution));
    let run = run.step(ResumeEvent::Recorded);
    assert!(matches!(run.state, ResumeState::ForgetRun));
    let run = run.step(ResumeEvent::Forgotten);
    assert!(matches!(run.state, ResumeState::Converge));
    let run = run
        .step(ResumeEvent::Converged)
        .step(ResumeEvent::Published { push: PushReport::UpToDate })
        .step(ResumeEvent::HomeSynced { sync: report() });
    match run.state {
        ResumeState::Done(Ok(done)) => {
            assert!(matches!(
                done.resumed,
                Resumed::Cascade { scope, borrowed_from: None } if scope == "linux"
            ));
        }
        _ => panic!("the resolution is recorded"),
    }
}

#[test]
fn a_continued_pass_forgets_its_record_once_it_went_through() {
    let run =
        ResumeRun::start(PausedMerge::Convergence, "work".to_string(), Some("laptop".to_string()))
            .step(ResumeEvent::Observed)
            .step(ResumeEvent::MarkersChecked { refused: None });
    assert!(matches!(run.state, ResumeState::Converge));
    let run = run.step(ResumeEvent::Converged);
    assert!(matches!(run.state, ResumeState::ForgetRun));
    let run = run.step(ResumeEvent::Forgotten);
    assert!(matches!(run.state, ResumeState::Publish));
    let again = ResumeRun::start(PausedMerge::Convergence, "work".to_string(), None)
        .step(ResumeEvent::Observed)
        .step(ResumeEvent::MarkersChecked { refused: Some(conflict()) });
    assert!(matches!(again.state, ResumeState::Done(Err(DotsyncError::CascadePaused { .. }))));
}

#[test]
fn the_end_of_a_resolution_gives_the_borrowed_files_back() {
    assert!(matches!(after_resolving(true, &paths(&["a"])), LocalChanges::Discard));
    match after_resolving(false, &paths(&["a"])) {
        LocalChanges::DiscardAt(at) => assert_eq!(shown(&at), vec!["a"]),
        _ => panic!("only the conflicted files go back"),
    }
    let done = sync_conflict_report("laptop", &vec![], &vec![], PushReport::UpToDate);
    assert!(matches!(done.resumed, Resumed::SyncConflict));
    assert!(done.sync.drifts.is_empty());
    assert_eq!(done.sync.current_scope, "laptop");
}

#[test]
fn a_conflict_with_home_ends_with_homes_own_bytes() {
    let start = || SyncConflictRun::start("laptop".to_string());
    assert!(matches!(start().state, SyncConflictState::TakeHome));
    let taken = start().step(SyncConflictEvent::HomeTaken { resolved: true });
    assert!(matches!(taken.state, SyncConflictState::Publish));
    let held = vec![(
        FilePath::new("a"),
        TreeValue::File { id: "1".to_string(), executable: false },
    )];
    let run = taken
        .step(SyncConflictEvent::Published { push: PushReport::UpToDate })
        .step(SyncConflictEvent::Classified { head: held, classified: vec![] });
    match run.state {
        SyncConflictState::Done(Ok(done)) => {
            assert!(matches!(done.resumed, Resumed::SyncConflict));
            assert!(matches!(done.push, PushReport::UpToDate));
            assert_eq!(done.sync.current_scope, "laptop");
            assert_eq!(shown(&done.sync.synced_paths), vec!["a"]);
            assert!(done.sync.carried_changes.is_empty());
        }
        _ => panic!("the conflict was resolved"),
    }
    let idle = start().step(SyncConflictEvent::HomeTaken { resolved: false });
    assert!(matches!(idle.state, SyncConflictState::Done(Err(DotsyncError::NoPausedCascade))));
    let early = start().step(SyncConflictEvent::Published { push: PushReport::UpToDate });
    assert!(matches!(early.state, SyncConflictState::TakeHome));
    let failed = start()
        .step(SyncConflictEvent::HomeTaken { resolved: true })
        .step(SyncConflictEvent::Failed { error: conflict() });
    assert!(matches!(
        failed.state,
        SyncConflictState::Done(Err(DotsyncError::CascadePaused { .. }))
    ));
}

#[test]
fn an_abort_puts_back_where_the_run_started() {
    let plan = abort_plan(Some(record(Some(stopped_commit()))), &None)
        .ok()
        .expect("a commit is paused");
    assert_eq!(plan.paused_scope, "linux");
    assert_eq!(plan.restore, vec![("all".to_string(), "a".to_string())]);
    let run = AbortRun::start(plan);
    assert!(matches!(run.state, AbortState::Restore));
    let run = run
        .step(AbortEvent::Restored)
        .step(AbortEvent::Forgotten)
        .step(AbortEvent::HomeSynced { sync: report() })
        .step(AbortEvent::Rechecked { pending: Some("work".to_string()) });
    match run.state {
        AbortState::Done(Ok(done)) => {
            assert_eq!(done.paused_scope, "linux");
            assert_eq!(done.still_paused.as_deref(), Some("work"));
        }
        _ => panic!("the run was aborted"),
    }
    let foreign = abort_plan(None, &Some("work".to_string())).ok().expect("the pass stops");
    assert!(matches!(AbortRun::start(foreign).state, AbortState::ForgetRun));
    assert!(matches!(abort_plan(None, &None), Err(DotsyncError::NoPausedCascade)));
}

fn selection(named: &[&str], forced: &[&str]) -> Selection {
    Selection {
        paths: paths(named),
        newly_tracked: vec![],
        skipped: vec![],
        forced_paths: paths(forced),
        forced_overwrites: paths(forced),
    }
}

fn selected(named: &[&str], forced: &[&str]) -> CommitRun {
    CommitRun::start("linux".to_string(), "laptop".to_string())
        .step(&graph(), CommitEvent::Fetched)
        .step(&graph(), CommitEvent::PendingPublished { push: PushReport::UpToDate })
        .step(&graph(), CommitEvent::Selected { selection: selection(named, forced) })
}

#[test]
fn a_commit_to_no_scope_is_refused_after_the_pending_push() {
    let run = CommitRun::start("nowhere".to_string(), "laptop".to_string())
        .step(&graph(), CommitEvent::Fetched);
    assert!(matches!(run.state, CommitState::PublishPending));
    let run = run.step(&graph(), CommitEvent::PendingPublished { push: PushReport::UpToDate });
    match run.state {
        CommitState::Done(Err(failure)) => {
            assert!(failure.forced_overwrites.is_empty());
            assert_eq!(failure.error.explain(None).code, "invalid_scope");
        }
        _ => panic!("the repo has no such scope"),
    }
}

#[test]
fn a_commit_with_nothing_to_record_writes_nothing() {
    match selected(&[], &[]).state {
        CommitState::Done(Ok(done)) => assert!(done.recorded.is_none()),
        _ => panic!("nothing was selected"),
    }
    let run = selected(&["a"], &[]);
    assert!(matches!(run.state, CommitState::Merge { .. }));
    match run.step(&graph(), CommitEvent::Merged { found: MergeFound::Nothing }).state {
        CommitState::Done(Ok(done)) => assert!(done.recorded.is_none()),
        _ => panic!("the scope holds it already"),
    }
}

#[test]
fn a_commit_is_published_before_home_moves() {
    let run = selected(&["a"], &["a"])
        .step(&graph(), CommitEvent::Merged { found: MergeFound::Change })
        .step(&graph(), CommitEvent::Recorded { cascade: CascadeEnd::Completed });
    assert!(matches!(run.state, CommitState::Publish { .. }));
    let run = run.step(&graph(), CommitEvent::Published { push: PushReport::UpToDate });
    assert!(matches!(run.state, CommitState::SyncHome { .. }));
    match run.step(&graph(), CommitEvent::HomeSynced { sync: report() }).state {
        CommitState::Done(Ok(done)) => {
            assert_eq!(done.committed_scope, "linux");
            let recorded = done.recorded.expect("the change is recorded");
            assert_eq!(shown(&recorded.forced_overwrites), vec!["a"]);
        }
        _ => panic!("the commit is done"),
    }
}

#[test]
fn a_late_stop_names_what_was_forced() {
    let early = selected(&["a"], &["a"])
        .step(&graph(), CommitEvent::Failed { error: DotsyncError::HomeNotSet });
    match early.state {
        CommitState::Done(Err(failure)) => assert!(failure.forced_overwrites.is_empty()),
        _ => panic!("the commit failed"),
    }
    let paused = selected(&["a"], &["a"])
        .step(&graph(), CommitEvent::Merged { found: MergeFound::Change })
        .step(&graph(), CommitEvent::Recorded { cascade: CascadeEnd::Paused(conflict()) });
    assert!(matches!(paused.state, CommitState::Done(Err(_))));
    let late = selected(&["a"], &["a"])
        .step(&graph(), CommitEvent::Merged { found: MergeFound::Change })
        .step(&graph(), CommitEvent::Recorded { cascade: CascadeEnd::Completed })
        .step(&graph(), CommitEvent::Published { push: PushReport::UpToDate })
        .step(&graph(), CommitEvent::Failed { error: conflict() });
    match late.state {
        CommitState::Done(Err(failure)) => assert_eq!(shown(&failure.forced_overwrites), vec!["a"]),
        _ => panic!("the home sync stopped"),
    }
}

#[test]
fn a_home_edit_is_a_change_against_what_home_derived_from() {
    let graph = graph();
    assert!(scope_is_ancestor_or_self(&graph, "all", "laptop"));
    assert!(scope_is_ancestor_or_self(&graph, "laptop", "laptop"));
    assert!(!scope_is_ancestor_or_self(&graph, "work", "laptop"));
    assert!(matches!(merge_base(false, texts(&["a"])), MergeBase::ScopeHead));
    assert!(matches!(merge_base(true, vec![]), MergeBase::ScopeHead));
    assert!(matches!(
        merge_base(true, texts(&["a"])),
        MergeBase::Ancestors(ids) if ids == texts(&["a"])
    ));
    assert_eq!(commit_scope_label("linux"), "scope `linux`");
    assert!(matches!(merge_found(None, "t", "t"), MergeFound::Nothing));
    assert!(matches!(merge_found(None, "t", "u"), MergeFound::Change));
    assert!(matches!(merge_found(Some(conflict()), "t", "t"), MergeFound::Conflict(_)));
    let snapshot = vec![(
        FilePath::new("a"),
        TreeValue::File { id: "1".to_string(), executable: false },
    )];
    let overlays = commit_overlays(&selection(&["a", "gone"], &["gone"]), &snapshot);
    assert_eq!(overlays.over_base.len(), 2);
    assert!(overlays.over_base[0].1.is_some());
    assert!(overlays.over_base[1].1.is_none());
    assert_eq!(overlays.over_merge.len(), 1);
    assert_eq!(overlays.over_merge[0].0.text, "gone");
}

#[test]
fn a_stopped_commit_is_written_down_whole() {
    let run = paused_commit_record(
        "laptop",
        "linux",
        "message",
        "l",
        &paths(&["a", "b"]),
        vec![("all".to_string(), "a".to_string())],
    );
    let paused = run.paused_commit.expect("the commit that stopped");
    assert_eq!(paused.machine_scope, "laptop");
    assert_eq!(paused.scope, "linux");
    assert_eq!(paused.message, "message");
    assert_eq!(paused.parent_commit_id, "l");
    assert_eq!(shown(&paused.conflicted_paths), vec!["a", "b"]);
    assert_eq!(run.checkpoint.len(), 1);
}

#[test]
fn status_names_what_refuses_a_commit() {
    let pairs = vec![RefPair {
        name: "linux".to_string(),
        local: head(&["l2"]),
        remote: head(&["l"]),
    }];
    let now = heads(&[("all", &["a", "b"]), ("linux", &["l2"])]);
    let pending = || {
        Some(PausedCascade { scope: "work".to_string(), conflicts: vec![] })
    };
    let stopped = Some(record(Some(stopped_commit())));
    let machine = machine_state(&stopped, pending(), &now, &pairs, &graph());
    assert_eq!(machine.paused_cascade.map(|paused| paused.scope).as_deref(), Some("linux"));
    assert!(matches!(
        reject_commit_if_paused(&stopped, &Some("work".to_string())),
        Some(DotsyncError::PausedCascadeInProgress { scope }) if scope == "linux"
    ));
    assert_eq!(machine.diverged_scopes, texts(&["all"]));
    assert_eq!(machine.unpushed_scopes, texts(&["linux"]));
    let machine = machine_state(&None, pending(), &now, &pairs, &graph());
    assert_eq!(machine.paused_cascade.map(|paused| paused.scope).as_deref(), Some("work"));
    let machine = machine_state(&Some(record(None)), None, &now, &pairs, &graph());
    assert!(machine.paused_cascade.is_none());
}

#[test]
fn a_commits_own_failure_wins_over_a_failure_to_persist() {
    let report = || CommitReport::nothing_to_commit("linux", "laptop", vec![], PushReport::UpToDate);
    assert!(commit_finishing(Ok(report()), Ok(())).is_ok());
    let unsaved = commit_finishing(Ok(report()), Err(DotsyncError::HomeNotSet));
    assert!(matches!(unsaved, Err(failure) if matches!(failure.error, DotsyncError::HomeNotSet)));
    let failed = CommitFailure::before_history(DotsyncError::MissingHostname);
    let ended = commit_finishing(Err(failed), Err(DotsyncError::HomeNotSet));
    assert!(matches!(ended, Err(failure) if matches!(failure.error, DotsyncError::MissingHostname)));
}

#[test]
fn a_commit_that_stands_twice_among_the_heads_is_one_input() {
    let now = heads(&[("all", &["x"]), ("linux", &["x", "y"])]);
    let found = convergence_candidates(&graph(), &now, &head(&[]), "linux");
    let ids: Vec<&str> = found.iter().map(|input| input.id.as_str()).collect();
    assert_eq!(ids, vec!["x", "y"]);
    let left = convergence_inputs(found, &texts(&["x", "y"]));
    assert_eq!(left.len(), 2);
    assert_eq!(left[0].label, "`linux` as this machine has it");
}

#[test]
fn a_second_pass_moves_nothing() {
    let start = heads(&[
        ("all", &["a2"]),
        ("laptop", &["p"]),
        ("linux", &["l"]),
        ("work", &["w"]),
    ]);
    let (_, moved, paused) = run_pass(start, &SETTLED, &[], None);
    assert!(moved && paused.is_none());
    let left = heads(&[
        ("all", &["a2"]),
        ("laptop", &["laptop*"]),
        ("linux", &["linux*"]),
        ("work", &["work*"]),
    ]);
    let covered: [(&str, &[&str]); 3] = [
        ("linux*", &["l", "a", "a2"]),
        ("work*", &["w", "a", "a2"]),
        ("laptop*", &["p", "linux*", "l", "a", "a2"]),
    ];
    let (log, moved, paused) = run_pass(left, &covered, &[], None);
    assert_eq!(log, texts(&[]));
    assert!(!moved);
    assert_eq!(paused, None);
}

#[test]
fn a_commit_is_written_on_top_of_the_head_alone() {
    let write = commit_write("l", "add bashrc");
    assert_eq!(write.parents, texts(&["l"]));
    assert_eq!(write.description, "add bashrc");
}
