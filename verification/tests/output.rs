use dotsync::answer::{
    emit_output, emit_stop, render_commit_success, render_diff, render_status, render_view,
    Emission, OutputKind,
};
use dotsync::bootstrap::{CreatedScope, InitReport};
use dotsync::cli::{
    discover_paths, init_remote_from_args, is_version_json_request, output_format_from_args,
    prompted_remote, render_abort, render_continue, render_created_scope, render_discard,
    render_init, render_sync, usage_error, Action, Command, HumanOutput, InitRemote, OutputFormat,
    SuccessOutput,
};
use dotsync::commit::{CommitReport, RecordedCommit};
use dotsync::drift::FileState;
use dotsync::error::{
    ConflictRole, ConflictedFile, ConflictedVersion, DotsyncError, SkipReason, SkippedCommitPath,
};
use dotsync::inspect::{scope_list, view, DiffReport, Holdings, ViewAnswer, ViewReport};
use dotsync::paths::FilePath;
use dotsync::pause::{AbortReport, ContinueReport, Resumed};
use dotsync::payload::{Object, Payload};
use dotsync::render::{
    change_marker, listed, render_conflicts_human, render_drift_diff, render_error_human,
    render_error_json,
};
use dotsync::repo::{PushReport, Rejection};
use dotsync::scope_graph::{Bookmark, Creation, History, ScopeGraph};
use dotsync::session::UnreachableRemote;
use dotsync::status::{MachineState, PausedCascade, StatusReport};
use dotsync::sync::{FileChange, FileDrift, SyncCommandReport, SyncReport};

fn texts(list: &[&str]) -> Vec<String> {
    list.iter().map(|text| text.to_string()).collect()
}

fn paths(list: &[&str]) -> Vec<FilePath> {
    list.iter().map(|path| FilePath::new(path)).collect()
}

/// A payload as compact text.
fn shown(payload: &Payload) -> String {
    match payload {
        Payload::Null => "null".to_string(),
        Payload::Text(text) => format!("{text:?}"),
        Payload::List(items) => {
            format!("[{}]", items.iter().map(shown).collect::<Vec<_>>().join(","))
        }
        Payload::Object(fields) => {
            let fields: Vec<String> =
                fields.iter().map(|field| format!("{}:{}", field.key, shown(&field.value))).collect();
            format!("{{{}}}", fields.join(","))
        }
    }
}

fn field(object: &Object, key: &str) -> Option<String> {
    object.fields.iter().find(|field| field.key == key).map(|field| shown(&field.value))
}

fn said(output: &SuccessOutput) -> &str {
    match &output.human {
        HumanOutput::Stdout(text) => text,
        HumanOutput::Message(text) => text,
    }
}

fn drift(repo: Option<&[u8]>, home: Option<&[u8]>) -> FileDrift {
    FileDrift {
        repo_path: FilePath::new(".bashrc"),
        system_path: FilePath::new("/home/max/.bashrc"),
        state: FileState::EditedInHome,
        repo_bytes: repo.map(<[u8]>::to_vec),
        home_bytes: home.map(<[u8]>::to_vec),
    }
}

fn change(path: &str, state: FileState) -> FileChange {
    FileChange { path: FilePath::new(path), state }
}

fn synced(drifts: Vec<FileDrift>, carried_changes: Vec<FileChange>) -> SyncReport {
    SyncReport {
        current_scope: "laptop".to_string(),
        synced_paths: paths(&["a", "b"]),
        drifts,
        carried_changes,
    }
}

fn quiet() -> MachineState {
    MachineState { paused_cascade: None, diverged_scopes: vec![], unpushed_scopes: vec![] }
}

fn conflict() -> ConflictedFile {
    let version = |role, label: &str, contents: Option<&[u8]>| ConflictedVersion {
        role,
        label: label.to_string(),
        contents: contents.map(<[u8]>::to_vec),
    };
    ConflictedFile {
        path: FilePath::new("a"),
        state: None,
        versions: vec![
            version(ConflictRole::Base, "before", Some(b"one\n\n")),
            version(ConflictRole::Side, "scope `all`", None),
            version(ConflictRole::Side, "bytes", Some(b"\xffx")),
        ],
    }
}

#[test]
fn a_drift_is_shown_as_a_unified_diff() {
    assert_eq!(
        render_drift_diff(&drift(Some(b"a\nb\n"), Some(b"a\nc\n"))),
        "--- repo\n+++ system\n@@ -1,2 +1,2 @@\n a\n-b\n+c"
    );
    assert_eq!(
        render_drift_diff(&drift(Some(b"a\n"), None)),
        "--- repo\n+++ system\n@@ -1 +0,0 @@\n-a"
    );
    assert_eq!(
        render_drift_diff(&drift(Some(b"\xff"), Some(b"a"))),
        "binary content differs"
    );
    assert_eq!(render_drift_diff(&drift(None, Some(b"\xff"))), "binary content differs");
}

#[test]
fn a_conflict_is_printed_version_by_version() {
    assert_eq!(
        render_conflicts_human(&vec![conflict()]),
        texts(&[
            "  C a",
            "--- a | base: before ---",
            "one",
            "--- a | side: scope `all` ---",
            "(this version does not have the file)",
            "--- a | side: bytes ---",
            "\u{fffd}x",
        ])
    );
    let mut own = conflict();
    own.state = Some(FileState::DivergedEdit);
    let lines = render_conflicts_human(&vec![own]);
    assert_eq!(lines[0], format!("  C a ({})", FileState::DivergedEdit.reason()));
}

#[test]
fn only_what_is_reported_has_a_marker() {
    assert_eq!(change_marker(FileState::EditedInHome), "M");
    assert_eq!(change_marker(FileState::DivergedEditThatMerges), "M");
    assert_eq!(change_marker(FileState::DeletedInHome), "D");
    assert_eq!(change_marker(FileState::DivergedEdit), "C");
    assert_eq!(change_marker(FileState::IncomingNew), "A");
    assert_eq!(change_marker(FileState::StaleNotYours), "U");
    assert_eq!(change_marker(FileState::RemovedFromRepo), "R");
    assert_eq!(change_marker(FileState::InSync), " ");
}

#[test]
fn a_long_list_ends_in_a_count() {
    let lines = texts(&["1", "2", "3", "4", "5", "6", "7"]);
    assert_eq!(listed(&lines), texts(&["- 1", "- 2", "- 3", "- 4", "- 5", "- ... and 2 more"]));
    assert_eq!(listed(&texts(&["1"])), texts(&["- 1"]));
}

#[test]
fn a_stop_is_told_to_people_and_to_machines() {
    let stop = DotsyncError::CascadePaused {
        scope: "linux".to_string(),
        borrowed_from: None,
        files: vec![conflict()],
    };
    let explained = stop.explain(None);
    let human = render_error_human(&explained);
    let teaching = explained.teaching.as_ref().expect("it teaches");
    assert_eq!(
        human,
        format!(
            "dotsync: {}\n\nWhat dotsync does:\n{}\n\nThis flow:\n{}\n\nExpected:\n{}\n\nCurrent state found:\n{}\n\nWhy dotsync stopped:\n{}\n\nCorrect flow:\n- {}",
            teaching.summary,
            teaching.what_dotsync_does,
            teaching.this_flow,
            teaching.expected,
            explained.current_state.join("\n"),
            teaching.why_stopped,
            teaching.next_steps.join("\n- "),
        )
    );
    let json = render_error_json(&explained);
    assert_eq!(field(&json, "status").as_deref(), Some("\"error\""));
    assert_eq!(field(&json, "error").as_deref(), Some("\"cascade_paused\""));
    assert_eq!(field(&json, "paused_cascade").as_deref(), Some("\"linux\""));
    let conflicts = field(&json, "conflicts").expect("the conflicts");
    assert!(conflicts.contains("contents:null"), "{conflicts}");
    assert!(conflicts.contains("contents:\"one\\n\\n\""), "{conflicts}");
    assert!(conflicts.contains("contents:\"\u{fffd}x\""), "{conflicts}");
    let bare = render_error_human(&DotsyncError::HomeNotSet.explain(None));
    assert_eq!(bare, format!("dotsync: {}", DotsyncError::HomeNotSet.message()));
}

#[test]
fn a_sync_says_what_it_synced_destroyed_and_carried() {
    let report = SyncCommandReport {
        sync: synced(
            vec![drift(Some(b"a\n"), Some(b"b\n"))],
            vec![change("c", FileState::EditedInHome)],
        ),
        push: PushReport::Refused {
            scopes: texts(&["all", "linux"]),
            rejection: Rejection::RemoteMoved,
        },
    };
    let output = render_sync(&report);
    assert_eq!(said(&output), "dotsync: synced 2 file(s) for laptop");
    assert_eq!(output.exit_code, 0);
    assert_eq!(field(&output.json, "command").as_deref(), Some("\"sync\""));
    assert_eq!(field(&output.json, "synced_files").as_deref(), Some("[\"a\",\"b\"]"));
    assert_eq!(field(&output.json, "overwritten_files").as_deref(), Some("[\".bashrc\"]"));
    assert_eq!(field(&output.json, "unpushed_scopes").as_deref(), Some("[\"all\",\"linux\"]"));
    assert_eq!(
        field(&output.json, "carried_changes"),
        Some(format!(
            "[{{path:\"c\",state:\"modified\",reason:{:?}}}]",
            FileState::EditedInHome.reason()
        ))
    );
    assert_eq!(
        output.notes[0],
        "dotsync: carried 1 local change(s) through the sync; they are still only in home"
    );
    assert_eq!(
        output.notes[3],
        "dotsync: the remote refused all, linux (another machine published to it after this run last looked)"
    );
    assert_eq!(output.notes[5], "dotsync: overwrote 1 drifted file(s)");
    assert_eq!(
        said(&render_discard(&report)),
        "dotsync: discarded 1 local change(s) and synced 2 file(s) for laptop"
    );
    let init = InitReport { sync: synced(vec![], vec![]), push: PushReport::UpToDate };
    let output = render_init(&init);
    assert_eq!(said(&output), "dotsync: initialized laptop and synced 2 file(s)");
    assert!(output.notes.is_empty());
}

#[test]
fn a_created_scope_is_announced() {
    let output = render_created_scope(&CreatedScope {
        scope: "work".to_string(),
        parents: texts(&["all", "linux"]),
        push: PushReport::Unreachable {
            scopes: texts(&["work"]),
            reason: "offline".to_string(),
        },
    });
    assert_eq!(said(&output), "dotsync: created scope work under all, linux");
    assert_eq!(field(&output.json, "parents").as_deref(), Some("[\"all\",\"linux\"]"));
    assert_eq!(output.notes[0], "dotsync: could not publish work (offline)");
}

#[test]
fn a_continue_says_which_pause_it_ended() {
    let report = |resumed| ContinueReport {
        resumed,
        sync: synced(vec![], vec![]),
        push: PushReport::UpToDate,
    };
    let own = render_continue(&report(Resumed::SyncConflict));
    assert_eq!(
        said(&own),
        "dotsync: took your version of the conflicted file(s) and synced 2 file(s)"
    );
    let borrowed = render_continue(&report(Resumed::Cascade {
        scope: "work".to_string(),
        borrowed_from: Some("laptop".to_string()),
    }));
    assert_eq!(said(&borrowed), "dotsync: recorded your version on `work` and synced 2 file(s)");
    assert_eq!(
        borrowed.notes,
        texts(&["dotsync: the conflicted file(s) held `work`'s merge while you resolved it; `laptop`'s own version is back in home now, and `work` has your resolution."])
    );
}

#[test]
fn an_abort_that_leaves_a_conflict_fails() {
    let report = |still: Option<&str>| AbortReport {
        paused_scope: "linux".to_string(),
        sync: synced(vec![], vec![]),
        still_paused: still.map(str::to_string),
    };
    let done = render_abort(&report(None));
    assert_eq!(
        said(&done),
        "dotsync: discarded the merge paused at `linux` and synced 2 file(s)"
    );
    assert_eq!(done.exit_code, 0);
    assert_eq!(field(&done.json, "paused_scope").as_deref(), Some("\"linux\""));
    assert_eq!(field(&done.json, "unpushed_scopes"), None);
    let left = render_abort(&report(Some("work")));
    assert_eq!(
        said(&left),
        "dotsync: put home back and synced 2 file(s); the merge at `work` is still waiting"
    );
    assert_eq!(left.exit_code, 1);
    assert_eq!(field(&left.json, "paused_cascade").as_deref(), Some("\"work\""));
    assert_eq!(left.notes.len(), 2);
}

#[test]
fn a_commit_says_which_of_its_two_outcomes_it_had() {
    let skipped = || vec![SkippedCommitPath {
        path: FilePath::new("s"),
        reason: SkipReason::NotChangedHere(FileState::StaleNotYours),
    }];
    let nothing = CommitReport {
        committed_scope: "linux".to_string(),
        machine_scope: "laptop".to_string(),
        skipped: skipped(),
        push: PushReport::UpToDate,
        recorded: None,
    };
    let output = render_commit_success(&nothing, false);
    assert_eq!(
        said(&output),
        "dotsync: nothing to record on `linux`; no commit was made and home was not synced"
    );
    assert_eq!(field(&output.json, "outcome").as_deref(), Some("\"nothing_to_commit\""));
    assert_eq!(
        output.notes[0],
        "dotsync: did not record 1 file(s) under the paths you named"
    );
    assert!(output.notes.last().is_some_and(|note| note.starts_with("dotsync: a file dotsync does not track yet")));
    assert_eq!(render_commit_success(&nothing, true).notes.len(), output.notes.len() - 1);

    let committed = CommitReport {
        recorded: Some(RecordedCommit {
            newly_tracked: paths(&["n"]),
            forced_overwrites: vec![],
            sync: synced(vec![], vec![]),
        }),
        skipped: vec![],
        ..nothing
    };
    let output = render_commit_success(&committed, true);
    assert_eq!(said(&output), "dotsync: committed linux and synced 2 file(s)");
    assert_eq!(field(&output.json, "outcome").as_deref(), Some("\"committed\""));
    assert_eq!(field(&output.json, "newly_tracked").as_deref(), Some("[\"n\"]"));
    assert_eq!(
        output.notes[..2],
        texts(&["dotsync: started tracking 1 new file(s) on this scope", "- n"])
    );
}

#[test]
fn status_lists_changes_and_what_is_incoming() {
    let report = StatusReport {
        machine_scope: "laptop".to_string(),
        machine: MachineState {
            paused_cascade: Some(PausedCascade {
                scope: "linux".to_string(),
                conflicts: vec![conflict()],
            }),
            diverged_scopes: texts(&["all"]),
            unpushed_scopes: texts(&["work"]),
        },
        changes: vec![change("a", FileState::EditedInHome)],
        incoming: vec![change("b", FileState::IncomingNew)],
    };
    let output = render_status(&report);
    assert_eq!(
        said(&output),
        format!(
            "dotsync: 1 changed managed file(s) for laptop\n  M a ({})\ndotsync: 1 incoming file(s) for laptop — plain `dotsync` applies these\n  A b ({})",
            FileState::EditedInHome.reason(),
            FileState::IncomingNew.reason(),
        )
    );
    assert_eq!(field(&output.json, "paused_cascade").as_deref(), Some("\"linux\""));
    assert_eq!(field(&output.json, "diverged_scopes").as_deref(), Some("[\"all\"]"));
    assert_eq!(field(&output.json, "conflicts"), None);
    assert_eq!(
        output.notes[2],
        "dotsync: `all` diverged: this machine and the remote each hold commits the other does not"
    );
    let clean = StatusReport {
        machine_scope: "laptop".to_string(),
        machine: quiet(),
        changes: vec![],
        incoming: vec![],
    };
    let output = render_status(&clean);
    assert_eq!(said(&output), "dotsync: no changes for laptop");
    assert_eq!(field(&output.json, "paused_cascade"), None);
    assert!(output.notes.is_empty());
}

#[test]
fn diff_exits_by_whether_there_is_drift() {
    let report = |drifts| DiffReport {
        machine_scope: "laptop".to_string(),
        machine: quiet(),
        drifts,
    };
    let clean = render_diff(&report(vec![]));
    assert_eq!(said(&clean), "dotsync: no changes for laptop");
    assert_eq!(clean.exit_code, 0);
    let dirty = render_diff(&report(vec![drift(Some(b"a\n"), Some(b"b\n"))]));
    assert_eq!(dirty.exit_code, 1);
    assert_eq!(
        said(&dirty),
        format!(
            "dotsync: 1 changed managed file(s) for laptop\n  M .bashrc ({})\n--- repo\n+++ system\n@@ -1 +1 @@\n-a\n+b",
            FileState::EditedInHome.reason()
        )
    );
    let changes = field(&dirty.json, "changes").expect("the changes");
    assert!(changes.contains("diff:\"--- repo\\n"), "{changes}");
}

/// `all`, with `linux` below it and `laptop` below that.
fn graph() -> ScopeGraph {
    let created = |scope: &str, description: Option<&str>| Creation {
        scope: scope.to_string(),
        commits: texts(&[scope]),
        description: description.map(str::to_string),
    };
    let placed = |name: &str| Bookmark { name: name.to_string(), heads: texts(&[name]) };
    let pair = |above: &str, below: &str| (above.to_string(), below.to_string());
    let history = History {
        bookmarks: vec![placed("all"), placed("laptop"), placed("linux")],
        creations: vec![
            created("all", None),
            created("laptop", None),
            created("linux", Some("every linux")),
        ],
        ancestry: vec![
            pair("all", "all"),
            pair("all", "linux"),
            pair("linux", "linux"),
            pair("all", "laptop"),
            pair("linux", "laptop"),
            pair("laptop", "laptop"),
        ],
    };
    dotsync::scope_graph::derive(&history).ok().expect("the history is a DAG")
}

fn holdings() -> Holdings {
    vec![
        ("all".to_string(), paths(&["a"])),
        ("linux".to_string(), paths(&["a", "b"])),
        ("laptop".to_string(), paths(&["a", "b", "c"])),
    ]
}

fn ask(scope: Option<&str>, file: Option<&str>, contents: Option<&[u8]>) -> Result<ViewAnswer, DotsyncError> {
    let file = file.map(FilePath::new);
    view(&graph(), scope, file.as_ref(), &holdings(), contents.map(<[u8]>::to_vec))
}

fn answered(found: Result<ViewAnswer, DotsyncError>) -> SuccessOutput {
    let found = found.ok().expect("an answer");
    render_view(&ViewReport { machine: quiet(), found }, "laptop")
}

#[test]
fn a_view_reads_the_graph_from_its_root() {
    let names: Vec<String> = scope_list(&graph()).into_iter().map(|scope| scope.name).collect();
    assert_eq!(names, texts(&["all", "linux", "laptop"]));
    let overview = answered(ask(None, None, None));
    assert_eq!(
        said(&overview),
        "Scopes\n  all\n  linux <- all  # every linux\n* laptop <- linux\n\nFiles\na\nb\nc\n"
    );
    let scope = answered(ask(Some("linux"), None, None));
    assert_eq!(said(&scope), "Scope linux\na\nb\n");
}

#[test]
fn a_view_says_which_scope_owns_a_file() {
    let held = answered(ask(None, Some("b"), None));
    assert_eq!(
        said(&held),
        "File b\nOwned by linux; every other scope below has it from the cascade.\nScopes\nlinux\nlaptop\n"
    );
    assert_eq!(field(&held.json, "owner").as_deref(), Some("\"linux\""));
    let typo = answered(ask(None, Some("typo"), None));
    assert_eq!(
        said(&typo),
        "File typo\nNo scope holds typo.\nRun `dotsync view` to see every file the scopes do hold.\n"
    );
    assert_eq!(field(&typo.json, "owner").as_deref(), Some("null"));
}

#[test]
fn a_view_prints_a_file_or_stops() {
    let contents = answered(ask(Some("all"), Some("a"), Some(b"x\xff\n")));
    assert_eq!(said(&contents), "x\u{fffd}\n");
    assert!(matches!(
        ask(Some("all"), Some("b"), None),
        Err(DotsyncError::FileNotOnScope { scope, path }) if scope == "all" && path.text == "b"
    ));
    assert!(matches!(
        ask(Some("nowhere"), None, None),
        Err(DotsyncError::InvalidScope { scope }) if scope == "nowhere"
    ));
}

#[test]
fn a_view_prints_a_waiting_conflict_again() {
    let machine = MachineState {
        paused_cascade: Some(PausedCascade {
            scope: "linux".to_string(),
            conflicts: vec![conflict()],
        }),
        ..quiet()
    };
    let found = ask(Some("linux"), None, None).ok().expect("an answer");
    let output = render_view(&ViewReport { machine, found }, "laptop");
    assert!(field(&output.json, "conflicts").is_some());
    assert_eq!(output.notes[0], "dotsync: the merge at `linux` is waiting on these file(s)");
    assert_eq!(output.notes[1], "  C a");
}

fn emitted(format: OutputFormat, kind: OutputKind, remote: Option<&str>) -> Emission {
    let remote = remote.map(|reason| UnreachableRemote { reason: reason.to_string() });
    emit_output(format, kind, &remote, Some("dotsync status"))
}

#[test]
fn an_unreachable_remote_is_said_before_anything_else() {
    let clean = StatusReport {
        machine_scope: "laptop".to_string(),
        machine: quiet(),
        changes: vec![],
        incoming: vec![],
    };
    let human = emitted(
        OutputFormat::Human,
        OutputKind::Success(render_status(&clean)),
        Some("offline"),
    );
    assert_eq!(
        human.stderr[..2],
        texts(&[
            "dotsync: could not reach the remote; reporting against the last-fetched state",
            "dotsync: offline",
        ])
    );
    assert_eq!(human.exit_code, 0);
    assert!(human.payload.is_none());
    let json = emitted(
        OutputFormat::Json,
        OutputKind::Success(render_status(&clean)),
        Some("offline"),
    );
    let payload = json.payload.expect("a payload");
    assert_eq!(field(&payload, "remote_unreachable").as_deref(), Some("\"offline\""));
}

#[test]
fn a_stop_exits_with_one_in_both_formats() {
    let human = emitted(OutputFormat::Human, OutputKind::Error(DotsyncError::HomeNotSet), None);
    assert_eq!(human.exit_code, 1);
    assert!(human.payload.is_none());
    let json = emitted(OutputFormat::Json, OutputKind::Usage(usage_error("no such flag")), None);
    assert_eq!(json.exit_code, 1);
    let payload = json.payload.expect("a payload");
    assert_eq!(field(&payload, "error").as_deref(), Some("\"usage\""));
    assert_eq!(field(&payload, "message").as_deref(), Some("\"no such flag\""));
    let stop = DotsyncError::SyncConflict { scope: "laptop".to_string(), files: vec![conflict()] };
    let emission = emit_stop(OutputFormat::Human, &stop.explain(None), &None);
    assert!(emission.stderr.iter().any(|line| line == "\nConflicted files:"));
    assert!(emission.stderr.iter().any(|line| line == "--- a | base: before ---"));
}

#[test]
fn a_command_line_becomes_an_action() {
    assert!(matches!(Action::try_from_cli(None, false), Ok(Action::Sync)));
    assert!(matches!(
        Action::try_from_cli(Some(Command::Status), false),
        Ok(Action::Status)
    ));
    let unknown = Action::try_from_cli(Some(Command::Unknown(texts(&["frob", "x"]))), false);
    assert_eq!(
        unknown.err().as_deref(),
        Some("unknown command `frob`; run `dotsync --help` for supported commands")
    );
    let empty = Action::try_from_cli(Some(Command::Unknown(vec![])), false);
    assert!(empty.err().is_some_and(|said| said.starts_with("unknown command `<empty>`")));
    let bare = Action::try_from_cli(Some(Command::Init { remote_url: None, parents: vec![] }), true);
    assert!(matches!(bare, Ok(Action::Init { remote_url: InitRemote::Prompt, .. })));
    assert!(matches!(
        init_remote_from_args(Some("url".to_string()), false),
        Ok(InitRemote::Provided(url)) if url == "url"
    ));
    let usage = init_remote_from_args(None, false).err().expect("nothing to ask");
    assert!(usage.starts_with("init needs the repo remote URL\n\nUsage:\n  dotsync init <remote-url>"));
    assert_eq!(prompted_remote(" url \n").ok().as_deref(), Some("url"));
    assert_eq!(prompted_remote("\n").err(), Some(usage));
}

#[test]
fn the_arguments_say_which_format_is_asked_for() {
    assert!(is_version_json_request(&texts(&["--version", "--json"])));
    assert!(is_version_json_request(&texts(&["--json", "-V"])));
    assert!(!is_version_json_request(&texts(&["--version"])));
    assert!(!is_version_json_request(&texts(&["--version", "--json", "status"])));
    assert!(!is_version_json_request(&vec![]));
    let json = |args: &[&str]| matches!(output_format_from_args(&texts(args)), OutputFormat::Json);
    assert!(json(&["status", "--output=json"]));
    assert!(json(&["--output", "json", "status"]));
    assert!(!json(&["--output", "human"]));
    assert!(!json(&["json", "--output"]));
}

#[test]
fn the_repo_is_under_home() {
    let found = discover_paths(Some(FilePath::new("/home/max"))).ok().expect("a home");
    assert_eq!(found.repo_root.text, "/home/max/.local/share/dotsync/repo");
    assert_eq!(found.home_dir.text, "/home/max");
    assert!(matches!(discover_paths(None), Err(DotsyncError::HomeNotSet)));
}
