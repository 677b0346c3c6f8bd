use dotsync::drift::TreeValue;
use dotsync::error::DotsyncError;
use dotsync::paths::FilePath;
use dotsync::repo::{
    collect_managed_tree_entries, diverged_scopes, managed_tree_entries, pending_bookmark_updates,
    push_outcome, push_report, recorded_commit_id, remote_failure_reason, repo_path_of, scope_head,
    scope_head_commit, stored_content, strip_all, unpushed_scopes, BookmarkUpdate, Head, Heads,
    MergedEntry, PushAttempt, PushReport, PushStats, RefPair, Rejection, StoredContent,
};
use dotsync::scope_graph::{Bookmark, Creation, History, ScopeGraph};
use dotsync::session::{fetch_failure, finish, UnreachableRemote};

fn texts(list: &[&str]) -> Vec<String> {
    list.iter().map(|text| text.to_string()).collect()
}

fn head(sides: &[&str]) -> Head {
    Head { sides: texts(sides), contested: sides.len() > 1 }
}

/// `all`, with `laptop` and `linux` below it.
fn small_graph() -> ScopeGraph {
    let created = |scope: &str, id: &str| Creation {
        scope: scope.to_string(),
        commits: texts(&[id]),
        description: None,
    };
    let placed = |name: &str, id: &str| Bookmark { name: name.to_string(), heads: texts(&[id]) };
    let pair = |above: &str, below: &str| (above.to_string(), below.to_string());
    let history = History {
        bookmarks: vec![placed("all", "a"), placed("laptop", "p"), placed("linux", "l")],
        creations: vec![created("all", "a"), created("laptop", "p"), created("linux", "l")],
        ancestry: vec![
            pair("a", "a"),
            pair("a", "p"),
            pair("p", "p"),
            pair("a", "l"),
            pair("l", "l"),
        ],
    };
    dotsync::scope_graph::derive(&history).ok().expect("the history is a DAG")
}

fn pair(name: &str, local: &[&str], remote: &[&str]) -> RefPair {
    RefPair { name: name.to_string(), local: head(local), remote: head(remote) }
}

#[test]
fn a_head_is_one_commit_or_none() {
    let heads: Heads = vec![
        ("all".to_string(), head(&["a"])),
        ("linux".to_string(), head(&["l", "m"])),
    ];
    assert_eq!(scope_head(&heads, "all").as_normal(), Some("a"));
    assert_eq!(scope_head(&heads, "linux").as_normal(), None);
    assert!(!scope_head(&heads, "linux").is_absent());
    assert!(scope_head(&heads, "laptop").is_absent());
    assert_eq!(scope_head_commit(&heads, "all").ok().as_deref(), Some("a"));
    assert!(matches!(
        scope_head_commit(&heads, "laptop"),
        Err(DotsyncError::ScopeNotInRepo { scope }) if scope == "laptop"
    ));
    assert_eq!(diverged_scopes(&heads, &small_graph()), texts(&["linux"]));
}

#[test]
fn only_scopes_that_are_ahead_are_offered() {
    let pairs = vec![
        pair("all", &["a"], &["a"]),
        pair("backup", &["x"], &[]),
        pair("laptop", &["p"], &[]),
        pair("linux", &["l"], &["k"]),
    ];
    let updates = pending_bookmark_updates(&pairs, &small_graph());
    let offered: Vec<(&str, Option<&str>, &str)> = updates
        .iter()
        .map(|update| {
            (update.name.as_str(), update.old_target.as_deref(), update.new_target.as_str())
        })
        .collect();
    assert_eq!(offered, vec![("laptop", None, "p"), ("linux", Some("k"), "l")]);
    assert_eq!(unpushed_scopes(&pairs, &small_graph()), texts(&["laptop", "linux"]));
}

fn stats(pushed: &[&str], rejected: &[Option<&str>], remote: &[Option<&str>]) -> PushStats {
    let said = |list: &[Option<&str>]| -> Vec<Option<String>> {
        list.iter().map(|reason| reason.map(str::to_string)).collect()
    };
    PushStats { pushed: texts(pushed), rejected: said(rejected), remote_rejected: said(remote) }
}

#[test]
fn a_push_is_up_to_date_only_when_everything_was_taken() {
    let attempted = texts(&["all", "linux"]);
    let taken = push_outcome(&attempted, &stats(&["refs/heads/all", "refs/heads/linux"], &[], &[]));
    assert!(matches!(taken, PushReport::UpToDate));

    let raced = push_outcome(&attempted, &stats(&["refs/heads/all"], &[Some("stale info")], &[]));
    assert_eq!(raced.unpushed_scopes(), texts(&["linux"]));
    match raced {
        PushReport::Refused { rejection, .. } => {
            assert_eq!(
                rejection.reason(),
                "another machine published to it after this run last looked"
            );
            assert!(matches!(rejection, Rejection::RemoteMoved));
        }
        _ => panic!("`linux` was not taken"),
    }

    let declined =
        push_outcome(&attempted, &stats(&[], &[Some("lease")], &[None, Some("hook declined")]));
    match declined {
        PushReport::Refused { scopes, rejection } => {
            assert_eq!(scopes, attempted);
            assert_eq!(rejection.reason(), "hook declined");
        }
        _ => panic!("nothing was taken"),
    }

    let silent = push_outcome(&attempted, &stats(&["refs/heads/all"], &[], &[None]));
    match silent {
        PushReport::Refused { rejection, .. } => {
            assert_eq!(rejection.reason(), "no reason reported by the remote");
        }
        _ => panic!("`linux` was not taken"),
    }
}

#[test]
fn a_push_reports_how_the_attempt_went() {
    let update = BookmarkUpdate {
        name: "linux".to_string(),
        old_target: None,
        new_target: "l".to_string(),
    };
    let out = PushAttempt::OutOfReach {
        message: "External git program failed: no route to host\n".to_string(),
    };
    let none: Vec<BookmarkUpdate> = vec![];
    assert!(matches!(push_report(&none, &out), Ok(PushReport::UpToDate)));
    let updates = vec![update];
    match push_report(&updates, &out) {
        Ok(PushReport::Unreachable { scopes, reason }) => {
            assert_eq!(scopes, texts(&["linux"]));
            assert_eq!(reason, "no route to host");
        }
        _ => panic!("the remote is out of reach"),
    }
    let failed = PushAttempt::Failed { message: "no remote".to_string() };
    match push_report(&updates, &failed) {
        Err(DotsyncError::Jj { message }) => assert_eq!(message, "push branches: no remote"),
        _ => panic!("the push failed"),
    }
    let answered = PushAttempt::Answered(stats(&["refs/heads/linux"], &[], &[]));
    assert!(matches!(push_report(&updates, &answered), Ok(PushReport::UpToDate)));
}

#[test]
fn what_git_said_is_taken_out_of_its_wrapping() {
    assert_eq!(strip_all("refs/heads/refs/heads/all", "refs/heads/"), "all");
    assert_eq!(strip_all("all", ""), "all");
    assert_eq!(
        remote_failure_reason("External git program failed:\nfatal: repository not found\n"),
        "fatal: repository not found"
    );
}

#[test]
fn a_fetch_that_cannot_reach_the_remote_stops_no_run() {
    let noted = fetch_failure(DotsyncError::RemoteUnreachable { reason: "offline".to_string() });
    let noted: Option<UnreachableRemote> = noted.ok();
    assert_eq!(noted.as_ref().map(|remote| remote.reason.as_str()), Some("offline"));
    let run = finish(7u8, &noted);
    assert_eq!(run.report, 7);
    assert_eq!(run.unreachable_remote.map(|remote| remote.reason).as_deref(), Some("offline"));
    assert!(matches!(fetch_failure(DotsyncError::HomeNotSet), Err(DotsyncError::HomeNotSet)));
}

#[test]
fn a_tree_is_the_files_and_links_it_holds() {
    let file = |id: &str| TreeValue::File { id: id.to_string(), executable: true };
    let listed = vec![
        (FilePath::new("a"), MergedEntry::Value(file("1"))),
        (FilePath::new("b"), MergedEntry::Absent),
        (FilePath::new("c"), MergedEntry::Value(TreeValue::Symlink("2".to_string()))),
    ];
    let found = collect_managed_tree_entries(&listed).ok().expect("nothing is conflicted");
    let paths: Vec<&str> = found.iter().map(|(path, _)| path.text.as_str()).collect();
    assert_eq!(paths, vec!["a", "c"]);

    let torn = vec![
        (FilePath::new("a"), MergedEntry::Value(file("1"))),
        (FilePath::new("b"), MergedEntry::Conflicted),
    ];
    assert_eq!(managed_tree_entries(&torn).len(), 2);
    let error = collect_managed_tree_entries(&torn).err().expect("`b` is conflicted");
    assert!(matches!(error, DotsyncError::Jj { .. }));
    assert!(error.message().contains('b'));
}

#[test]
fn what_a_tree_stores_is_read_by_its_kind() {
    let path = FilePath::new("vendor/lib");
    let file = TreeValue::File { id: "f".to_string(), executable: false };
    assert!(matches!(
        stored_content(&path, &file),
        Ok(StoredContent::File(id)) if id == "f"
    ));
    assert!(matches!(
        stored_content(&path, &TreeValue::Symlink("s".to_string())),
        Ok(StoredContent::Symlink(id)) if id == "s"
    ));
    assert!(matches!(
        stored_content(&path, &TreeValue::GitSubmodule("g".to_string())),
        Err(DotsyncError::GitSubmodule { path }) if path.text == "vendor/lib"
    ));
}

#[test]
fn a_path_is_named_as_the_repo_names_paths() {
    assert_eq!(
        repo_path_of(&FilePath::new(".config/fish/config.fish")).ok().as_deref(),
        Some(".config/fish/config.fish")
    );
    for bad in ["/etc/hosts", "a//b", "a/"] {
        let error = repo_path_of(&FilePath::new(bad)).err().expect("no path of the repo");
        match error {
            DotsyncError::Jj { message } => {
                assert!(message.contains(&format!("Invalid repo path input \"{bad}\"")), "{message}");
            }
            _ => panic!("a failure inside the repo handling"),
        }
    }
}

#[test]
fn a_recorded_commit_is_written_in_hexadecimal() {
    let id = "0123456789abcdef0123456789abcdef01234567";
    assert_eq!(recorded_commit_id(id).ok().as_deref(), Some(id));
    for bad in ["xyz", "0g", "123", "linux"] {
        assert!(recorded_commit_id(bad).is_err(), "{bad} is no commit id");
    }
}
