use dotsync::drift::{classify_managed_trees, ClassifiedPath, Entries, FileState, TreeValue};
use dotsync::error::{CommitPathProblem, DotsyncError, SkipReason};
use dotsync::paths::FilePath;
use dotsync::selection::{
    expand_selection_paths, is_directory_selection, select_changes_to_record,
    unusable_commit_path, CommitOptions, DotsyncPaths, NamedProbe, SelectedPaths, Walked,
};
use dotsync::walk::{Canonical, DirectoryWalk, EntryKind, WalkEntry, WalkStep};

fn dotsync_paths() -> DotsyncPaths {
    DotsyncPaths {
        repo_root: FilePath::new("/home/max/.local/share/dotsync/repo"),
        home_dir: FilePath::new("/home/max"),
    }
}

fn paths(list: &[&str]) -> Vec<FilePath> {
    list.iter().map(|path| FilePath::new(path)).collect()
}

fn shown(list: &[FilePath]) -> Vec<&str> {
    list.iter().map(|path| path.text.as_str()).collect()
}

fn entries(list: &[(&str, &str)]) -> Entries {
    list.iter()
        .map(|(path, id)| {
            (FilePath::new(path), TreeValue::File { id: id.to_string(), executable: false })
        })
        .collect()
}

fn options(scope: &str, force: bool, named: &[&str]) -> CommitOptions {
    CommitOptions {
        scope: scope.to_string(),
        message: "message".to_string(),
        force,
        paths: paths(named),
    }
}

fn absent() -> NamedProbe {
    NamedProbe { present: false, is_dir: false, walked: None }
}

fn present() -> NamedProbe {
    NamedProbe { present: true, is_dir: false, walked: None }
}

fn directory(matched: &[&str]) -> NamedProbe {
    NamedProbe {
        present: true,
        is_dir: true,
        walked: Some(Walked { matched: paths(matched), skipped: vec![] }),
    }
}

#[test]
fn a_path_is_refused_for_what_it_is() {
    let of = dotsync_paths();
    let repo = of.repo_relative();
    assert_eq!(repo.as_ref().map(|path| path.text.as_str()), Some(".local/share/dotsync/repo"));
    let problem = |text: &str| unusable_commit_path(&of, &FilePath::new(text), &repo);
    assert!(matches!(problem(""), Some(CommitPathProblem::HomeRoot)));
    assert!(matches!(problem("/home/max/"), Some(CommitPathProblem::HomeRoot)));
    assert!(matches!(problem("/etc/hosts"), Some(CommitPathProblem::Absolute)));
    assert!(matches!(problem("a/../../b"), Some(CommitPathProblem::EscapesHome)));
    assert!(matches!(
        problem(".local/share/dotsync/repo"),
        Some(CommitPathProblem::DotsyncRepoRoot { .. })
    ));
    assert!(matches!(
        problem(".local/share/dotsync/repo/.jj/x"),
        Some(CommitPathProblem::InsideDotsyncRepo { .. })
    ));
    assert!(problem(".local/share/dotsync").is_none());
    assert!(problem(".bashrc").is_none());
    let elsewhere = DotsyncPaths {
        repo_root: FilePath::new("/srv/repo"),
        home_dir: FilePath::new("/home/max"),
    };
    assert!(elsewhere.repo_relative().is_none());
}

#[test]
fn every_bad_path_is_in_one_answer() {
    let named = paths(&["/etc/hosts", ".bashrc", "typo", "."]);
    let probes = vec![absent(), present(), absent(), absent()];
    match expand_selection_paths(&dotsync_paths(), "linux", &named, &probes, &vec![]) {
        Err(DotsyncError::UnusableCommitPaths { scope, rejected }) => {
            assert_eq!(scope, "linux");
            let bad: Vec<&str> = rejected.iter().map(|path| path.path.text.as_str()).collect();
            assert_eq!(bad, vec!["/etc/hosts", "typo", "."]);
            assert!(matches!(&rejected[1].problem, CommitPathProblem::Unmatched { home_path }
                if home_path.text == "/home/max/typo"));
            assert!(matches!(rejected[2].problem, CommitPathProblem::HomeRoot));
        }
        _ => panic!("three of the paths are unusable"),
    }
}

#[test]
fn a_directory_is_a_bulk_selection_and_a_file_is_named_exactly() {
    let on_scope = paths(&[".config/fish/a.fish", ".config/fish/b.fish"]);
    assert!(is_directory_selection(false, &on_scope, &FilePath::new(".config/fish")));
    assert!(!is_directory_selection(false, &on_scope, &FilePath::new(".config/fish/a.fish")));
    assert!(is_directory_selection(true, &vec![], &FilePath::new("new")));

    let named = paths(&[".config/fish/", "./.config/fish/a.fish", "gone"]);
    let probes = vec![
        directory(&[".config/fish/a.fish", ".config/fish/c.fish"]),
        present(),
        absent(),
    ];
    let target = paths(&[".config/fish/a.fish", ".config/fish/b.fish", "gone"]);
    let selected = expand_selection_paths(&dotsync_paths(), "linux", &named, &probes, &target)
        .ok()
        .expect("every path matches something");
    // However they were typed, they are spelled as the repo spells paths.
    assert_eq!(shown(&selected.named), vec![".config/fish/a.fish", "gone"]);
    for path in selected.everything() {
        assert!(dotsync::repo::repo_path_of(&path).is_ok(), "{} is no repo path", path.text);
    }
    assert_eq!(
        shown(&selected.under_directory),
        vec![".config/fish/b.fish", ".config/fish/c.fish"]
    );
    assert_eq!(
        shown(&selected.everything()),
        vec![".config/fish/a.fish", ".config/fish/b.fish", ".config/fish/c.fish", "gone"]
    );
}

#[test]
fn a_path_selects_the_same_however_it_is_typed() {
    let target = paths(&[".config/fish/a.fish", ".config/fish/b.fish"]);
    let expand = |named: &[&str]| {
        let probes = vec![directory(&[".config/fish/c.fish"]), present()];
        expand_selection_paths(&dotsync_paths(), "linux", &paths(named), &probes, &target)
    };
    let plain = expand(&[".config/fish", "file"]).ok().expect("both are there");
    for named in [
        ["./.config/fish", "./file"],
        [".config/fish/", "file/"],
        ["./.config/fish/", "././file"],
    ] {
        let typed = expand(&named).ok().expect("both are there");
        assert_eq!(shown(&typed.named), shown(&plain.named));
        assert_eq!(shown(&typed.under_directory), shown(&plain.under_directory));
    }
    for named in ["..", "./..", "../", "./../"] {
        match expand(&[named, "file"]) {
            Err(DotsyncError::UnusableCommitPaths { rejected, .. }) => {
                assert_eq!(rejected.len(), 1);
                assert!(matches!(rejected[0].problem, CommitPathProblem::EscapesHome));
                assert_eq!(rejected[0].path.text, named);
            }
            _ => panic!("{named} leads out of home"),
        }
    }
}

/// `edited` was changed here, `stale` on another machine, `both` on both, and
/// `new` is only in home.
fn home() -> Vec<(FilePath, ClassifiedPath)> {
    classify_managed_trees(
        &entries(&[("both", "1"), ("edited", "1"), ("stale", "1")]),
        &entries(&[("both", "2"), ("edited", "2"), ("new", "1"), ("stale", "1")]),
        &entries(&[("both", "3"), ("edited", "1"), ("stale", "2")]),
        &paths(&["both"]),
    )
}

#[test]
fn a_bare_commit_takes_what_status_calls_changed() {
    let target = paths(&["edited", "stale"]);
    let chosen = select_changes_to_record(
        &options("linux", false, &[]),
        &None,
        &home(),
        &target,
        &None,
        &None,
    )
    .ok()
    .expect("a bare commit steps around what moved elsewhere");
    assert_eq!(shown(&chosen.paths), vec!["both", "edited"]);
    assert_eq!(shown(&chosen.newly_tracked), vec!["both"]);
    assert!(chosen.forced_paths.is_empty());
    assert!(chosen.forced_overwrites.is_empty());
}

#[test]
fn a_path_named_exactly_is_argued_with() {
    let selection = SelectedPaths {
        named: paths(&["edited", "stale"]),
        under_directory: vec![],
        skipped: vec![],
    };
    let decision = select_changes_to_record(
        &options("linux", false, &["edited", "stale"]),
        &Some(selection),
        &home(),
        &paths(&["edited", "stale"]),
        &None,
        &None,
    );
    match decision {
        Err(DotsyncError::StaleCommitPaths { scope, refused }) => {
            assert_eq!(scope, "linux");
            assert_eq!(refused.len(), 1);
            assert_eq!(refused[0].path.text, "stale");
            assert_eq!(refused[0].state, FileState::StaleNotYours);
        }
        _ => panic!("`stale` holds no change of this machine's own"),
    }
}

#[test]
fn a_directory_says_what_it_left_alone() {
    let selection = SelectedPaths {
        named: vec![],
        under_directory: paths(&["edited", "new", "stale"]),
        skipped: vec![],
    };
    let chosen = select_changes_to_record(
        &options("linux", false, &["."]),
        &Some(selection),
        &home(),
        &paths(&["edited", "stale"]),
        &None,
        &None,
    )
    .ok()
    .expect("a bulk selection filters");
    assert_eq!(shown(&chosen.paths), vec!["edited", "new"]);
    assert_eq!(shown(&chosen.newly_tracked), vec!["new"]);
    assert_eq!(chosen.skipped.len(), 1);
    assert_eq!(chosen.skipped[0].path.text, "stale");
    assert!(matches!(
        chosen.skipped[0].reason,
        SkipReason::NotChangedHere(FileState::StaleNotYours)
    ));
    assert_eq!(chosen.skipped[0].reason.code(), FileState::StaleNotYours.code());
    assert_eq!(SkipReason::NotARegularFile.code(), "not_a_regular_file");
    assert_eq!(
        SkipReason::NotARegularFile.explain(),
        "not a regular file, so there is no content to record"
    );
}

#[test]
fn force_takes_what_is_named_and_says_where_it_decided() {
    let selection = SelectedPaths {
        named: paths(&["both"]),
        under_directory: paths(&["edited", "stale"]),
        skipped: vec![],
    };
    let chosen = select_changes_to_record(
        &options("linux", true, &["both", "."]),
        &Some(selection),
        &home(),
        &paths(&["both", "edited", "stale"]),
        &None,
        &None,
    )
    .ok()
    .expect("force refuses nothing");
    assert_eq!(shown(&chosen.paths), vec!["both", "edited", "stale"]);
    assert_eq!(shown(&chosen.forced_paths), vec!["both", "edited", "stale"]);
    assert_eq!(shown(&chosen.forced_overwrites), vec!["both", "stale"]);
    assert!(chosen.skipped.is_empty());
}

#[test]
fn a_changed_scope_graph_goes_to_the_root_only() {
    let config = ".config/dotsync/config.toml";
    let classified = classify_managed_trees(
        &entries(&[(config, "1")]),
        &entries(&[(config, "2")]),
        &entries(&[(config, "1")]),
        &vec![],
    );
    let decide = |scope: &str, home: &[u8]| {
        select_changes_to_record(
            &options(scope, false, &[]),
            &None,
            &classified,
            &paths(&[config]),
            &Some(home.to_vec()),
            &Some(vec![1]),
        )
    };
    assert!(decide("all", &[2]).is_ok());
    assert!(decide("linux", &[1]).is_ok());
    match decide("linux", &[2]) {
        Err(DotsyncError::UnusableCommitPaths { rejected, .. }) => {
            assert_eq!(rejected[0].path.text, config);
            assert!(matches!(rejected[0].problem, CommitPathProblem::ScopeGraphOutsideAllScope));
        }
        _ => panic!("only the root holds the graph"),
    }
}

fn entry(dir: &str, name: &str, resolved: Option<&str>, kind: EntryKind) -> WalkEntry {
    WalkEntry {
        resolved_dir: FilePath::new(dir),
        file_name: FilePath::new(name),
        resolved: resolved.map(FilePath::new),
        kind,
    }
}

#[test]
fn a_walk_records_files_and_links_and_never_the_repo() {
    let mut walk = DirectoryWalk::start(
        Canonical { path: FilePath::new("/home/max") },
        Canonical { path: FilePath::new("/home/max/repo") },
    );
    let dir = "/home/max/.config";
    for (given, descends) in [
        (entry(dir, "b", Some("/home/max/.config/b"), EntryKind::File), false),
        (entry(dir, "a", None, EntryKind::Symlink), false),
        (entry(dir, "sub", Some("/home/max/.config/sub"), EntryKind::Directory), true),
        (entry("/home/max", "repo", Some("/home/max/repo"), EntryKind::Directory), false),
        (entry("/home/max", "self", Some("/home/max/repo/x"), EntryKind::Symlink), false),
        (entry("/srv", "out", Some("/srv/out"), EntryKind::File), false),
        (entry(dir, "socket", Some("/home/max/.config/socket"), EntryKind::Other), false),
    ] {
        let step = walk.visit(&given);
        assert_eq!(matches!(step, WalkStep::Descend), descends);
    }
    let walked = walk.finish();
    assert_eq!(shown(&walked.matched), vec![".config/a", ".config/b"]);
    assert_eq!(walked.skipped.len(), 1);
    assert_eq!(walked.skipped[0].path.text, ".config/socket");
    assert!(matches!(walked.skipped[0].reason, SkipReason::NotARegularFile));
}
