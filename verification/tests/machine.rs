use dotsync::bootstrap::{
    create_scope_plan, creation_conflict, init_failure, init_plan, Cleanup, InitPlan,
};
use dotsync::drift::{Entries, TreeValue};
use dotsync::error::DotsyncError;
use dotsync::home::{
    acquire_step, dropping_step, holds_head, mark_of, materialize_step, needs_amending, repair_step, resolve_step,
    state_directory, still_merged, take_home, AcquireEvent, AcquireState, Freshness, Materialize,
    Repair, Resolve,
};
use dotsync::machine::{
    detect_hostname, detect_os, identify, non_empty_text, HostnameSources, MachineIdentity,
};
use dotsync::paths::FilePath;
use dotsync::repo::{Head, Heads};
use dotsync::scope_graph::{Bookmark, Creation, History, ScopeGraph};
use dotsync::selection::DotsyncPaths;
use dotsync::walk::EntryKind;
use dotsync::working_copy::{
    checkout_plan, checkout_refusal, disk_change, disk_read, disk_write, file_is_executable,
    file_mode, home_disk_path, irregular_file_message, is_irregular, probe_also, steps_down,
    DiskChange, DiskPlace, DiskRead, DiskWrite,
};

fn texts(list: &[&str]) -> Vec<String> {
    list.iter().map(|text| text.to_string()).collect()
}

fn graph(scopes: &[(&str, &[&str])]) -> ScopeGraph {
    let mut bookmarks = Vec::new();
    let mut creations = Vec::new();
    let mut ancestry = Vec::new();
    for (name, above) in scopes {
        bookmarks.push(Bookmark { name: name.to_string(), heads: texts(&[name]) });
        creations.push(Creation {
            scope: name.to_string(),
            commits: texts(&[name]),
            description: None,
        });
        ancestry.push((name.to_string(), name.to_string()));
        for upper in above.iter() {
            ancestry.push((upper.to_string(), name.to_string()));
        }
    }
    let history = History { bookmarks, creations, ancestry };
    dotsync::scope_graph::derive(&history).ok().expect("the history is a DAG")
}

fn fleet() -> ScopeGraph {
    graph(&[("all", &[]), ("laptop", &["all", "linux"]), ("linux", &["all"])])
}

fn heads(list: &[&str]) -> Heads {
    list.iter().map(|scope| (scope.to_string(), Head::at(format!("@{scope}")))).collect()
}

fn machine(name: &str) -> MachineIdentity {
    MachineIdentity { os_scope: "linux".to_string(), machine_scope: name.to_string() }
}

fn sources(hostname: &str, computername: &str, file: Option<&str>) -> HostnameSources {
    HostnameSources {
        hostname: Some(hostname.to_string()),
        computername: Some(computername.to_string()),
        file: file.map(|text| Ok(text.to_string())),
    }
}

#[test]
fn a_machine_is_named_by_the_first_source_that_says_something() {
    assert_eq!(detect_hostname(&sources("a", "b", Some("c"))).ok().as_deref(), Some("a"));
    assert_eq!(detect_hostname(&sources("", "b", Some("c"))).ok().as_deref(), Some("b"));
    assert_eq!(detect_hostname(&sources("", "", Some(" c\n"))).ok().as_deref(), Some("c"));
    assert!(matches!(
        detect_hostname(&sources("", "", Some("\n"))),
        Err(DotsyncError::MissingHostname)
    ));
    assert!(matches!(
        detect_hostname(&sources("", "", None)),
        Err(DotsyncError::MissingHostname)
    ));
    let unreadable = HostnameSources {
        hostname: None,
        computername: None,
        file: Some(Err("denied".to_string())),
    };
    assert!(matches!(
        detect_hostname(&unreadable),
        Err(DotsyncError::Io { path, source })
            if path.text == "/etc/hostname" && source == "denied"
    ));
    assert_eq!(non_empty_text(&Some(String::new())), None);
    assert_eq!(detect_os(true), "windows");
    assert_eq!(detect_os(false), "linux");
}

#[test]
fn what_is_said_outright_names_the_machine() {
    let silent = HostnameSources { hostname: None, computername: None, file: None };
    let identity = identify(Some("mac".to_string()), Some("desk".to_string()), false, &silent)
        .ok()
        .expect("both are said");
    assert_eq!(identity.os_scope, "mac");
    assert_eq!(identity.machine_scope, "desk");
    assert!(matches!(
        identify(None, None, false, &silent),
        Err(DotsyncError::MissingHostname)
    ));
}

#[test]
fn the_first_machine_starts_a_fleet() {
    let empty = graph(&[]);
    match init_plan(&empty, &heads(&[]), &machine("laptop"), &vec![]) {
        Ok(InitPlan::StartFleet { chain }) => assert_eq!(chain, texts(&["all", "linux", "laptop"])),
        _ => panic!("there are no scopes yet"),
    }
    assert!(matches!(
        init_plan(&empty, &heads(&[]), &machine("laptop"), &texts(&["work"])),
        Err(DotsyncError::NoSuchParentScope { parent, scopes })
            if parent == "work" && scopes.is_empty()
    ));
}

#[test]
fn a_machine_joins_where_it_is_told_to() {
    let at = heads(&["all", "laptop", "linux"]);
    match init_plan(&fleet(), &at, &machine("desk"), &texts(&["linux"])) {
        Ok(InitPlan::Join { scope, parents }) => {
            assert_eq!(scope, "desk");
            assert_eq!(parents, texts(&["@linux"]));
        }
        _ => panic!("the machine is new"),
    }
    assert!(matches!(
        init_plan(&fleet(), &at, &machine("desk"), &vec![]),
        Err(DotsyncError::ParentScopeRequired { .. })
    ));
    assert!(matches!(
        init_plan(&fleet(), &at, &machine("desk"), &texts(&["linux", "typo"])),
        Err(DotsyncError::NoSuchParentScope { parent, .. }) if parent == "typo"
    ));
    assert!(matches!(
        init_plan(&fleet(), &heads(&["all", "desk"]), &machine("desk"), &texts(&["all"])),
        Err(DotsyncError::ScopeNameTaken { scope }) if scope == "desk"
    ));
}

#[test]
fn only_a_leaf_is_adopted() {
    let at = heads(&["all", "laptop", "linux"]);
    assert!(matches!(
        init_plan(&fleet(), &at, &machine("laptop"), &vec![]),
        Ok(InitPlan::Adopt)
    ));
    assert!(matches!(
        init_plan(&fleet(), &at, &machine("linux"), &vec![]),
        Err(DotsyncError::MachineScopeIsShared { children, .. }) if children == texts(&["laptop"])
    ));
    assert!(matches!(
        init_plan(&fleet(), &at, &machine("laptop"), &texts(&["all"])),
        Err(DotsyncError::MachineScopeAlreadyPlaced { parents, .. })
            if parents == texts(&["linux"])
    ));
}

#[test]
fn a_new_scope_needs_a_free_name_and_parents_that_are_there() {
    let at = heads(&["all", "laptop", "linux"]);
    assert_eq!(
        create_scope_plan(&fleet(), &at, "work", &texts(&["linux", "all"])).ok(),
        Some(texts(&["@linux", "@all"]))
    );
    assert!(matches!(
        create_scope_plan(&fleet(), &at, "linux", &texts(&["all"])),
        Err(DotsyncError::ScopeNameTaken { .. })
    ));
    assert!(matches!(
        create_scope_plan(&fleet(), &heads(&[]), "work", &texts(&["all"])),
        Err(DotsyncError::ScopeNotInRepo { scope }) if scope == "all"
    ));
    assert!(matches!(
        creation_conflict("work", texts(&[".bashrc"])),
        Some(DotsyncError::ScopeCreationConflict { scope, .. }) if scope == "work"
    ));
    assert!(creation_conflict("work", vec![]).is_none());
}

#[test]
fn an_init_that_stops_says_what_it_left_behind() {
    let root = FilePath::new("/home/max/repo");
    let error = || DotsyncError::RemoteUnreachable { reason: "offline".to_string() };
    assert!(matches!(
        init_failure(error(), &root, Cleanup::Removed),
        DotsyncError::RemoteUnreachable { .. }
    ));
    assert!(matches!(
        init_failure(error(), &root, Cleanup::NotThere),
        DotsyncError::RemoteUnreachable { .. }
    ));
    let stop = init_failure(error(), &root, Cleanup::Failed("busy".to_string()));
    let explained = stop.explain(None);
    assert_eq!(explained.code, "remote_unreachable");
    assert_eq!(explained.message, stop.message());
    assert!(explained.message.contains("/home/max/repo: busy"));
}

#[test]
fn home_is_read_under_the_lock() {
    let mut state = AcquireState::Open { exists: false };
    let mut seen: Vec<&str> = Vec::new();
    loop {
        let (name, event) = match &state {
            AcquireState::Open { .. } => ("open", AcquireEvent::Done),
            AcquireState::Lock => ("lock", AcquireEvent::Done),
            AcquireState::Reread => ("reread", AcquireEvent::Done),
            AcquireState::EnsureCommit => ("commit", AcquireEvent::Done),
            AcquireState::CheckFreshness => ("check", AcquireEvent::Found(Freshness::Fresh)),
            AcquireState::Snapshot => ("snapshot", AcquireEvent::Done),
            AcquireState::Repair => ("repair", AcquireEvent::Done),
            AcquireState::Ready | AcquireState::Failed(_) => break,
        };
        seen.push(name);
        state = acquire_step(state, event);
    }
    assert_eq!(seen, vec!["open", "lock", "reread", "commit", "check", "snapshot"]);
    let stale = acquire_step(AcquireState::CheckFreshness, AcquireEvent::Found(Freshness::Stale));
    assert!(matches!(stale, AcquireState::Repair));
    let ahead = acquire_step(AcquireState::CheckFreshness, AcquireEvent::Found(Freshness::Updated));
    assert!(matches!(ahead, AcquireState::Failed(DotsyncError::Jj { .. })));
    let at = DotsyncPaths {
        repo_root: FilePath::new("/repo"),
        home_dir: FilePath::new("/home/max"),
    };
    assert_eq!(state_directory(&at).text, "/repo/.jj/working_copy");
}

#[test]
fn a_sync_merges_only_what_home_does_not_hold() {
    assert_eq!(mark_of(&texts(&["m"])).ok().as_deref(), Some("m"));
    assert!(mark_of(&vec![]).is_err());
    assert!(still_merged(&Some(("h".to_string(), "t".to_string())), "h", "t"));
    assert!(!still_merged(&Some(("h".to_string(), "t".to_string())), "h", "u"));
    assert!(!still_merged(&None, "h", "t"));
    assert_eq!(materialize_step("h", "h", None), Materialize::AlreadyThere);
    assert_eq!(materialize_step("h", "m", None), Materialize::Merge);
    assert_eq!(materialize_step("h", "m", Some(true)), Materialize::Conflicted);
    assert_eq!(materialize_step("h", "m", Some(false)), Materialize::CheckOut);
    assert_eq!(resolve_step("h", "h", None), Resolve::NothingToResolve);
    assert_eq!(resolve_step("h", "m", Some(true)), Resolve::TakeHome);
    assert_eq!(resolve_step("h", "m", Some(false)), Resolve::NothingToResolve);
    assert!(holds_head("h", "h", "t", "t"));
    assert!(!holds_head("h", "h", "t", "u"));
    assert_eq!(dropping_step("h", "m", "t", "u", true), Materialize::Conflicted);
    assert_eq!(dropping_step("h", "h", "t", "t", true), Materialize::Conflicted);
    assert_eq!(dropping_step("h", "h", "t", "t", false), Materialize::AlreadyThere);
    assert_eq!(dropping_step("h", "h", "t", "u", false), Materialize::CheckOut);
    assert_eq!(dropping_step("h", "m", "t", "t", false), Materialize::CheckOut);
    assert_eq!(repair_step("t", "t", None), Repair::NothingToDo);
    assert_eq!(repair_step("t", "u", None), Repair::Merge);
    assert_eq!(repair_step("t", "u", Some(false)), Repair::Complete);
    assert_eq!(repair_step("t", "u", Some(true)), Repair::Rewind);
    assert!(needs_amending("t", "u"));
    assert!(!needs_amending("t", "t"));
}

fn entries(list: &[(&str, &str)]) -> Entries {
    list.iter()
        .map(|(path, id)| {
            (FilePath::new(path), TreeValue::File { id: id.to_string(), executable: false })
        })
        .collect()
}

#[test]
fn homes_side_of_a_path_is_what_home_holds_or_nothing() {
    let taken = take_home(
        &vec![FilePath::new("a"), FilePath::new("gone")],
        &entries(&[("a", "1"), ("b", "2")]),
    );
    assert!(matches!(&taken[0].1, Some(TreeValue::File { id, .. }) if id == "1"));
    assert!(taken[1].1.is_none());
}

#[test]
fn a_managed_path_never_leaves_home() {
    let home = FilePath::new("/home/max");
    let repo = FilePath::new("/home/max/repo");
    let steps = steps_down(&home, &texts(&[".config", "fish"]));
    let shown: Vec<&str> = steps.iter().map(|step| step.text.as_str()).collect();
    assert_eq!(shown, vec!["/home/max/.config", "/home/max/.config/fish"]);
    let disk = home_disk_path(".config/fish", &steps, &vec![false, true], &repo);
    assert_eq!(disk.ok().map(|path| path.text).as_deref(), Some("/home/max/.config/fish"));
    let linked = home_disk_path(".config/fish", &steps, &vec![true, false], &repo);
    assert_eq!(
        linked.err().as_deref(),
        Some(".config/fish traverses a symlink at /home/max/.config: dotsync never follows links")
    );
    let inside = steps_down(&home, &texts(&["repo", "x"]));
    assert_eq!(
        home_disk_path("repo/x", &inside, &vec![false, false], &repo).err().as_deref(),
        Some("repo/x is inside dotsync's own repository and cannot be managed")
    );
}

#[test]
fn what_is_on_disk_becomes_an_entry_by_its_kind() {
    assert_eq!(disk_read(None), DiskRead::Absent);
    assert_eq!(disk_read(Some(EntryKind::Directory)), DiskRead::Absent);
    assert_eq!(disk_read(Some(EntryKind::Symlink)), DiskRead::Link);
    assert_eq!(disk_read(Some(EntryKind::File)), DiskRead::File);
    assert_eq!(disk_read(Some(EntryKind::Other)), DiskRead::Refused);
    assert!(is_irregular(EntryKind::Other));
    assert!(!is_irregular(EntryKind::Symlink));
    assert_eq!(
        irregular_file_message(&FilePath::new("/tmp/fifo")),
        "/tmp/fifo is not a regular file, so dotsync cannot record what it holds"
    );
    assert!(file_is_executable(0o100755));
    assert!(file_is_executable(0o100));
    assert!(!file_is_executable(0o644));
    assert_eq!(file_mode(true), 0o755);
    assert_eq!(file_mode(false), 0o644);
    let mut probe = texts(&["a"]);
    assert!(probe_also(&mut probe, &texts(&["a", "b", "b"])));
    assert_eq!(probe, texts(&["a", "b"]));
    assert!(!probe_also(&mut probe, &texts(&["b"])));
}

#[test]
fn a_checkout_reaches_the_new_tree() {
    let old = entries(&[("a", "1"), ("b", "1"), ("c", "1")]);
    let new = entries(&[("a", "1"), ("b", "2"), ("d", "1")]);
    let changes = checkout_plan(&old, &new);
    let listed: Vec<(&str, bool)> = changes
        .iter()
        .map(|change| (change.path.text.as_str(), change.value.is_some()))
        .collect();
    assert_eq!(listed, vec![("b", true), ("c", false), ("d", true)]);
    assert!(checkout_refusal(false).is_none());
    assert!(checkout_refusal(true).is_some());
    assert_eq!(disk_change(true, true), DiskChange::Update);
    assert_eq!(disk_change(true, false), DiskChange::Create);
    assert_eq!(disk_change(false, true), DiskChange::Remove);
    assert_eq!(disk_change(false, false), DiskChange::Nothing);
}

#[test]
fn a_value_is_written_as_what_it_is() {
    let file = |executable| TreeValue::File { id: "1".to_string(), executable };
    let place = |existed, plain_file, same_bytes, mode| DiskPlace {
        existed,
        plain_file,
        same_bytes,
        mode,
    };
    assert!(matches!(
        disk_write(&file(false), &place(true, true, true, 0o100600)),
        DiskWrite::File { remove_first: false, write: false, mode: None }
    ));
    assert!(matches!(
        disk_write(&file(true), &place(true, true, true, 0o100600)),
        DiskWrite::File { remove_first: false, write: false, mode: Some(0o755) }
    ));
    assert!(matches!(
        disk_write(&file(false), &place(true, true, false, 0o100755)),
        DiskWrite::File { remove_first: false, write: true, mode: Some(0o644) }
    ));
    assert!(matches!(
        disk_write(&file(false), &place(true, false, false, 0o120777)),
        DiskWrite::File { remove_first: true, write: true, mode: None }
    ));
    assert!(matches!(
        disk_write(&file(true), &place(false, false, false, 0)),
        DiskWrite::File { remove_first: false, write: true, mode: Some(0o755) }
    ));
    let link = TreeValue::Symlink("s".to_string());
    assert!(matches!(
        disk_write(&link, &place(true, true, false, 0o100644)),
        DiskWrite::Symlink { remove_first: true }
    ));
    assert!(matches!(
        disk_write(&link, &place(false, false, false, 0)),
        DiskWrite::Symlink { remove_first: false }
    ));
    let submodule = TreeValue::GitSubmodule("g".to_string());
    assert!(matches!(
        disk_write(&submodule, &place(false, false, false, 0)),
        DiskWrite::Unsupported
    ));
}
