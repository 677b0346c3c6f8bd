use dotsync::config::{
    config_with_added_scopes, default_sync_state_relative_path, internal_repo_paths, new_config,
    parse_config, repo_config_path, DotsyncConfig, NewScope, RawConfig, ScopeKind,
};
use dotsync::error::DotsyncError;
use dotsync::paths::FilePath;
use dotsync::scope_lifecycle::{add_scope_commit, add_scope_to_config, AddScopeOptions};
use dotsync::selection::DotsyncPaths;

fn texts(list: &[&str]) -> Vec<String> {
    list.iter().map(|text| text.to_string()).collect()
}

fn scope(name: &str, parents: &[&str], kind: ScopeKind) -> NewScope {
    NewScope { name: name.to_string(), parents: texts(parents), kind }
}

#[test]
fn a_new_config_explains_every_scope_it_lists() {
    let text = new_config(
        &FilePath::new(".config/dotsync/sync-state.json"),
        &vec![
            scope("all", &[], ScopeKind::Root),
            scope("linux", &["all"], ScopeKind::Os),
            scope("laptop", &["linux"], ScopeKind::Machine),
        ],
    );
    assert!(text.starts_with("# dotsync scope graph — which config reaches which machines.\n"));
    assert!(text.contains("\n[scopes]\n"), "{text}");
    assert!(
        text.contains("\n# `all` — every machine, whatever its OS.\n# What belongs here:\nall = {}"),
        "{text}"
    );
    assert!(
        text.contains("# `linux` — every machine whose OS is linux.\n# What belongs here:\nlinux = { parents = [\"all\"] }"),
        "{text}"
    );
    assert!(
        text.contains("# `laptop` — only the machine called laptop.\n# What belongs here:\nlaptop = { parents = [\"linux\"] }"),
        "{text}"
    );
    assert!(
        text.contains("\n[sync]\n# Where dotsync records which machine scope this home uses. Machine-local: it\n# never travels on a scope.\nstate_path = \".config/dotsync/sync-state.json\"\n"),
        "{text}"
    );
}

#[test]
fn added_scopes_keep_what_the_config_said() {
    let existing = "# mine\n[scopes]\n# the root\nall = {}\n\n[sync]\nstate_path = \"x\" # here\n";
    let path = FilePath::new("/repo/config.toml");
    let edited = config_with_added_scopes(
        existing,
        &vec![scope("desk", &["all"], ScopeKind::Machine)],
        &path,
    )
    .ok()
    .expect("a table of scopes");
    assert_eq!(
        edited,
        "# mine\n[scopes]\n# the root\nall = {}\n\n# `desk` — only the machine called desk.\n# What belongs here:\ndesk = { parents = [\"all\"] }\n\n[sync]\nstate_path = \"x\" # here\n"
    );
    assert_eq!(
        config_with_added_scopes(existing, &vec![], &path).ok().as_deref(),
        Some(existing)
    );
}

#[test]
fn added_scopes_keep_every_other_value_and_comment() {
    let above = "# top\ntitle = 1 # one\n\n[scopes] # all of them\n# the root\nall = {} # everything\nmac = { parents = [\"all\"], note = \"x\" }\n";
    let below = "\n# the rest\n[other]\nlist = [1, 2] # two\n# the end\n";
    let edited = config_with_added_scopes(
        &format!("{above}{below}"),
        &vec![scope("desk", &[], ScopeKind::Machine)],
        &FilePath::new("/repo/config.toml"),
    )
    .ok()
    .expect("a table of scopes");
    let added = "\n# `desk` — only the machine called desk.\n# What belongs here:\ndesk = {}\n";
    assert_eq!(edited, format!("{above}{added}{below}"));
}

#[test]
fn scopes_stand_in_the_order_in_which_they_are_added() {
    let place = |text: &str, name: &str| text.find(&format!("\n{name} = ")).expect("it is listed");
    let text = new_config(
        &FilePath::new("state"),
        &vec![
            scope("zeta", &[], ScopeKind::Root),
            scope("mu", &["zeta"], ScopeKind::Os),
            scope("alpha", &["mu"], ScopeKind::Machine),
        ],
    );
    assert!(place(&text, "zeta") < place(&text, "mu"));
    assert!(place(&text, "mu") < place(&text, "alpha"));
    let again = config_with_added_scopes(
        &text,
        &vec![scope("mu", &[], ScopeKind::Os), scope("beta", &["mu"], ScopeKind::Machine)],
        &FilePath::new("config.toml"),
    )
    .ok()
    .expect("a table of scopes");
    assert!(place(&again, "zeta") < place(&again, "mu"));
    assert!(place(&again, "mu") < place(&again, "alpha"));
    assert!(place(&again, "alpha") < place(&again, "beta"));
    assert!(again.contains("\nmu = {}\n"), "{again}");
}

#[test]
fn a_config_that_cannot_be_edited_is_named() {
    let path = FilePath::new("/repo/config.toml");
    let edit = |text: &str| config_with_added_scopes(text, &vec![], &path);
    for text in ["", "scopes = 1\n", "[sync]\nstate_path = \"x\"\n"] {
        let error = edit(text).err().expect("no table of scopes");
        assert_eq!(error.message, "`[scopes]` is not a table");
        assert_eq!(error.path.text, "/repo/config.toml");
    }
    let broken = edit("[scopes\n").err().expect("no TOML");
    assert!(broken.message.contains("TOML parse error"), "{}", broken.message);
}

#[test]
fn a_config_without_a_state_path_has_the_default() {
    let raw = |state: Option<&str>| RawConfig {
        scopes: vec![("all".to_string(), vec![])],
        state_path: state.map(str::to_string),
    };
    let config = parse_config(raw(None));
    assert_eq!(config.sync_state_relative_path.text, ".config/dotsync/sync-state.json");
    assert_eq!(default_sync_state_relative_path(), ".config/dotsync/sync-state.json");
    let config = parse_config(raw(Some("here.json")));
    let internal = internal_repo_paths(&config);
    assert_eq!(internal.len(), 1);
    assert_eq!(internal[0].text, "here.json");
    let at = DotsyncPaths {
        repo_root: FilePath::new("/repo"),
        home_dir: FilePath::new("/home/max"),
    };
    assert_eq!(repo_config_path(&at).text, "/repo/.config/dotsync/config.toml");
}

fn config(scopes: &[(&str, &[&str])]) -> DotsyncConfig {
    DotsyncConfig {
        scopes: scopes
            .iter()
            .map(|(name, parents)| (name.to_string(), texts(parents)))
            .collect(),
        sync_state_relative_path: FilePath::new("state"),
    }
}

fn adding(scope: &str, parents: &[&str], children: &[&str]) -> AddScopeOptions {
    AddScopeOptions {
        scope: scope.to_string(),
        parents: texts(parents),
        children: texts(children),
        force: false,
    }
}

#[test]
fn a_scope_is_added_between_its_parents_and_its_children() {
    let before = config(&[("all", &[]), ("laptop", &["all"])]);
    let after = add_scope_to_config(before, &adding("linux", &["all"], &["laptop"]))
        .ok()
        .expect("every scope it names is there");
    let parents = |name: &str| {
        after.scopes.iter().find(|(scope, _)| scope == name).map(|(_, parents)| parents.clone())
    };
    assert_eq!(parents("linux"), Some(texts(&["all"])));
    assert!(parents("laptop").is_some_and(|above| above.contains(&"linux".to_string())));
    assert_eq!(parents("all"), Some(vec![]));
    assert!(matches!(
        add_scope_to_config(config(&[("all", &[])]), &adding("linux", &["typo"], &[])),
        Err(DotsyncError::InvalidScope { scope }) if scope == "typo"
    ));
}

#[test]
fn an_added_scope_is_committed_to_the_root() {
    let commit = add_scope_commit(&AddScopeOptions {
        force: true,
        ..adding("linux", &["all"], &["laptop"])
    });
    assert_eq!(commit.scope, "all");
    assert_eq!(commit.message, "add linux scope");
    assert!(commit.force);
    let paths: Vec<String> = commit.paths.iter().map(|path| path.text.clone()).collect();
    assert_eq!(paths, texts(&[".config/dotsync/config.toml"]));
    assert!(!add_scope_commit(&adding("linux", &[], &[])).force);
}
