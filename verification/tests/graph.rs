use dotsync::cascade::{
    build_cascade_plan, CascadeCommand, CascadeMerge, CascadeRun, CascadeStep, ScopeHeads,
};
use dotsync::creation::{creation_description, creation_subject, description_body, scope_created_by};
use dotsync::repo::Head;
use dotsync::scope_graph::{Bookmark, Creation, History, Scope, ScopeGraph};
use dotsync::search::CreationSearch;

fn texts(list: &[&str]) -> Vec<String> {
    list.iter().map(|text| text.to_string()).collect()
}

fn bookmark(name: &str, heads: &[&str]) -> Bookmark {
    Bookmark { name: name.to_string(), heads: texts(heads) }
}

fn creation(scope: &str, commits: &[&str]) -> Creation {
    Creation { scope: scope.to_string(), commits: texts(commits), description: None }
}

/// Who is whose ancestor, from each commit and its parents, roots first.
fn ancestry(commits: &[(&str, &[&str])]) -> Vec<(String, String)> {
    let mut pairs: Vec<(String, String)> = Vec::new();
    for (id, parents) in commits {
        let mut above: Vec<String> = vec![id.to_string()];
        for parent in parents.iter() {
            for (ancestor, descendant) in &pairs {
                if descendant == parent && !above.contains(ancestor) {
                    above.push(ancestor.clone());
                }
            }
        }
        for ancestor in above {
            pairs.push((ancestor, id.to_string()));
        }
    }
    pairs
}

/// `all`, below it `linux` and `work`, `home-linux` below `linux`, and
/// `work-linux` below both `linux` and `work`. `backup` is nobody's scope.
fn fleet() -> History {
    History {
        bookmarks: vec![
            bookmark("all", &["a"]),
            bookmark("backup", &["l"]),
            bookmark("home-linux", &["h"]),
            bookmark("linux", &["l"]),
            bookmark("work", &["w"]),
            bookmark("work-linux", &["wl"]),
        ],
        creations: vec![
            creation("all", &["a"]),
            creation("home-linux", &["h"]),
            creation("linux", &["l"]),
            creation("work", &["w"]),
            creation("work-linux", &["wl"]),
        ],
        ancestry: ancestry(&[
            ("a", &[]),
            ("l", &["a"]),
            ("w", &["a"]),
            ("h", &["l"]),
            ("wl", &["l", "w"]),
        ]),
    }
}

fn derived(history: &History) -> ScopeGraph {
    dotsync::scope_graph::derive(history).ok().expect("the history is a DAG")
}

fn names(scopes: &[&Scope]) -> Vec<String> {
    scopes.iter().map(|scope| scope.name.clone()).collect()
}

fn parents_of(graph: &ScopeGraph, scope: &str) -> Vec<String> {
    graph.get(scope).map(|scope| scope.parents.clone()).unwrap_or_default()
}

#[test]
fn a_scope_is_a_bookmark_whose_history_holds_its_creation() {
    let graph = derived(&fleet());
    assert_eq!(graph.names(), texts(&["all", "home-linux", "linux", "work", "work-linux"]));
    assert!(!graph.contains("backup"));
    assert!(graph.get("nowhere").is_none());
    assert_eq!(graph.a_root(), Some("all"));
}

#[test]
fn the_parents_of_a_scope_are_the_nearest_it_descends_from() {
    let graph = derived(&fleet());
    assert_eq!(parents_of(&graph, "all"), texts(&[]));
    assert_eq!(parents_of(&graph, "home-linux"), texts(&["linux"]));
    assert_eq!(parents_of(&graph, "work-linux"), texts(&["linux", "work"]));
    let all = graph.get("all").expect("the root is a scope");
    assert_eq!(all.children, texts(&["linux", "work"]));
    assert!(!all.is_leaf());
    assert!(graph.get("work-linux").expect("a leaf is a scope").is_leaf());
}

#[test]
fn scopes_cascade_parents_first_and_by_name() {
    let graph = derived(&fleet());
    assert_eq!(
        names(&graph.in_cascade_order()),
        texts(&["all", "linux", "work", "home-linux", "work-linux"])
    );
    assert_eq!(
        names(&graph.descendants_in_cascade_order("linux")),
        texts(&["home-linux", "work-linux"])
    );
    assert_eq!(names(&graph.descendants_in_cascade_order("nowhere")), texts(&[]));
}

#[test]
fn the_scopes_above_one_are_listed_nearest_first() {
    let graph = derived(&fleet());
    let above = names(&graph.ancestors_and_self("work-linux"));
    assert_eq!(above.first().map(String::as_str), Some("work-linux"));
    assert_eq!(above.last().map(String::as_str), Some("all"));
    assert_eq!(above.len(), 4);
    assert_eq!(names(&graph.ancestors_and_self("nowhere")), texts(&[]));
    assert_eq!(graph.depth("all"), 0);
    assert_eq!(graph.depth("linux"), 1);
    assert_eq!(graph.depth("work-linux"), 2);
    assert_eq!(graph.depth("nowhere"), 0);
}

#[test]
fn a_created_scope_is_read_back_and_moves_no_other() {
    let before = derived(&fleet());
    let mut history = fleet();
    history.bookmarks.insert(2, bookmark("gaming", &["g"]));
    history.creations.push(Creation {
        scope: "gaming".to_string(),
        commits: texts(&["g"]),
        description: Some("steam and friends".to_string()),
    });
    history.ancestry.extend([
        ("a".to_string(), "g".to_string()),
        ("l".to_string(), "g".to_string()),
        ("g".to_string(), "g".to_string()),
    ]);
    let after = derived(&history);
    assert_eq!(parents_of(&after, "gaming"), texts(&["linux"]));
    assert_eq!(
        after.get("gaming").and_then(|scope| scope.description.clone()).as_deref(),
        Some("steam and friends")
    );
    for name in before.names() {
        assert_eq!(parents_of(&after, &name), parents_of(&before, &name), "moved {name}");
    }
    assert_eq!(after.names().len(), before.names().len() + 1);
}

#[test]
fn scopes_that_descend_from_each_other_are_no_graph() {
    let history = History {
        bookmarks: vec![bookmark("one", &["x"]), bookmark("two", &["x"])],
        creations: vec![creation("one", &["1"]), creation("two", &["2"])],
        ancestry: ancestry(&[("1", &[]), ("2", &["1"]), ("x", &["2"])]),
    };
    let error = dotsync::scope_graph::derive(&history).err().expect("the two are tied");
    assert!(error.message().ends_with("the scope graph is not a DAG"), "{}", error.message());
}

#[test]
fn what_creates_a_scope_is_read_back() {
    assert_eq!(creation_subject("linux"), "dotsync: create linux scope");
    let bare = creation_description("linux", None);
    assert_eq!(bare, "dotsync: create linux scope");
    assert_eq!(description_body(&bare), None);
    let blank = creation_description("linux", Some(" \n "));
    assert_eq!(blank, bare);
    let said = creation_description("hyprland", Some(" wayland compositor config\n"));
    assert_eq!(said, "dotsync: create hyprland scope\n\nwayland compositor config");
    assert_eq!(scope_created_by(&said).as_deref(), Some("hyprland"));
    assert_eq!(description_body(&said).as_deref(), Some("wayland compositor config"));
    assert_eq!(scope_created_by("dotsync: create  scope"), None);
    assert_eq!(scope_created_by("dotsync: create two words scope"), None);
    assert_eq!(scope_created_by(""), None);
}

#[test]
fn the_search_for_creations_visits_every_commit_once() {
    let commits: [(&str, &str, &[&str]); 5] = [
        ("a", "dotsync: create all scope", &[]),
        ("l", "dotsync: create linux scope\n\nfor every linux", &["a"]),
        ("m", "edit", &["l"]),
        ("n", "edit", &["l"]),
        ("t", "merge", &["m", "n"]),
    ];
    let mut search = CreationSearch::start(texts(&["t", "m"]));
    let mut visited: Vec<String> = Vec::new();
    while let Some(id) = search.next_commit() {
        let (_, description, parents) =
            commits.iter().find(|commit| commit.0 == id).expect("a known commit");
        search.record(&id, description, &texts(parents));
        visited.push(id);
    }
    let mut sorted = visited.clone();
    sorted.sort();
    assert_eq!(sorted, texts(&["a", "l", "m", "n", "t"]));
    let creations = search.finish();
    let mut found: Vec<(String, Vec<String>, Option<String>)> = creations
        .into_iter()
        .map(|creation| (creation.scope, creation.commits, creation.description))
        .collect();
    found.sort();
    assert_eq!(
        found,
        vec![
            ("all".to_string(), texts(&["a"]), None),
            ("linux".to_string(), texts(&["l"]), Some("for every linux".to_string())),
        ]
    );
}

#[test]
fn a_change_cascades_into_every_scope_below() {
    let graph = derived(&fleet());
    let heads: Vec<(String, Head)> = [
        ("all", "a"),
        ("home-linux", "h"),
        ("linux", "l"),
        ("work", "w"),
        ("work-linux", "wl"),
    ]
    .iter()
    .map(|(scope, id)| (scope.to_string(), Head::at(id.to_string())))
    .collect();
    let heads = ScopeHeads::load_existing(&graph, &heads);
    let command = CascadeCommand::from_scope("linux");
    assert_eq!(command.description, "dotsync: cascade from linux");
    let steps = build_cascade_plan(&graph, &heads, &command);
    let planned: Vec<(String, Vec<String>)> = steps
        .iter()
        .map(|step| (step.scope.clone(), step.parent_scopes.clone()))
        .collect();
    assert_eq!(
        planned,
        vec![
            ("home-linux".to_string(), texts(&["linux"])),
            ("work-linux".to_string(), texts(&["linux", "work"])),
        ]
    );
    let mut run = CascadeRun::start(steps, heads);
    let mut merges: Vec<(String, Vec<String>)> = Vec::new();
    loop {
        match run.next_merge() {
            Ok(CascadeMerge::Merge { scope, parents }) => {
                run.wrote(format!("{scope}+"));
                merges.push((scope, parents));
            }
            Ok(CascadeMerge::Finished) => break,
            Err(error) => panic!("{}", error.message()),
        }
    }
    assert_eq!(
        merges,
        vec![
            ("home-linux".to_string(), texts(&["h", "l"])),
            ("work-linux".to_string(), texts(&["wl", "l", "w"])),
        ]
    );
    assert_eq!(run.completed, texts(&["home-linux", "work-linux"]));
    assert_eq!(run.heads.require("work-linux").ok().as_deref(), Some("work-linux+"));
}

#[test]
fn a_scope_without_a_head_is_no_part_of_a_cascade() {
    let graph = derived(&fleet());
    let heads = ScopeHeads {
        heads: vec![
            ("linux".to_string(), "l".to_string()),
            ("home-linux".to_string(), "h".to_string()),
        ],
    };
    let steps = build_cascade_plan(&graph, &heads, &CascadeCommand::from_scope("all"));
    let planned: Vec<String> = steps.iter().map(|step| step.scope.clone()).collect();
    assert_eq!(planned, texts(&["home-linux"]));
    let error = heads.require("work").expect_err("`work` has no head");
    assert_eq!(error.explain(None).code, "scope_not_in_repo");
}

fn cascade_step(scope: &str, parents: &[&str]) -> CascadeStep {
    CascadeStep { scope: scope.to_string(), parent_scopes: texts(parents) }
}

fn two_heads() -> ScopeHeads {
    ScopeHeads {
        heads: vec![
            ("linux".to_string(), "l".to_string()),
            ("home-linux".to_string(), "h".to_string()),
        ],
    }
}

#[test]
fn a_step_without_parents_merges_nothing() {
    let steps = vec![
        cascade_step("linux", &[]),
        cascade_step("home-linux", &["linux"]),
        cascade_step("linux", &[]),
    ];
    let mut run = CascadeRun::start(steps, two_heads());
    match run.next_merge() {
        Ok(CascadeMerge::Merge { scope, parents }) => {
            assert_eq!(scope, "home-linux");
            assert_eq!(parents, texts(&["h", "l"]));
        }
        _ => panic!("`home-linux` is to be merged into"),
    }
    run.wrote("h+".to_string());
    assert!(matches!(run.next_merge(), Ok(CascadeMerge::Finished)));
    assert_eq!(run.completed, texts(&["home-linux"]));
    assert_eq!(run.heads.require("linux").ok().as_deref(), Some("l"));
}

#[test]
fn a_cascade_names_the_first_scope_that_has_no_head() {
    let steps = vec![cascade_step("home-linux", &["linux", "work", "laptop"])];
    let mut run = CascadeRun::start(steps, two_heads());
    let error = run.next_merge().err().expect("`work` has no head");
    assert!(error.message().contains("work"));
    assert!(!error.message().contains("laptop"));

    let mut run = CascadeRun::start(vec![cascade_step("work", &[])], two_heads());
    let error = run.next_merge().err().expect("`work` has no head");
    assert_eq!(error.explain(None).code, "scope_not_in_repo");
    assert_eq!(run.next, 0);
}
