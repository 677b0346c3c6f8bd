//! What `view` and `diff` answer.
use vstd::prelude::*;
use vstd::string::*;
use crate::drift::{changed_paths, in_group, ClassifiedPath, FileState, StateGroup};
use crate::error::{is_invalid_scope, opt_bytes, DotsyncError};
use crate::lineage::{is_depth, law_depth_is_unique};
use crate::order::{lemma_text_order, text_before};
use crate::paths::{
    all_paths, contains_path, first_of, lemma_spelled, sorted_paths, spelled, Components, FilePath,
};
use crate::scope_graph::{
    acyclic, is_parent, names_of, scope_views, Scope, ScopeGraph, ScopeView,
};
use crate::selection::{add_paths, copy_paths};
use crate::seqs::{lemma_filter_holds, lemma_filter_step, lemma_take_all};
use crate::status::MachineState;
use crate::sync::{group_changes, is_classified, lemma_group_changes, FileChange, FileDrift};
use crate::sync_run::{are_drifts_at, file_drifts, is_drift_at, BothSides};
use crate::text::{
    clone_opt_text, clone_texts, lemma_texts_push, opt_text, same_text, texts, Text,
};

verus! {

/// A scope as `view` lists it.
#[derive(Debug, Clone)]
pub struct ScopeInfo {
    pub name: String,
    pub parents: Vec<String>,
    /// What the scope is for, where its creator said.
    pub description: Option<String>,
}

/// A listed scope as contracts see it.
pub struct ScopeInfoView {
    pub name: Text,
    pub parents: Seq<Text>,
    pub description: Option<Text>,
}

impl View for ScopeInfo {
    type V = ScopeInfoView;

    open spec fn view(&self) -> ScopeInfoView {
        ScopeInfoView {
            name: self.name@,
            parents: texts(self.parents@),
            description: opt_text(self.description),
        }
    }
}

/// What `view` found, and what it has to say whatever it was asked.
#[derive(Debug, Clone)]
pub struct ViewReport {
    pub machine: MachineState,
    pub found: ViewAnswer,
}

/// The answer to whichever question `view` was asked.
#[derive(Debug, Clone)]
pub enum ViewAnswer {
    /// Every scope, and every file any of them holds.
    Overview { scopes: Vec<ScopeInfo>, files: Vec<FilePath> },
    /// Every file one scope holds.
    Scope { scope: String, files: Vec<FilePath> },
    /// Every scope that holds one file.
    FileScopes { file: FilePath, scopes: Vec<String> },
    /// One file's contents on one scope.
    FileContents { scope: String, file: FilePath, contents: Vec<u8> },
}

/// What `diff` found.
#[derive(Debug, Clone)]
pub struct DiffReport {
    pub machine_scope: String,
    pub machine: MachineState,
    pub drifts: Vec<FileDrift>,
}

/// How a scope is listed.
pub open spec fn info_of(scope: ScopeView) -> ScopeInfoView {
    ScopeInfoView {
        name: scope.name,
        parents: scope.parents,
        description: scope.description,
    }
}

/// The listed scopes as contracts see them.
pub open spec fn info_views(infos: Seq<ScopeInfo>) -> Seq<ScopeInfoView> {
    infos.map_values(|i: ScopeInfo| i@)
}

/// The names of listed scopes.
pub open spec fn info_names(infos: Seq<ScopeInfo>) -> Seq<Text> {
    infos.map_values(|i: ScopeInfo| i.name@)
}

/// Whether one scope is listed before another: by depth, and alphabetical
/// within a depth.
pub open spec fn reads_before(graph: Seq<ScopeView>, one: Text, other: Text) -> bool {
    exists|a: nat, b: nat|
        #[trigger] is_depth(graph, one, a) && #[trigger] is_depth(graph, other, b) && (a < b || (a
            == b && text_before(one, other)))
}

/// Whether scopes are listed in the order the graph reads in: the roots first.
pub open spec fn reading_order(graph: Seq<ScopeView>, names: Seq<Text>) -> bool {
    forall|i: int, j: int|
        #![trigger names[i], names[j]]
        0 <= i < j < names.len() ==> reads_before(graph, names[i], names[j])
}

/// Whether indices are listed by their keys, and in order within a key.
spec fn by_key(keys: Seq<usize>, order: Seq<usize>) -> bool {
    &&& forall|a: int| 0 <= a < order.len() ==> #[trigger] order[a] < keys.len()
    &&& forall|a: int, b: int|
        0 <= a < b < order.len() ==> keys[#[trigger] order[a] as int] < keys[
            #[trigger] order[b] as int] || (keys[order[a] as int] == keys[order[b] as int]
            && order[a] < order[b])
}

/// The indices of some keys, by key and in order within a key.
fn sorted_by_key(keys: &Vec<usize>, most: usize) -> (order: Vec<usize>)
    requires
        forall|i: int| 0 <= i < keys@.len() ==> #[trigger] keys@[i] <= most,
    ensures
        by_key(keys@, order@),
        forall|i: int| 0 <= i < keys@.len() ==> #[trigger] order@.contains(i as usize),
{
    let mut order: Vec<usize> = Vec::new();
    let mut key: usize = 0;
    loop
        invariant_except_break
            forall|a: int| 0 <= a < order@.len() ==> keys@[#[trigger] order@[a] as int] < key,
            forall|i: int|
                0 <= i < keys@.len() && #[trigger] keys@[i] < key ==> order@.contains(i as usize),
        invariant
            key <= most,
            by_key(keys@, order@),
            forall|i: int| 0 <= i < keys@.len() ==> #[trigger] keys@[i] <= most,
        ensures
            forall|i: int|
                0 <= i < keys@.len() && #[trigger] keys@[i] <= most ==> order@.contains(i as usize),
        decreases most - key,
    {
        let mut i: usize = 0;
        while i < keys.len()
            invariant
                i <= keys.len(),
                by_key(keys@, order@),
                forall|a: int|
                    0 <= a < order@.len() ==> keys@[#[trigger] order@[a] as int] < key || (keys@[
                        order@[a] as int] == key && order@[a] < i),
                forall|k: int|
                    0 <= k < keys@.len() && (#[trigger] keys@[k] < key || (keys@[k] == key && k
                        < i)) ==> order@.contains(k as usize),
            decreases keys.len() - i,
        {
            let ghost before = order@;
            if keys[i] == key {
                order.push(i);
                proof {
                    assert(order@[before.len() as int] == i);
                    assert forall|k: int|
                        0 <= k < keys@.len() && (#[trigger] keys@[k] < key || (keys@[k] == key && k
                            < i + 1)) implies order@.contains(k as usize) by {
                        if k != i {
                            assert(before.contains(k as usize));
                            let m = choose|m: int|
                                0 <= m < before.len() && before[m] == k as usize;
                            assert(order@[m] == k as usize);
                        }
                    }
                }
            }
            i += 1;
        }
        if key == most {
            break;
        }
        key += 1;
    }
    proof {
        assert forall|i: int| 0 <= i < keys@.len() implies #[trigger] order@.contains(i as usize) by {
            assert(keys@[i] <= most);
        }
    }
    order
}

/// The scope graph, root scopes first and alphabetical within a depth, which is
/// the order the graph reads in.
pub fn scope_list(graph: &ScopeGraph) -> (list: Vec<ScopeInfo>)
    ensures
        is_scope_list(graph@, list@),
{
    let scopes = graph.scopes();
    let mut depths: Vec<usize> = Vec::new();
    let mut deepest: usize = 0;
    let mut i: usize = 0;
    while i < scopes.len()
        invariant
            i <= scopes.len(),
            scope_views(scopes@) == graph@,
            acyclic(graph@),
            depths.len() == i,
            forall|k: int|
                0 <= k < i ==> is_depth(
                    graph@,
                    (#[trigger] graph@[k]).name,
                    depths@[k] as nat,
                ),
            forall|k: int| 0 <= k < i ==> #[trigger] depths@[k] <= deepest,
        decreases scopes.len() - i,
    {
        proof {
            assert(graph@[i as int] == scopes@[i as int]@);
        }
        let depth: usize = graph.depth(scopes[i].name.as_str());
        if depth > deepest {
            deepest = depth;
        }
        depths.push(depth);
        i += 1;
    }
    proof {
        assert(scope_views(scopes@).len() == scopes.len());
    }
    let order = sorted_by_key(&depths, deepest);
    let mut list: Vec<ScopeInfo> = Vec::new();
    let mut k: usize = 0;
    while k < order.len()
        invariant
            k <= order.len(),
            scope_views(scopes@) == graph@,
            scopes@.len() == depths@.len(),
            by_key(depths@, order@),
            list.len() == k,
            forall|m: int|
                0 <= m < k ==> (#[trigger] list@[m])@ == info_of(graph@[order@[m] as int]),
        decreases order.len() - k,
    {
        let at: usize = order[k];
        let scope = &scopes[at];
        proof {
            assert(graph@[at as int] == scope@);
        }
        list.push(
            ScopeInfo {
                name: scope.name.clone(),
                parents: clone_texts(&scope.parents),
                description: clone_opt_text(&scope.description),
            },
        );
        k += 1;
    }
    proof {
        let names = info_names(list@);
        assert forall|a: int, b: int|
            #![trigger names[a], names[b]]
            0 <= a < b < names.len() implies reads_before(graph@, names[a], names[b]) by {
            let x = order@[a] as int;
            let y = order@[b] as int;
            assert(list@[a]@ == info_of(graph@[x]) && list@[b]@ == info_of(graph@[y]));
            assert(is_depth(graph@, graph@[x].name, depths@[x] as nat));
            assert(is_depth(graph@, graph@[y].name, depths@[y] as nat));
            if depths@[x] == depths@[y] {
                assert(text_before(names_of(graph@)[x], names_of(graph@)[y]));
            }
        }
        assert forall|i: ScopeInfoView| #[trigger] info_views(list@).contains(i) <==> exists|
            k: int,
        |
            0 <= k < graph@.len() && info_of(#[trigger] graph@[k]) == i by {
            if info_views(list@).contains(i) {
                let m = choose|m: int| 0 <= m < list@.len() && info_views(list@)[m] == i;
                assert(list@[m]@ == i);
                assert(info_of(graph@[order@[m] as int]) == i);
            }
            if exists|k: int| 0 <= k < graph@.len() && info_of(#[trigger] graph@[k]) == i {
                let k = choose|k: int|
                    0 <= k < graph@.len() && info_of(#[trigger] graph@[k]) == i;
                assert(order@.contains(k as usize));
                let m = choose|m: int| 0 <= m < order@.len() && order@[m] == k as usize;
                assert(info_views(list@)[m] == i);
            }
        }
    }
    list
}

/// The files each scope holds.
pub type Holdings = Vec<(String, Vec<FilePath>)>;

/// The files a scope holds; none where nothing is listed for it.
pub open spec fn files_of(holdings: Seq<(String, Vec<FilePath>)>, scope: Text) -> Seq<FilePath>
    decreases holdings.len(),
{
    if holdings.len() == 0 {
        Seq::empty()
    } else if holdings[0].0@ == scope {
        holdings[0].1@
    } else {
        files_of(holdings.skip(1), scope)
    }
}

fn scope_files(holdings: &Holdings, scope: &str) -> (files: Vec<FilePath>)
    ensures
        files@ == files_of(holdings@, scope@),
{
    let mut i: usize = 0;
    proof {
        assert(holdings@.skip(0) =~= holdings@);
    }
    while i < holdings.len()
        invariant
            i <= holdings.len(),
            files_of(holdings@, scope@) == files_of(holdings@.skip(i as int), scope@),
        decreases holdings.len() - i,
    {
        proof {
            assert(holdings@.skip(i as int)[0] == holdings@[i as int]);
            assert(holdings@.skip(i as int).skip(1) =~= holdings@.skip(i + 1));
        }
        if same_text(holdings[i].0.as_str(), scope) {
            return copy_paths(&holdings[i].1);
        }
        i += 1;
    }
    let none: Vec<FilePath> = Vec::new();
    proof {
        assert(none@ =~= Seq::<FilePath>::empty());
    }
    none
}

/// The names of the listed scopes that hold a file.
pub open spec fn holders(
    list: Seq<ScopeInfo>,
    holdings: Seq<(String, Vec<FilePath>)>,
    file: Components,
) -> Seq<Text> {
    info_names(list).filter(|s: Text| all_paths(files_of(holdings, s)).contains(file))
}

/// Every scope that holds a file, in the order the scopes are listed in.
fn scopes_holding(list: &Vec<ScopeInfo>, holdings: &Holdings, file: &FilePath) -> (names: Vec<
    String,
>)
    ensures
        texts(names@) == holders(list@, holdings@, file@),
{
    let ghost all = info_names(list@);
    let ghost keep = |s: Text| all_paths(files_of(holdings@, s)).contains(file@);
    let mut names: Vec<String> = Vec::new();
    let mut i: usize = 0;
    proof {
        lemma_take_all(all);
        reveal(Seq::filter);
        assert(texts(names@) =~= Seq::<Text>::empty());
    }
    while i < list.len()
        invariant
            i <= list.len(),
            all == info_names(list@),
            keep == |s: Text| all_paths(files_of(holdings@, s)).contains(file@),
            texts(names@) == all.take(i as int).filter(keep),
        decreases list.len() - i,
    {
        proof {
            lemma_filter_step(all, keep, i as int);
            assert(all[i as int] == list@[i as int].name@);
        }
        let files = scope_files(holdings, list[i].name.as_str());
        if contains_path(&files, file) {
            let ghost before = names@;
            names.push(list[i].name.clone());
            proof {
                lemma_texts_push(before, names@.last());
            }
        }
        i += 1;
    }
    proof {
        lemma_take_all(all);
    }
    names
}

/// Whether any of the first `count` listed scopes holds a file.
pub open spec fn held_by_any(
    list: Seq<ScopeInfo>,
    holdings: Seq<(String, Vec<FilePath>)>,
    count: nat,
    file: Components,
) -> bool {
    exists|k: int|
        0 <= k < count && all_paths(files_of(holdings, (#[trigger] list[k]).name@)).contains(file)
}

/// How the first `count` listed scopes spell a file: as the first of them does
/// that holds it.
pub open spec fn held_spelling(
    list: Seq<ScopeInfo>,
    holdings: Seq<(String, Vec<FilePath>)>,
    count: nat,
    file: Components,
) -> Option<FilePath>
    decreases count,
{
    if count == 0 {
        None
    } else {
        first_of(
            held_spelling(list, holdings, (count - 1) as nat, file),
            spelled(files_of(holdings, list[count - 1].name@), file),
        )
    }
}

fn all_files(list: &Vec<ScopeInfo>, holdings: &Holdings) -> (files: Vec<FilePath>)
    ensures
        sorted_paths(all_paths(files@)),
        forall|p: Components| #[trigger]
            all_paths(files@).contains(p) <==> held_by_any(list@, holdings@, list@.len(), p),
        forall|p: Components| #[trigger]
            spelled(files@, p) == held_spelling(list@, holdings@, list@.len(), p),
{
    let mut files: Vec<FilePath> = Vec::new();
    let mut i: usize = 0;
    proof {
        assert forall|p: Components| #[trigger] spelled(files@, p) is None by {
            lemma_spelled(files@, p);
        }
    }
    while i < list.len()
        invariant
            i <= list.len(),
            sorted_paths(all_paths(files@)),
            forall|p: Components| #[trigger]
                all_paths(files@).contains(p) <==> held_by_any(list@, holdings@, i as nat, p),
            forall|p: Components| #[trigger]
                spelled(files@, p) == held_spelling(list@, holdings@, i as nat, p),
        decreases list.len() - i,
    {
        let more = scope_files(holdings, list[i].name.as_str());
        let ghost before = files@;
        add_paths(&mut files, &more);
        proof {
            assert forall|p: Components| #[trigger] all_paths(files@).contains(p) <==> held_by_any(
                list@,
                holdings@,
                (i + 1) as nat,
                p,
            ) by {
                if held_by_any(list@, holdings@, (i + 1) as nat, p) {
                    let k = choose|k: int|
                        0 <= k < i + 1 && all_paths(
                            files_of(holdings@, (#[trigger] list@[k]).name@),
                        ).contains(p);
                    if k < i {
                        assert(held_by_any(list@, holdings@, i as nat, p));
                        assert(all_paths(before).contains(p));
                    }
                }
                if all_paths(before).contains(p) {
                    assert(held_by_any(list@, holdings@, i as nat, p));
                }
                if all_paths(more@).contains(p) {
                    assert(all_paths(files_of(holdings@, list@[i as int].name@)).contains(p));
                }
            }
        }
        i += 1;
    }
    files
}

/// What `view` answers: what is checked in, asked for one scope or for all, and
/// for one file or for all.
pub open spec fn views(
    graph: Seq<ScopeView>,
    scope: Option<&str>,
    file: Option<&FilePath>,
    holdings: Seq<(String, Vec<FilePath>)>,
    contents: Option<Vec<u8>>,
    answer: Result<ViewAnswer, DotsyncError>,
) -> bool {
    match (scope, file) {
        (Some(scope), _) if !names_of(graph).contains(scope@) => answer matches Err(error)
            && is_invalid_scope(error, scope@),
        (Some(scope), Some(file)) => match (contents, answer) {
            (
                Some(bytes),
                Ok(ViewAnswer::FileContents { scope: on, file: at, contents: held }),
            ) => on@ == scope@ && at == *file && held == bytes,
            (
                None,
                Err(DotsyncError::FileNotOnScope { scope: on, path }),
            ) => on@ == scope@ && path == *file,
            _ => false,
        },
        (Some(scope), None) => match answer {
            Ok(ViewAnswer::Scope { scope: on, files }) => on@ == scope@ && files@
                == files_of(holdings, scope@),
            _ => false,
        },
        (None, Some(file)) => match answer {
            Ok(ViewAnswer::FileScopes { file: of, scopes }) => of == *file && exists|
                list: Seq<ScopeInfo>,
            |
                is_scope_list(graph, list) && texts(scopes@) == #[trigger] holders(
                    list,
                    holdings,
                    file@,
                ),
            _ => false,
        },
        (None, None) => match answer {
            Ok(ViewAnswer::Overview { scopes, files }) => {
                &&& is_scope_list(graph, scopes@)
                &&& sorted_paths(all_paths(files@))
                &&& forall|p: Components| #[trigger]
                    all_paths(files@).contains(p) <==> held_by_any(
                        scopes@,
                        holdings,
                        scopes@.len(),
                        p,
                    )
                &&& forall|p: Components| #[trigger]
                    spelled(files@, p) == held_spelling(
                        scopes@,
                        holdings,
                        scopes@.len(),
                        p,
                    )
            },
            _ => false,
        },
    }
}

/// Answers `view`: what is checked in, asked for one scope or for all, and for
/// one file or for all. `contents` is what the named scope holds at the named
/// file, where both are named.
pub fn view(
    graph: &ScopeGraph,
    scope: Option<&str>,
    file: Option<&FilePath>,
    holdings: &Holdings,
    contents: Option<Vec<u8>>,
) -> (answer: Result<ViewAnswer, DotsyncError>)
    ensures
        views(graph@, scope, file, holdings@, contents, answer),
{
    match scope {
        Some(scope) => {
            if !graph.contains(scope) {
                return Err(DotsyncError::InvalidScope { scope: scope.to_owned() });
            }
        },
        None => {},
    }
    match (scope, file) {
        (Some(scope), Some(file)) => match contents {
            Some(contents) => Ok(
                ViewAnswer::FileContents {
                    scope: scope.to_owned(),
                    file: file.copy(),
                    contents,
                },
            ),
            None => Err(
                DotsyncError::FileNotOnScope { scope: scope.to_owned(), path: file.copy() },
            ),
        },
        (Some(scope), None) => Ok(
            ViewAnswer::Scope { scope: scope.to_owned(), files: scope_files(holdings, scope) },
        ),
        (None, Some(file)) => {
            let list = scope_list(graph);
            let scopes = scopes_holding(&list, holdings, file);
            proof {
                assert(is_scope_list(graph@, list@));
            }
            Ok(ViewAnswer::FileScopes { file: file.copy(), scopes })
        },
        (None, None) => {
            let scopes = scope_list(graph);
            let files = all_files(&scopes, holdings);
            Ok(ViewAnswer::Overview { scopes, files })
        },
    }
}

/// Whether a list is that of the scopes of a graph, in the order it reads in.
pub open spec fn is_scope_list(graph: Seq<ScopeView>, list: Seq<ScopeInfo>) -> bool {
    &&& reading_order(graph, info_names(list))
    &&& forall|i: ScopeInfoView| #[trigger]
        info_views(list).contains(i) <==> exists|k: int|
            0 <= k < graph.len() && info_of(#[trigger] graph[k]) == i
}

/// A graph is listed in one order only.
pub proof fn law_scope_list_is_unique(
    graph: Seq<ScopeView>,
    one: Seq<ScopeInfo>,
    other: Seq<ScopeInfo>,
)
    requires
        is_scope_list(graph, one),
        is_scope_list(graph, other),
    ensures
        info_names(one) == info_names(other),
{
    let a = info_names(one);
    let b = info_names(other);
    let before = |x: Text, y: Text| reads_before(graph, x, y);
    lemma_text_order();
    assert forall|n: Text| #[trigger] a.contains(n) implies b.contains(n) by {
        lemma_listed_name(graph, one, other, n);
    }
    assert forall|n: Text| #[trigger] b.contains(n) implies a.contains(n) by {
        lemma_listed_name(graph, other, one, n);
    }
    assert forall|x: Text| !#[trigger] before(x, x) by {
        if before(x, x) {
            let (p, q) = choose|p: nat, q: nat|
                #[trigger] is_depth(graph, x, p) && #[trigger] is_depth(graph, x, q) && (p < q || (p
                    == q && text_before(x, x)));
            law_depth_is_unique(graph, x, p, q);
        }
    }
    assert forall|x: Text, y: Text, z: Text| #[trigger] before(x, y) && #[trigger] before(
        y,
        z,
    ) implies before(x, z) by {
        let (p, q) = choose|p: nat, q: nat|
            #[trigger] is_depth(graph, x, p) && #[trigger] is_depth(graph, y, q) && (p < q || (p
                == q && text_before(x, y)));
        let (r, s) = choose|r: nat, s: nat|
            #[trigger] is_depth(graph, y, r) && #[trigger] is_depth(graph, z, s) && (r < s || (r
                == s && text_before(y, z)));
        law_depth_is_unique(graph, y, q, r);
        assert(is_depth(graph, x, p) && is_depth(graph, z, s));
    }
    assert forall|i: int, j: int| 0 <= i < j < a.len() implies #[trigger] before(a[i], a[j]) by {
        assert(reads_before(graph, a[i], a[j]));
    }
    assert forall|i: int, j: int| 0 <= i < j < b.len() implies #[trigger] before(b[i], b[j]) by {
        assert(reads_before(graph, b[i], b[j]));
    }
    crate::scope_graph::lemma_sorted_alike(a, b, before);
}

/// Whether a list shows a scope as the graph has it: its name, all of its parents
/// in their order, and what it is for.
pub open spec fn shows(list: Seq<ScopeInfo>, scope: ScopeView) -> bool {
    exists|m: int|
        0 <= m < list.len() && (#[trigger] list[m]).name@ == scope.name && list[m].parents@.len()
            == scope.parents.len() && (forall|p: int|
            0 <= p < scope.parents.len() ==> #[trigger] scope.parents[p] == list[m].parents@[p]@)
            && match (list[m].description, scope.description) {
            (Some(said), Some(text)) => said@ == text,
            (None, None) => true,
            _ => false,
        }
}

proof fn lemma_shows(graph: Seq<ScopeView>, list: Seq<ScopeInfo>, j: int)
    requires
        is_scope_list(graph, list),
        0 <= j < graph.len(),
    ensures
        shows(list, graph[j]),
        info_names(list).contains(graph[j].name),
{
    let info = info_of(graph[j]);
    assert(info_views(list).contains(info));
    let m = choose|m: int| 0 <= m < list.len() && info_views(list)[m] == info;
    assert(list[m]@ == info);
    assert(texts(list[m].parents@).len() == list[m].parents@.len());
    assert forall|p: int| 0 <= p < graph[j].parents.len() implies #[trigger] graph[j].parents[p]
        == list[m].parents@[p]@ by {
        assert(texts(list[m].parents@)[p] == list[m].parents@[p]@);
    }
    assert(list[m].name@ == graph[j].name);
    assert(info_names(list)[m] == graph[j].name);
}

/// The list shows the whole graph, every edge of it, and nothing else: each scope
/// once, under its name, with all of its parents and with what it is for.
pub proof fn law_the_list_shows_every_edge(graph: Seq<ScopeView>, list: Seq<ScopeInfo>)
    requires
        is_scope_list(graph, list),
    ensures
        forall|j: int| 0 <= j < graph.len() ==> shows(list, #[trigger] graph[j]),
        forall|m: int|
            0 <= m < list.len() ==> exists|j: int|
                0 <= j < graph.len() && (#[trigger] graph[j]).name == (#[trigger] list[m]).name@
                    && graph[j].parents == texts(list[m].parents@),
        forall|m: int, n: int|
            0 <= m < n < list.len() ==> (#[trigger] list[m]).name@ != (#[trigger] list[n]).name@,
        forall|upper: Text, lower: Text| #[trigger]
            is_parent(graph, upper, lower) <==> exists|m: int, p: int|
                0 <= m < list.len() && 0 <= p < list[m].parents@.len() && (#[trigger] list[m]).name@
                    == lower && (#[trigger] list[m].parents@[p])@ == upper,
{
    let names = info_names(list);
    assert forall|j: int| 0 <= j < graph.len() implies shows(list, #[trigger] graph[j]) by {
        lemma_shows(graph, list, j);
    }
    assert forall|m: int| 0 <= m < list.len() implies exists|j: int|
        0 <= j < graph.len() && (#[trigger] graph[j]).name == (#[trigger] list[m]).name@
            && graph[j].parents == texts(list[m].parents@) by {
        assert(info_views(list)[m] == list[m]@);
        assert(info_views(list).contains(list[m]@));
        let k = choose|k: int| 0 <= k < graph.len() && info_of(#[trigger] graph[k]) == list[m]@;
        assert(graph[k].name == list[m].name@);
    }
    lemma_text_order();
    assert forall|m: int, n: int| 0 <= m < n < list.len() implies (#[trigger] list[m]).name@ != (
    #[trigger] list[n]).name@ by {
        assert(names[m] == list[m].name@ && names[n] == list[n].name@);
        assert(reads_before(graph, names[m], names[n]));
        if names[m] == names[n] {
            let (p, q) = choose|p: nat, q: nat|
                #[trigger] is_depth(graph, names[m], p) && #[trigger] is_depth(graph, names[n], q)
                    && (p < q || (p == q && text_before(names[m], names[n])));
            law_depth_is_unique(graph, names[m], p, q);
        }
    }
    assert forall|upper: Text, lower: Text| #[trigger]
        is_parent(graph, upper, lower) <==> exists|m: int, p: int|
            0 <= m < list.len() && 0 <= p < list[m].parents@.len() && (#[trigger] list[m]).name@
                == lower && (#[trigger] list[m].parents@[p])@ == upper by {
        if is_parent(graph, upper, lower) {
            let j = choose|j: int|
                0 <= j < graph.len() && (#[trigger] graph[j]).name == lower
                    && graph[j].parents.contains(upper);
            lemma_shows(graph, list, j);
            let p = choose|p: int| 0 <= p < graph[j].parents.len() && graph[j].parents[p] == upper;
            let m = choose|m: int|
                0 <= m < list.len() && (#[trigger] list[m]).name@ == lower
                    && list[m].parents@.len() == graph[j].parents.len() && (forall|p: int|
                    0 <= p < graph[j].parents.len() ==> #[trigger] graph[j].parents[p]
                        == list[m].parents@[p]@);
            assert(graph[j].parents[p] == list[m].parents@[p]@);
        }
        if exists|m: int, p: int|
            0 <= m < list.len() && 0 <= p < list[m].parents@.len() && (#[trigger] list[m]).name@
                == lower && (#[trigger] list[m].parents@[p])@ == upper {
            let (m, p) = choose|m: int, p: int|
                0 <= m < list.len() && 0 <= p < list[m].parents@.len() && (
                #[trigger] list[m]).name@ == lower && (#[trigger] list[m].parents@[p])@ == upper;
            let j = choose|j: int|
                0 <= j < graph.len() && (#[trigger] graph[j]).name == list[m].name@
                    && graph[j].parents == texts(list[m].parents@);
            assert(texts(list[m].parents@)[p] == upper);
            assert(graph[j].parents.contains(upper));
        }
    }
}

/// Whether what is first listed for a scope holds a file.
pub open spec fn holds_file(
    holdings: Seq<(String, Vec<FilePath>)>,
    scope: Text,
    file: Components,
) -> bool {
    exists|k: int, f: int|
        0 <= k < holdings.len() && 0 <= f < holdings[k].1@.len() && (#[trigger] holdings[k]).0@
            == scope && (#[trigger] holdings[k].1@[f])@ == file && forall|m: int|
            0 <= m < k ==> (#[trigger] holdings[m]).0@ != scope
}

proof fn lemma_holds_file(
    holdings: Seq<(String, Vec<FilePath>)>,
    scope: Text,
    file: Components,
)
    ensures
        holds_file(holdings, scope, file) <==> all_paths(files_of(holdings, scope)).contains(file),
    decreases holdings.len(),
{
    let files = files_of(holdings, scope);
    if holdings.len() > 0 {
        if holdings[0].0@ == scope {
            if all_paths(files).contains(file) {
                let f = choose|f: int| 0 <= f < files.len() && all_paths(files)[f] == file;
                assert(holdings[0].1@[f]@ == file);
            }
            if holds_file(holdings, scope, file) {
                let (k, f) = choose|k: int, f: int|
                    0 <= k < holdings.len() && 0 <= f < holdings[k].1@.len() && (
                    #[trigger] holdings[k]).0@ == scope && (#[trigger] holdings[k].1@[f])@ == file
                        && forall|m: int| 0 <= m < k ==> (#[trigger] holdings[m]).0@ != scope;
                assert(k == 0) by {
                    if k > 0 {
                        assert(holdings[0].0@ != scope);
                    }
                }
                assert(all_paths(files)[f] == file);
            }
        } else {
            let rest = holdings.skip(1);
            lemma_holds_file(rest, scope, file);
            if holds_file(rest, scope, file) {
                let (k, f) = choose|k: int, f: int|
                    0 <= k < rest.len() && 0 <= f < rest[k].1@.len() && (#[trigger] rest[k]).0@
                        == scope && (#[trigger] rest[k].1@[f])@ == file && forall|m: int|
                        0 <= m < k ==> (#[trigger] rest[m]).0@ != scope;
                assert(holdings[k + 1] == rest[k]);
                assert(holdings[k + 1].1@[f]@ == file);
                assert forall|m: int| 0 <= m < k + 1 implies (#[trigger] holdings[m]).0@ != scope by {
                    if m > 0 {
                        assert(rest[m - 1] == holdings[m]);
                    }
                }
            }
            if holds_file(holdings, scope, file) {
                let (k, f) = choose|k: int, f: int|
                    0 <= k < holdings.len() && 0 <= f < holdings[k].1@.len() && (
                    #[trigger] holdings[k]).0@ == scope && (#[trigger] holdings[k].1@[f])@ == file
                        && forall|m: int| 0 <= m < k ==> (#[trigger] holdings[m]).0@ != scope;
                assert(k > 0);
                assert(rest[k - 1] == holdings[k]);
                assert(rest[k - 1].1@[f]@ == file);
                assert forall|m: int| 0 <= m < k - 1 implies (#[trigger] rest[m]).0@ != scope by {
                    assert(rest[m] == holdings[m + 1]);
                }
            }
        }
    }
}

/// Asked who holds a file, `view` names every scope of the graph that holds it
/// and no other. Asked for everything, it lists every file that any scope holds
/// and no other, and shows the whole graph. Asked for a scope, it lists every
/// file that the scope holds.
pub proof fn law_view_shows_all_there_is(
    graph: Seq<ScopeView>,
    scope: Option<&str>,
    file: Option<&FilePath>,
    holdings: Seq<(String, Vec<FilePath>)>,
    contents: Option<Vec<u8>>,
    found: ViewAnswer,
    path: Components,
    name: Text,
)
    requires
        views(
            graph,
            scope,
            file,
            holdings,
            contents,
            Ok::<ViewAnswer, DotsyncError>(found),
        ),
    ensures
        match found {
            ViewAnswer::Overview { scopes, files } => {
                &&& scope is None && file is None
                &&& is_scope_list(graph, scopes@)
                &&& all_paths(files@).contains(path) <==> exists|j: int|
                    0 <= j < graph.len() && holds_file(
                        holdings,
                        (#[trigger] graph[j]).name,
                        path,
                    )
            },
            ViewAnswer::Scope { scope: on, files } => {
                &&& scope matches Some(asked) && asked@ == on@
                &&& names_of(graph).contains(on@)
                &&& all_paths(files@).contains(path) <==> holds_file(holdings, on@, path)
            },
            ViewAnswer::FileScopes { file: of, scopes } => {
                &&& scope is None
                &&& file matches Some(asked) && *asked == of
                &&& texts(scopes@).contains(name) <==> names_of(graph).contains(name) && holds_file(
                    holdings,
                    name,
                    of@,
                )
            },
            ViewAnswer::FileContents { scope: on, file: of, contents: bytes } => {
                &&& scope matches Some(asked) && asked@ == on@
                &&& file matches Some(asked) && *asked == of
                &&& contents == Some(bytes)
            },
        },
{
    match found {
        ViewAnswer::Overview { scopes, files } => {
            let list = scopes@;
            if all_paths(files@).contains(path) {
                assert(held_by_any(list, holdings, list.len(), path));
                let k = choose|k: int|
                    0 <= k < list.len() && all_paths(
                        files_of(holdings, (#[trigger] list[k]).name@),
                    ).contains(path);
                lemma_holds_file(holdings, list[k].name@, path);
                assert(info_views(list)[k] == list[k]@);
                assert(info_views(list).contains(list[k]@));
                let j = choose|j: int|
                    0 <= j < graph.len() && info_of(#[trigger] graph[j]) == list[k]@;
                assert(graph[j].name == list[k].name@);
            }
            if exists|j: int|
                0 <= j < graph.len() && holds_file(holdings, (#[trigger] graph[j]).name, path) {
                let j = choose|j: int|
                    0 <= j < graph.len() && holds_file(
                        holdings,
                        (#[trigger] graph[j]).name,
                        path,
                    );
                lemma_holds_file(holdings, graph[j].name, path);
                lemma_shows(graph, list, j);
                let k = choose|k: int|
                    0 <= k < list.len() && info_names(list)[k] == graph[j].name;
                assert(list[k].name@ == graph[j].name);
                assert(held_by_any(list, holdings, list.len(), path));
            }
        },
        ViewAnswer::Scope { scope: on, files } => {
            lemma_holds_file(holdings, on@, path);
        },
        ViewAnswer::FileScopes { file: of, scopes } => {
            let list = choose|list: Seq<ScopeInfo>|
                is_scope_list(graph, list) && texts(scopes@) == #[trigger] holders(
                    list,
                    holdings,
                    of@,
                );
            lemma_filter_holds(
                info_names(list),
                |s: Text| all_paths(files_of(holdings, s)).contains(of@),
            );
            lemma_holds_file(holdings, name, of@);
            if names_of(graph).contains(name) {
                let j = choose|j: int| 0 <= j < graph.len() && names_of(graph)[j] == name;
                lemma_shows(graph, list, j);
            }
            if info_names(list).contains(name) {
                let k = choose|k: int| 0 <= k < list.len() && info_names(list)[k] == name;
                assert(info_views(list)[k] == list[k]@);
                assert(info_views(list).contains(list[k]@));
                let j = choose|j: int|
                    0 <= j < graph.len() && info_of(#[trigger] graph[j]) == list[k]@;
                assert(names_of(graph)[j] == name);
            }
        },
        ViewAnswer::FileContents { .. } => {},
    }
}

/// `view` answers the question it was asked: it fails only for a scope that the
/// graph has not, or for a file that the scope has not.
pub proof fn law_view_answers_what_it_was_asked(
    graph: Seq<ScopeView>,
    scope: Option<&str>,
    file: Option<&FilePath>,
    holdings: Seq<(String, Vec<FilePath>)>,
    contents: Option<Vec<u8>>,
    answer: Result<ViewAnswer, DotsyncError>,
)
    requires
        views(graph, scope, file, holdings, contents, answer),
    ensures
        answer is Err <==> (scope matches Some(asked) && !names_of(graph).contains(asked@)) || (
        scope is Some && file is Some && contents is None),
        answer matches Ok(found) ==> match (scope, file) {
            (None, None) => found is Overview,
            (Some(_), None) => found is Scope,
            (None, Some(_)) => found is FileScopes,
            (Some(_), Some(_)) => found is FileContents,
        },
{
}

proof fn lemma_listed_name(
    graph: Seq<ScopeView>,
    one: Seq<ScopeInfo>,
    other: Seq<ScopeInfo>,
    name: Text,
)
    requires
        is_scope_list(graph, one),
        is_scope_list(graph, other),
        info_names(one).contains(name),
    ensures
        info_names(other).contains(name),
{
    let i = choose|i: int| 0 <= i < one.len() && info_names(one)[i] == name;
    assert(info_views(one)[i] == one[i]@);
    assert(info_views(one).contains(one[i]@));
    let k = choose|k: int| 0 <= k < graph.len() && info_of(#[trigger] graph[k]) == one[i]@;
    assert(info_of(graph[k]) == one[i]@);
    assert(info_views(other).contains(one[i]@));
    let m = choose|m: int| 0 <= m < other.len() && info_views(other)[m] == one[i]@;
    assert(info_names(other)[m] == name);
}

/// The drifts that `diff` shows: every change of this machine's own.
pub open spec fn drifted_entries(
    classified: Seq<(FilePath, ClassifiedPath)>,
) -> Seq<(FilePath, ClassifiedPath)> {
    classified.filter(|e: (FilePath, ClassifiedPath)| in_group(StateGroup::Drift, e.1.state))
}

/// What `diff` answers. `contents` is what both sides hold at the changes of this
/// machine's own, in their order.
pub fn diff_report(
    machine_scope: String,
    machine: MachineState,
    home_dir: &FilePath,
    classified: &Vec<(FilePath, ClassifiedPath)>,
    contents: Vec<BothSides>,
) -> (report: DiffReport)
    requires
        contents@.len() == drifted_entries(classified@).len(),
    ensures
        report.machine_scope == machine_scope,
        report.machine == machine,
        are_drifts_at(
            report.drifts@,
            *home_dir,
            drifted_entries(classified@),
            contents@,
        ),
{
    let changed = changed_paths(classified, StateGroup::Drift);
    DiffReport { machine_scope, machine, drifts: file_drifts(home_dir, &changed, contents) }
}

/// `diff` shows exactly the files that `status` lists as changes, in the same
/// order and in the same state.
pub proof fn law_diff_agrees_with_status(
    classified: Seq<(FilePath, ClassifiedPath)>,
    home_dir: FilePath,
    contents: Seq<BothSides>,
    drifts: Seq<FileDrift>,
)
    requires
        are_drifts_at(drifts, home_dir, drifted_entries(classified), contents),
    ensures
        drifts.map_values(|d: FileDrift| FileChange { path: d.repo_path, state: d.state })
            == group_changes(classified, StateGroup::Drift),
{
    let shown = drifts.map_values(
        |d: FileDrift| FileChange { path: d.repo_path, state: d.state },
    );
    let listed = group_changes(classified, StateGroup::Drift);
    assert forall|i: int| 0 <= i < listed.len() implies shown[i] == listed[i] by {
        assert(is_drift_at(drifts[i], home_dir, drifted_entries(classified)[i], contents[i]));
    }
    assert(shown =~= listed);
}

/// `diff` shows every change of this machine's own, a deletion among them, with what
/// both sides hold there, and nothing else: not what is only coming, and not what
/// both sides agree on.
pub proof fn law_diff_shows_every_own_change(
    classified: Seq<(FilePath, ClassifiedPath)>,
    home_dir: FilePath,
    contents: Seq<BothSides>,
    drifts: Seq<FileDrift>,
    path: FilePath,
    state: FileState,
)
    requires
        are_drifts_at(drifts, home_dir, drifted_entries(classified), contents),
    ensures
        (exists|i: int|
            0 <= i < drifts.len() && (#[trigger] drifts[i]).repo_path == path && drifts[i].state
                == state) <==> is_classified(classified, path, state) && match state {
            FileState::EditedInHome
            | FileState::KindDiffersFromScope
            | FileState::EditedInHomeButRemovedFromRepo
            | FileState::DeletedInHome
            | FileState::DeletedInHomeTipAlsoChanged
            | FileState::DivergedEdit
            | FileState::DivergedEditThatMerges
            | FileState::IncomingNewCollidesWithUntrackedHome => true,
            _ => false,
        },
        forall|i: int|
            0 <= i < drifts.len() ==> {
                &&& opt_bytes((#[trigger] drifts[i]).repo_bytes) == opt_bytes(contents[i].repo)
                &&& opt_bytes(drifts[i].home_bytes) == opt_bytes(contents[i].home)
            },
{
    law_diff_agrees_with_status(classified, home_dir, contents, drifts);
    lemma_group_changes(classified, StateGroup::Drift, path, state);
    let changes = drifts.map_values(
        |d: FileDrift| FileChange { path: d.repo_path, state: d.state },
    );
    let own = FileChange { path, state };
    if changes.contains(own) {
        let i = choose|i: int| 0 <= i < changes.len() && changes[i] == own;
        assert(drifts[i].repo_path == path && drifts[i].state == state);
    }
    if exists|i: int|
        0 <= i < drifts.len() && (#[trigger] drifts[i]).repo_path == path && drifts[i].state
            == state {
        let i = choose|i: int|
            0 <= i < drifts.len() && (#[trigger] drifts[i]).repo_path == path && drifts[i].state
                == state;
        assert(changes[i] == own);
    }
}

} // verus!
