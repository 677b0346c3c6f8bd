//! The graph of scopes, as a repo's own history records it.
//!
//! A scope is a bookmark whose own history holds the commit that created it.
//! The scopes a scope descends from are those whose creation commits its
//! history holds, and its parents are the nearest of those.
use vstd::prelude::*;
use crate::error::{is_internal, jj_error, DotsyncError};
use crate::order::{ascending, lemma_ascending_no_duplicates, lemma_text_order, text_before};
use crate::seqs::{lemma_filter_holds, lemma_filter_keeps_order, lemma_filter_step, lemma_take_all};
use crate::text::{
    clone_opt_text, clone_texts, contains_text, lemma_texts_push, opt_text, same_text, texts, Text,
};

verus! {

/// The scope every fleet starts from, and the only scope name dotsync chooses
/// for itself.
pub const ROOT_SCOPE: &'static str = "all";

/// A bookmark of the repo, and the commits it points at: one, or the sides of
/// a contested head.
pub struct Bookmark {
    pub name: String,
    pub heads: Vec<String>,
}

/// A bookmark as contracts see it.
pub struct BookmarkView {
    pub name: Text,
    pub heads: Seq<Text>,
}

impl View for Bookmark {
    type V = BookmarkView;

    open spec fn view(&self) -> BookmarkView {
        BookmarkView { name: self.name@, heads: texts(self.heads@) }
    }
}

/// Where a scope was created, and what its creator said it was for.
pub struct Creation {
    pub scope: String,
    pub commits: Vec<String>,
    pub description: Option<String>,
}

/// A creation as contracts see it.
pub struct CreationView {
    pub scope: Text,
    pub commits: Seq<Text>,
    pub description: Option<Text>,
}

impl View for Creation {
    type V = CreationView;

    open spec fn view(&self) -> CreationView {
        CreationView {
            scope: self.scope@,
            commits: texts(self.commits@),
            description: opt_text(self.description),
        }
    }
}

/// What the repo says that the graph is read off.
///
/// `ancestry` holds the pairs of a commit and one of its descendants, a commit
/// being its own descendant: at least every pair of a creation commit and a
/// head for which that holds.
pub struct History {
    pub bookmarks: Vec<Bookmark>,
    pub creations: Vec<Creation>,
    pub ancestry: Vec<(String, String)>,
}

/// What the repo says, as contracts see it.
pub struct HistoryView {
    pub bookmarks: Seq<BookmarkView>,
    pub creations: Seq<CreationView>,
    pub ancestry: Seq<(Text, Text)>,
}

impl View for History {
    type V = HistoryView;

    open spec fn view(&self) -> HistoryView {
        HistoryView {
            bookmarks: self.bookmarks@.map_values(|b: Bookmark| b@),
            creations: self.creations@.map_values(|c: Creation| c@),
            ancestry: self.ancestry@.map_values(|pair: (String, String)| (pair.0@, pair.1@)),
        }
    }
}

/// One scope, and where it sits.
pub struct Scope {
    pub name: String,
    pub parents: Vec<String>,
    pub children: Vec<String>,
    /// What belongs on this scope, in the words of whoever created it.
    pub description: Option<String>,
}

/// A scope as contracts see it.
pub struct ScopeView {
    pub name: Text,
    pub parents: Seq<Text>,
    pub children: Seq<Text>,
    pub description: Option<Text>,
}

impl View for Scope {
    type V = ScopeView;

    open spec fn view(&self) -> ScopeView {
        ScopeView {
            name: self.name@,
            parents: texts(self.parents@),
            children: texts(self.children@),
            description: opt_text(self.description),
        }
    }
}

impl Scope {
    /// Whether no other scope hangs off this one. Only a leaf can be a
    /// machine's own scope.
    pub fn is_leaf(&self) -> (leaf: bool)
        ensures
            leaf == (self@.children.len() == 0),
    {
        self.children.is_empty()
    }
}

/// The names of the scopes of a graph.
pub open spec fn names_of(graph: Seq<ScopeView>) -> Seq<Text> {
    graph.map_values(|s: ScopeView| s.name)
}

/// What holds of every graph: it is alphabetical, the parents of a scope are
/// scopes of the graph, and its children are exactly the scopes it is a parent
/// of.
pub open spec fn graph_wf(graph: Seq<ScopeView>) -> bool {
    &&& ascending(names_of(graph))
    &&& forall|i: int|
        0 <= i < graph.len() ==> ascending(#[trigger] graph[i].parents) && ascending(
            graph[i].children,
        )
    &&& forall|i: int, p: Text|
        0 <= i < graph.len() && #[trigger] graph[i].parents.contains(p) ==> names_of(
            graph,
        ).contains(p)
    &&& forall|i: int, c: Text|
        0 <= i < graph.len() && #[trigger] graph[i].children.contains(c) ==> names_of(
            graph,
        ).contains(c)
    &&& forall|i: int, j: int|
        0 <= i < graph.len() && 0 <= j < graph.len() ==> (#[trigger] graph[i].children.contains(
            graph[j].name,
        ) <==> #[trigger] graph[j].parents.contains(graph[i].name))
}

/// The first creation that is recorded for a scope.
pub open spec fn creation_of(creations: Seq<CreationView>, scope: Text) -> Option<CreationView>
    decreases creations.len(),
{
    if creations.len() == 0 {
        None
    } else if creations[0].scope == scope {
        Some(creations[0])
    } else {
        creation_of(creations.skip(1), scope)
    }
}

/// Whether the history of any of `heads` holds the commit `to`.
pub open spec fn reaches(ancestry: Seq<(Text, Text)>, heads: Seq<Text>, to: Text) -> bool {
    exists|i: int| 0 <= i < heads.len() && ancestry.contains((to, #[trigger] heads[i]))
}

/// Whether the history of `heads` holds a commit that created `scope`.
pub open spec fn holds_creation(history: HistoryView, heads: Seq<Text>, scope: Text) -> bool {
    match creation_of(history.creations, scope) {
        None => false,
        Some(creation) => exists|k: int|
            0 <= k < creation.commits.len() && reaches(
                history.ancestry,
                heads,
                #[trigger] creation.commits[k],
            ),
    }
}

/// Whether a bookmark is a scope: its own history holds its creation.
pub open spec fn is_member(history: HistoryView, bookmark: BookmarkView) -> bool {
    holds_creation(history, bookmark.heads, bookmark.name)
}

/// The bookmarks that are scopes.
pub open spec fn members(history: HistoryView) -> Seq<BookmarkView> {
    history.bookmarks.filter(|b: BookmarkView| is_member(history, b))
}

/// Whether the scope of one bookmark descends from that of another.
pub open spec fn descends(history: HistoryView, from: BookmarkView, other: BookmarkView) -> bool {
    other.name != from.name && holds_creation(history, from.heads, other.name)
}

/// Whether nothing that `from` descends from stands between it and `other`,
/// which it descends from too.
pub open spec fn hangs_off(history: HistoryView, from: BookmarkView, other: BookmarkView) -> bool {
    &&& descends(history, from, other)
    &&& !exists|k: int|
        0 <= k < members(history).len() && descends(history, from, #[trigger] members(history)[k])
            && descends(history, members(history)[k], other)
}

/// The names of some bookmarks.
pub open spec fn bookmark_names(bookmarks: Seq<BookmarkView>) -> Seq<Text> {
    bookmarks.map_values(|b: BookmarkView| b.name)
}

/// The scope that a bookmark is.
pub open spec fn derived_scope(history: HistoryView, bookmark: BookmarkView) -> ScopeView {
    ScopeView {
        name: bookmark.name,
        parents: bookmark_names(
            members(history).filter(|other: BookmarkView| hangs_off(history, bookmark, other)),
        ),
        children: bookmark_names(
            members(history).filter(|other: BookmarkView| hangs_off(history, other, bookmark)),
        ),
        description: match creation_of(history.creations, bookmark.name) {
            Some(creation) => creation.description,
            None => None,
        },
    }
}

/// The graph that the repo's history records.
pub open spec fn derived(history: HistoryView) -> Seq<ScopeView> {
    members(history).map_values(|b: BookmarkView| derived_scope(history, b))
}

/// A derived graph is well formed.
pub proof fn lemma_derived_wf(history: HistoryView)
    requires
        ascending(bookmark_names(history.bookmarks)),
    ensures
        graph_wf(derived(history)),
        names_of(derived(history)) == bookmark_names(members(history)),
{
    let all = history.bookmarks;
    let is_scope = |b: BookmarkView| is_member(history, b);
    let before = |a: BookmarkView, b: BookmarkView| text_before(a.name, b.name);
    assert forall|i: int, j: int| 0 <= i < j < all.len() implies #[trigger] before(
        all[i],
        all[j],
    ) by {
        assert(text_before(bookmark_names(all)[i], bookmark_names(all)[j]));
    }
    lemma_filter_keeps_order(all, is_scope, before);
    let inside = members(history);
    let graph = derived(history);
    assert(names_of(graph) =~= bookmark_names(inside));
    assert forall|i: int, j: int| 0 <= i < j < inside.len() implies text_before(
        names_of(graph)[i],
        names_of(graph)[j],
    ) by {
        assert(before(inside[i], inside[j]));
    }
    assert forall|i: int| 0 <= i < graph.len() implies ascending(#[trigger] graph[i].parents)
        && ascending(graph[i].children) by {
        lemma_filtered_names(
            inside,
            |other: BookmarkView| hangs_off(history, inside[i], other),
        );
        lemma_filtered_names(
            inside,
            |other: BookmarkView| hangs_off(history, other, inside[i]),
        );
    }
    assert forall|i: int, p: Text| 0 <= i < graph.len() && #[trigger] graph[i].parents.contains(
        p,
    ) implies names_of(graph).contains(p) by {
        lemma_filtered_names(
            inside,
            |other: BookmarkView| hangs_off(history, inside[i], other),
        );
    }
    assert forall|i: int, c: Text| 0 <= i < graph.len() && #[trigger] graph[i].children.contains(
        c,
    ) implies names_of(graph).contains(c) by {
        lemma_filtered_names(
            inside,
            |other: BookmarkView| hangs_off(history, other, inside[i]),
        );
    }
    assert forall|i: int, j: int| 0 <= i < graph.len() && 0 <= j < graph.len() implies (
    #[trigger] graph[i].children.contains(graph[j].name) <==> #[trigger] graph[j].parents.contains(
        graph[i].name,
    )) by {
        let up = |other: BookmarkView| hangs_off(history, inside[j], other);
        let down = |other: BookmarkView| hangs_off(history, other, inside[i]);
        lemma_filtered_names(inside, up);
        lemma_filtered_names(inside, down);
        assert(graph[i].children.contains(inside[j].name) <==> down(inside[j]));
        assert(graph[j].parents.contains(inside[i].name) <==> up(inside[i]));
    }
}

/// Membership is structural: a scope is a bookmark whose own history holds the
/// commit that created it. No other bookmark is in the graph, so nothing reads,
/// cascades or publishes it.
pub proof fn law_membership_is_structural(history: HistoryView, name: Text)
    requires
        ascending(bookmark_names(history.bookmarks)),
    ensures
        names_of(derived(history)).contains(name) <==> exists|i: int|
            0 <= i < history.bookmarks.len() && (#[trigger] history.bookmarks[i]).name == name
                && is_member(history, history.bookmarks[i]),
{
    lemma_derived_wf(history);
    let all = history.bookmarks;
    let inside = members(history);
    lemma_filter_holds(all, |b: BookmarkView| is_member(history, b));
    if names_of(derived(history)).contains(name) {
        let k = choose|k: int| 0 <= k < inside.len() && bookmark_names(inside)[k] == name;
        assert(inside.contains(inside[k]));
        let i = choose|i: int| 0 <= i < all.len() && all[i] == inside[k];
        assert(all[i].name == name);
    }
    if exists|i: int|
        0 <= i < all.len() && (#[trigger] all[i]).name == name && is_member(history, all[i]) {
        let i = choose|i: int|
            0 <= i < all.len() && (#[trigger] all[i]).name == name && is_member(history, all[i]);
        assert(inside.contains(all[i]));
        let k = choose|k: int| 0 <= k < inside.len() && inside[k] == all[i];
        assert(bookmark_names(inside)[k] == name);
    }
}

/// The parents of a scope are the nearest scopes that it descends from: those
/// whose creation its history holds, without those that another of them
/// descends from already.
pub proof fn law_parents_are_the_nearest(history: HistoryView, from: int, other: int)
    requires
        ascending(bookmark_names(history.bookmarks)),
        0 <= from < members(history).len(),
        0 <= other < members(history).len(),
    ensures
        derived(history)[from].parents.contains(members(history)[other].name) <==> hangs_off(
            history,
            members(history)[from],
            members(history)[other],
        ),
{
    lemma_derived_wf(history);
    let inside = members(history);
    let up = |b: BookmarkView| hangs_off(history, inside[from], b);
    lemma_filtered_names(inside, up);
    assert(bookmark_names(inside.filter(up)).contains(inside[other].name) <==> up(inside[other]));
}

/// What the names of some of the scopes are, when the scopes are alphabetical.
proof fn lemma_filtered_names(inside: Seq<BookmarkView>, keep: spec_fn(BookmarkView) -> bool)
    requires
        ascending(bookmark_names(inside)),
    ensures
        ascending(bookmark_names(inside.filter(keep))),
        forall|n: Text| #[trigger]
            bookmark_names(inside.filter(keep)).contains(n) ==> bookmark_names(inside).contains(n),
        forall|k: int|
            0 <= k < inside.len() ==> (bookmark_names(inside.filter(keep)).contains(
                #[trigger] inside[k].name,
            ) <==> keep(inside[k])),
{
    let kept = inside.filter(keep);
    let before = |a: BookmarkView, b: BookmarkView| text_before(a.name, b.name);
    assert forall|i: int, j: int| 0 <= i < j < inside.len() implies #[trigger] before(
        inside[i],
        inside[j],
    ) by {
        assert(text_before(bookmark_names(inside)[i], bookmark_names(inside)[j]));
    }
    lemma_filter_keeps_order(inside, keep, before);
    lemma_filter_holds(inside, keep);
    lemma_ascending_no_duplicates(bookmark_names(inside));
    assert forall|i: int, j: int| 0 <= i < j < kept.len() implies text_before(
        bookmark_names(kept)[i],
        bookmark_names(kept)[j],
    ) by {
        assert(before(kept[i], kept[j]));
    }
    assert forall|n: Text| #[trigger] bookmark_names(kept).contains(n) implies bookmark_names(
        inside,
    ).contains(n) by {
        let k = choose|k: int| 0 <= k < kept.len() && bookmark_names(kept)[k] == n;
        assert(kept.contains(kept[k]));
        let m = choose|m: int| 0 <= m < inside.len() && inside[m] == kept[k];
        assert(bookmark_names(inside)[m] == n);
    }
    assert forall|k: int| 0 <= k < inside.len() implies (bookmark_names(kept).contains(
        #[trigger] inside[k].name,
    ) <==> keep(inside[k])) by {
        if keep(inside[k]) {
            assert(kept.contains(inside[k]));
            let m = choose|m: int| 0 <= m < kept.len() && kept[m] == inside[k];
            assert(bookmark_names(kept)[m] == inside[k].name);
        }
        if bookmark_names(kept).contains(inside[k].name) {
            let m = choose|m: int| 0 <= m < kept.len() && bookmark_names(kept)[m] == inside[k].name;
            assert(kept.contains(kept[m]));
            let n = choose|n: int| 0 <= n < inside.len() && inside[n] == kept[m];
            assert(bookmark_names(inside)[n] == bookmark_names(inside)[k]);
            assert(n == k);
        }
    }
}

fn find_creation<'a>(creations: &'a Vec<Creation>, scope: &str) -> (found: Option<&'a Creation>)
    ensures
        match found {
            Some(creation) => creation_of(creations@.map_values(|c: Creation| c@), scope@) == Some(
                creation@,
            ),
            None => creation_of(creations@.map_values(|c: Creation| c@), scope@) is None,
        },
{
    let ghost views = creations@.map_values(|c: Creation| c@);
    let mut i: usize = 0;
    proof {
        assert(views.skip(0) =~= views);
    }
    while i < creations.len()
        invariant
            i <= creations.len(),
            views == creations@.map_values(|c: Creation| c@),
            creation_of(views, scope@) == creation_of(views.skip(i as int), scope@),
        decreases creations.len() - i,
    {
        proof {
            assert(views.skip(i as int)[0] == creations@[i as int]@);
            assert(views.skip(i as int).skip(1) =~= views.skip(i + 1));
        }
        if same_text(creations[i].scope.as_str(), scope) {
            return Some(&creations[i]);
        }
        i += 1;
    }
    None
}

fn head_reaches(ancestry: &Vec<(String, String)>, head: &str, to: &str) -> (found: bool)
    ensures
        found == ancestry@.map_values(|pair: (String, String)| (pair.0@, pair.1@)).contains(
            (to@, head@),
        ),
{
    let ghost pairs = ancestry@.map_values(|pair: (String, String)| (pair.0@, pair.1@));
    let mut i: usize = 0;
    while i < ancestry.len()
        invariant
            i <= ancestry.len(),
            pairs == ancestry@.map_values(|pair: (String, String)| (pair.0@, pair.1@)),
            forall|j: int| 0 <= j < i ==> pairs[j] != (to@, head@),
        decreases ancestry.len() - i,
    {
        if same_text(ancestry[i].0.as_str(), to) && same_text(ancestry[i].1.as_str(), head) {
            proof {
                assert(pairs[i as int] == (to@, head@));
            }
            return true;
        }
        i += 1;
    }
    false
}

fn heads_reach(ancestry: &Vec<(String, String)>, heads: &Vec<String>, to: &str) -> (found: bool)
    ensures
        found == reaches(
            ancestry@.map_values(|pair: (String, String)| (pair.0@, pair.1@)),
            texts(heads@),
            to@,
        ),
{
    let ghost pairs = ancestry@.map_values(|pair: (String, String)| (pair.0@, pair.1@));
    let mut i: usize = 0;
    while i < heads.len()
        invariant
            i <= heads.len(),
            pairs == ancestry@.map_values(|pair: (String, String)| (pair.0@, pair.1@)),
            forall|j: int| 0 <= j < i ==> !pairs.contains((to@, #[trigger] texts(heads@)[j])),
        decreases heads.len() - i,
    {
        if head_reaches(ancestry, heads[i].as_str(), to) {
            proof {
                assert(texts(heads@)[i as int] == heads@[i as int]@);
            }
            return true;
        }
        i += 1;
    }
    false
}

fn heads_hold_creation(history: &History, heads: &Vec<String>, scope: &str) -> (held: bool)
    ensures
        held == holds_creation(history@, texts(heads@), scope@),
{
    match find_creation(&history.creations, scope) {
        None => false,
        Some(creation) => {
            let mut k: usize = 0;
            while k < creation.commits.len()
                invariant
                    k <= creation.commits.len(),
                    creation_of(history@.creations, scope@) == Some(creation@),
                    forall|j: int|
                        0 <= j < k ==> !reaches(
                            history@.ancestry,
                            texts(heads@),
                            #[trigger] creation@.commits[j],
                        ),
                decreases creation.commits.len() - k,
            {
                if heads_reach(&history.ancestry, heads, creation.commits[k].as_str()) {
                    proof {
                        assert(creation@.commits[k as int] == creation.commits@[k as int]@);
                    }
                    return true;
                }
                k += 1;
            }
            false
        },
    }
}

/// The views of some bookmarks.
pub open spec fn bookmark_views(bookmarks: Seq<Bookmark>) -> Seq<BookmarkView> {
    bookmarks.map_values(|b: Bookmark| b@)
}

/// The bookmarks that are scopes.
fn member_bookmarks(history: &History) -> (inside: Vec<Bookmark>)
    ensures
        bookmark_views(inside@) == members(history@),
{
    let ghost keep = |b: BookmarkView| is_member(history@, b);
    let mut inside: Vec<Bookmark> = Vec::new();
    let mut i: usize = 0;
    proof {
        lemma_take_all(history@.bookmarks);
        reveal(Seq::filter);
        assert(bookmark_views(inside@) =~= Seq::<BookmarkView>::empty());
    }
    while i < history.bookmarks.len()
        invariant
            i <= history.bookmarks.len(),
            keep == |b: BookmarkView| is_member(history@, b),
            bookmark_views(inside@) == history@.bookmarks.take(i as int).filter(keep),
        decreases history.bookmarks.len() - i,
    {
        let bookmark = &history.bookmarks[i];
        proof {
            lemma_filter_step(history@.bookmarks, keep, i as int);
            assert(history@.bookmarks[i as int] == bookmark@);
        }
        if heads_hold_creation(history, &bookmark.heads, bookmark.name.as_str()) {
            let ghost before = inside@;
            inside.push(
                Bookmark { name: bookmark.name.clone(), heads: clone_texts(&bookmark.heads) },
            );
            proof {
                assert(inside@.last()@ == bookmark@);
                assert(bookmark_views(inside@) =~= bookmark_views(before).push(bookmark@));
            }
        }
        i += 1;
    }
    proof {
        lemma_take_all(history@.bookmarks);
    }
    inside
}

/// Whether a table says which of the scopes each of them descends from.
spec fn tabled(history: HistoryView, inside: Seq<Bookmark>, table: Seq<Vec<bool>>) -> bool {
    &&& table.len() == inside.len()
    &&& forall|i: int| 0 <= i < table.len() ==> (#[trigger] table[i])@.len() == inside.len()
    &&& forall|i: int, j: int|
        0 <= i < inside.len() && 0 <= j < inside.len() ==> (#[trigger] table[i]@[j]) == descends(
            history,
            inside[i]@,
            inside[j]@,
        )
}

/// Which of the scopes each of them descends from.
fn descent(history: &History, inside: &Vec<Bookmark>) -> (table: Vec<Vec<bool>>)
    ensures
        tabled(history@, inside@, table@),
{
    let mut table: Vec<Vec<bool>> = Vec::new();
    let mut i: usize = 0;
    while i < inside.len()
        invariant
            i <= inside.len(),
            table.len() == i,
            forall|k: int| 0 <= k < i ==> (#[trigger] table@[k])@.len() == inside.len(),
            forall|k: int, j: int|
                0 <= k < i && 0 <= j < inside.len() ==> (#[trigger] table@[k]@[j]) == descends(
                    history@,
                    inside@[k]@,
                    inside@[j]@,
                ),
        decreases inside.len() - i,
    {
        let mut row: Vec<bool> = Vec::new();
        let mut j: usize = 0;
        while j < inside.len()
            invariant
                i < inside.len(),
                j <= inside.len(),
                row.len() == j,
                forall|m: int|
                    0 <= m < j ==> #[trigger] row@[m] == descends(
                        history@,
                        inside@[i as int]@,
                        inside@[m]@,
                    ),
            decreases inside.len() - j,
        {
            let descended = !same_text(inside[j].name.as_str(), inside[i].name.as_str())
                && heads_hold_creation(history, &inside[i].heads, inside[j].name.as_str());
            row.push(descended);
            j += 1;
        }
        table.push(row);
        i += 1;
    }
    table
}

/// Whether, by the table of descent, scope `from` hangs off scope `other`.
fn hangs(
    Ghost(history): Ghost<HistoryView>,
    inside: &Vec<Bookmark>,
    table: &Vec<Vec<bool>>,
    from: usize,
    other: usize,
) -> (is_parent: bool)
    requires
        bookmark_views(inside@) == members(history),
        tabled(history, inside@, table@),
        from < inside.len(),
        other < inside.len(),
    ensures
        is_parent == hangs_off(history, inside@[from as int]@, inside@[other as int]@),
{
    let ghost all = members(history);
    proof {
        assert(table@[from as int]@[other as int] == descends(
            history,
            inside@[from as int]@,
            inside@[other as int]@,
        ));
    }
    if !table[from][other] {
        return false;
    }
    let mut k: usize = 0;
    while k < inside.len()
        invariant
            k <= inside.len(),
            bookmark_views(inside@) == members(history),
            all == members(history),
            tabled(history, inside@, table@),
            from < inside.len(),
            other < inside.len(),
            forall|m: int|
                0 <= m < k ==> !(descends(history, inside@[from as int]@, #[trigger] all[m])
                    && descends(history, all[m], inside@[other as int]@)),
        decreases inside.len() - k,
    {
        proof {
            assert(bookmark_views(inside@)[k as int] == inside@[k as int]@);
            assert(table@[from as int]@[k as int] == descends(
                history,
                inside@[from as int]@,
                inside@[k as int]@,
            ));
            assert(table@[k as int]@[other as int] == descends(
                history,
                inside@[k as int]@,
                inside@[other as int]@,
            ));
        }
        if table[from][k] && table[k][other] {
            return false;
        }
        k += 1;
    }
    proof {
        assert(bookmark_views(inside@).len() == inside.len());
    }
    true
}

/// The views of some scopes.
pub open spec fn scope_views(scopes: Seq<Scope>) -> Seq<ScopeView> {
    scopes.map_values(|s: Scope| s@)
}

/// The DAG of scopes, alphabetical.
///
/// There is no constructor that takes a graph somebody wrote down: it is
/// derived from the repo, and the repo is what the cascade acts on, so the two
/// cannot disagree.
pub struct ScopeGraph {
    scopes: Vec<Scope>,
}

impl View for ScopeGraph {
    type V = Seq<ScopeView>;

    closed spec fn view(&self) -> Seq<ScopeView> {
        scope_views(self.scopes@)
    }
}

impl ScopeGraph {
    #[verifier::type_invariant]
    spec fn well_formed(self) -> bool {
        graph_wf(self@) && acyclic(self@)
    }
}

/// The scope graph as the repo itself records it.
///
/// Membership is structural, which is what keeps everything else on the remote
/// out: a branch that dotsync did not create is not in this graph, and nothing
/// dotsync does reads it, cascades it or publishes it. A history in which scopes
/// descend from each other records no graph.
pub fn derive(history: &History) -> (graph: Result<ScopeGraph, DotsyncError>)
    requires
        ascending(bookmark_names(history@.bookmarks)),
    ensures
        match graph {
            Ok(graph) => {
                &&& graph@ == derived(history@)
                &&& graph_wf(graph@)
                &&& acyclic(graph@)
            },
            Err(error) => !acyclic(derived(history@)) && is_internal(
                error,
                "the scope graph is not a DAG"@,
            ),
        },
{
    let inside = member_bookmarks(history);
    let table = descent(history, &inside);
    let ghost all = members(history@);
    let mut scopes: Vec<Scope> = Vec::new();
    let mut i: usize = 0;
    while i < inside.len()
        invariant
            i <= inside.len(),
            all == members(history@),
            bookmark_views(inside@) == all,
            tabled(history@, inside@, table@),
            scopes.len() == i,
            forall|k: int|
                0 <= k < i ==> #[trigger] scopes@[k]@ == derived_scope(history@, all[k]),
        decreases inside.len() - i,
    {
        let ghost this = all[i as int];
        let ghost up = |other: BookmarkView| hangs_off(history@, this, other);
        let ghost down = |other: BookmarkView| hangs_off(history@, other, this);
        let mut parents: Vec<String> = Vec::new();
        let mut children: Vec<String> = Vec::new();
        let mut j: usize = 0;
        proof {
            lemma_take_all(all);
            reveal(Seq::filter);
            assert(texts(parents@) =~= bookmark_names(all.take(0).filter(up)));
            assert(texts(children@) =~= bookmark_names(all.take(0).filter(down)));
            assert(bookmark_views(inside@)[i as int] == inside@[i as int]@);
        }
        while j < inside.len()
            invariant
                i < inside.len(),
                j <= inside.len(),
                all == members(history@),
                bookmark_views(inside@) == all,
                tabled(history@, inside@, table@),
                this == all[i as int],
                this == inside@[i as int]@,
                up == |other: BookmarkView| hangs_off(history@, this, other),
                down == |other: BookmarkView| hangs_off(history@, other, this),
                texts(parents@) == bookmark_names(all.take(j as int).filter(up)),
                texts(children@) == bookmark_names(all.take(j as int).filter(down)),
            decreases inside.len() - j,
        {
            proof {
                lemma_filter_step(all, up, j as int);
                lemma_filter_step(all, down, j as int);
                assert(all[j as int] == inside@[j as int]@);
            }
            if hangs(Ghost(history@), &inside, &table, i, j) {
                let ghost before = parents@;
                parents.push(inside[j].name.clone());
                proof {
                    lemma_texts_push(before, parents@.last());
                    assert(texts(parents@) =~= bookmark_names(all.take(j + 1).filter(up)));
                }
            }
            if hangs(Ghost(history@), &inside, &table, j, i) {
                let ghost before = children@;
                children.push(inside[j].name.clone());
                proof {
                    lemma_texts_push(before, children@.last());
                    assert(texts(children@) =~= bookmark_names(all.take(j + 1).filter(down)));
                }
            }
            j += 1;
        }
        let description = match find_creation(&history.creations, inside[i].name.as_str()) {
            Some(creation) => clone_opt_text(&creation.description),
            None => None,
        };
        proof {
            lemma_take_all(all);
        }
        scopes.push(Scope { name: inside[i].name.clone(), parents, children, description });
        i += 1;
    }
    proof {
        assert(bookmark_views(inside@).len() == inside.len());
        assert(scope_views(scopes@) =~= derived(history@));
        lemma_derived_wf(history@);
    }
    if !has_no_cycle(&scopes) {
        return Err(jj_error("the scope graph is not a DAG".to_owned()));
    }
    Ok(ScopeGraph { scopes })
}

/// The scope of a graph that has a name.
pub open spec fn lookup(graph: Seq<ScopeView>, name: Text) -> Option<ScopeView>
    decreases graph.len(),
{
    if graph.len() == 0 {
        None
    } else if graph[0].name == name {
        Some(graph[0])
    } else {
        lookup(graph.skip(1), name)
    }
}

/// In a well-formed graph a scope is found under its name, and nothing else is.
pub proof fn lemma_lookup(graph: Seq<ScopeView>, name: Text)
    requires
        ascending(names_of(graph)),
    ensures
        lookup(graph, name) is Some <==> names_of(graph).contains(name),
        forall|i: int|
            0 <= i < graph.len() && (#[trigger] graph[i]).name == name ==> lookup(graph, name)
                == Some(graph[i]),
        lookup(graph, name) matches Some(scope) ==> graph.contains(scope) && scope.name == name,
    decreases graph.len(),
{
    if graph.len() > 0 {
        let rest = graph.skip(1);
        assert(names_of(rest) =~= names_of(graph).skip(1));
        assert forall|i: int, j: int| 0 <= i < j < rest.len() implies text_before(
            names_of(rest)[i],
            names_of(rest)[j],
        ) by {
            assert(text_before(names_of(graph)[i + 1], names_of(graph)[j + 1]));
        }
        lemma_lookup(rest, name);
        lemma_ascending_no_duplicates(names_of(graph));
        assert forall|i: int| 0 <= i < graph.len() && (#[trigger] graph[i]).name == name implies
            lookup(graph, name) == Some(graph[i]) by {
            if i > 0 {
                assert(names_of(graph)[i] != names_of(graph)[0]);
                assert(rest[i - 1] == graph[i]);
            }
        }
        if graph[0].name == name {
            assert(names_of(graph)[0] == name);
            assert(graph.contains(graph[0]));
        } else {
            if names_of(graph).contains(name) {
                let i = choose|i: int| 0 <= i < graph.len() && names_of(graph)[i] == name;
                assert(names_of(rest)[i - 1] == name);
            }
            if names_of(rest).contains(name) {
                let i = choose|i: int| 0 <= i < rest.len() && names_of(rest)[i] == name;
                assert(names_of(graph)[i + 1] == name);
            }
            if lookup(rest, name) is Some {
                let i = choose|i: int| 0 <= i < rest.len() && rest[i] == lookup(rest, name)->0;
                assert(graph[i + 1] == rest[i]);
            }
        }
    }
}

/// Whether the scope at index `upper` is a parent of the one at index `lower`.
pub open spec fn edge(graph: Seq<ScopeView>, upper: int, lower: int) -> bool {
    graph[lower].parents.contains(graph[upper].name)
}

/// Whether every edge of a graph goes from a lower rank to a higher one.
pub open spec fn ranked(graph: Seq<ScopeView>, rank: spec_fn(int) -> nat) -> bool {
    forall|upper: int, lower: int|
        0 <= upper < graph.len() && 0 <= lower < graph.len() && #[trigger] edge(graph, upper, lower)
            ==> rank(upper) < rank(lower)
}

/// Whether no scope of a graph is above itself.
pub open spec fn acyclic(graph: Seq<ScopeView>) -> bool {
    exists|rank: spec_fn(int) -> nat| ranked(graph, rank)
}

/// The order that `waves` finds, in indices: by stage, and alphabetical within
/// a stage, where the stage of a scope is one more than the highest among its
/// parents, as far as those are flagged.
spec fn waved(
    graph: Seq<ScopeView>,
    among: Seq<bool>,
    order: Seq<usize>,
    stage: spec_fn(int) -> nat,
) -> bool {
    &&& forall|i: int, j: int|
        0 <= i < j < order.len() ==> stage(order[i] as int) < stage(order[j] as int) || (stage(
            order[i] as int,
        ) == stage(order[j] as int) && order[i] < order[j])
    &&& forall|i: int| 0 <= i < order.len() ==> (#[trigger] order[i]) < among.len() && among[order[i] as int]
    &&& forall|upper: int, lower: int|
        0 <= upper < among.len() && 0 <= lower < among.len() && among[upper] && order.contains(
            lower as usize,
        ) && #[trigger] edge(graph, upper, lower) ==> order.contains(upper as usize) && stage(upper)
            < stage(lower)
    &&& forall|lower: int|
        0 <= lower < among.len() && order.contains(lower as usize) && #[trigger] stage(lower) > 0
            ==> exists|upper: int|
            0 <= upper < among.len() && order.contains(upper as usize) && #[trigger] edge(
                graph,
                upper,
                lower,
            ) && stage(upper) + 1 == stage(lower)
}

/// Whether the order is by stage, for some stages.
#[verifier::opaque]
spec fn wave_order(graph: Seq<ScopeView>, among: Seq<bool>, order: Seq<usize>) -> bool {
    exists|stage: spec_fn(int) -> nat| waved(graph, among, order, stage)
}

/// In a ranked graph, a set of scopes each of which has a parent in the set is
/// empty.
proof fn lemma_no_descent(
    graph: Seq<ScopeView>,
    flags: Seq<bool>,
    rank: spec_fn(int) -> nat,
    lower: int,
)
    requires
        ranked(graph, rank),
        flags.len() == graph.len(),
        0 <= lower < flags.len(),
        forall|c: int|
            0 <= c < flags.len() && #[trigger] flags[c] ==> exists|p: int|
                0 <= p < flags.len() && flags[p] && #[trigger] edge(graph, p, c),
    ensures
        !flags[lower],
    decreases rank(lower),
{
    if flags[lower] {
        let upper = choose|p: int|
            0 <= p < flags.len() && flags[p] && #[trigger] edge(graph, p, lower);
        lemma_no_descent(graph, flags, rank, upper);
    }
}

/// Different numbers below a bound are no more than the bound.
proof fn lemma_distinct_below(numbers: Seq<usize>, bound: nat)
    requires
        bound <= usize::MAX,
        numbers.no_duplicates(),
        forall|i: int| 0 <= i < numbers.len() ==> (#[trigger] numbers[i]) < bound,
    ensures
        numbers.len() <= bound,
    decreases bound,
{
    if numbers.len() > 0 {
        assert(numbers[0] < bound);
        let top = (bound - 1) as usize;
        if numbers.contains(top) {
            let at = choose|at: int| 0 <= at < numbers.len() && numbers[at] == top;
            let rest = numbers.remove(at);
            assert forall|i: int| 0 <= i < rest.len() implies (#[trigger] rest[i]) < bound - 1 by {
                let from = if i < at {
                    i
                } else {
                    i + 1
                };
                assert(rest[i] == numbers[from]);
                assert(numbers[from] != numbers[at]);
            }
            assert(rest.no_duplicates()) by {
                assert forall|i: int, j: int|
                    0 <= i < rest.len() && 0 <= j < rest.len() && i != j implies rest[i]
                    != rest[j] by {
                    let a = if i < at {
                        i
                    } else {
                        i + 1
                    };
                    let b = if j < at {
                        j
                    } else {
                        j + 1
                    };
                    assert(rest[i] == numbers[a] && rest[j] == numbers[b]);
                }
            }
            lemma_distinct_below(rest, (bound - 1) as nat);
        } else {
            assert forall|i: int| 0 <= i < numbers.len() implies (#[trigger] numbers[i]) < bound
                - 1 by {
                assert(numbers.contains(numbers[i]));
            }
            lemma_distinct_below(numbers, (bound - 1) as nat);
        }
    }
}

/// Where the search for the order stands after a number of waves.
#[verifier::opaque]
spec fn halfway(
    graph: Seq<ScopeView>,
    among: Seq<bool>,
    order: Seq<usize>,
    stage: spec_fn(int) -> nat,
    remaining: Seq<bool>,
    wave: nat,
) -> bool {
    &&& among.len() == graph.len()
    &&& remaining.len() == graph.len()
    &&& waved(graph, among, order, stage)
    &&& order.no_duplicates()
    &&& forall|i: int|
        0 <= i < graph.len() ==> (#[trigger] among[i] <==> remaining[i] || order.contains(
            i as usize,
        ))
    &&& forall|i: int|
        0 <= i < graph.len() && #[trigger] remaining[i] ==> !order.contains(i as usize)
    &&& forall|i: int| 0 <= i < order.len() ==> stage(#[trigger] order[i] as int) < wave
    &&& wave > 0 ==> forall|c: int|
        0 <= c < graph.len() && #[trigger] remaining[c] ==> exists|p: int|
            0 <= p < graph.len() && #[trigger] edge(graph, p, c) && (remaining[p]
                || order.contains(p as usize) && stage(p) + 1 == wave)
}

/// Whether `ready` lists the remaining scopes none of whose parents remain.
#[verifier::opaque]
spec fn readied(graph: Seq<ScopeView>, remaining: Seq<bool>, ready: Seq<usize>) -> bool {
    &&& forall|k: int| 0 <= k < ready.len() ==> (#[trigger] ready[k]) < graph.len()
    &&& forall|k: int, m: int| 0 <= k < m < ready.len() ==> ready[k] < ready[m]
    &&& forall|j: int|
        0 <= j < graph.len() ==> (#[trigger] ready.contains(j as usize) <==> remaining[j]
            && !exists|p: int|
            0 <= p < graph.len() && remaining[p] && #[trigger] edge(graph, p, j))
}

/// How the order grows by the scopes that are ready.
proof fn lemma_wave(
    graph: Seq<ScopeView>,
    among: Seq<bool>,
    order: Seq<usize>,
    stage: spec_fn(int) -> nat,
    remaining: Seq<bool>,
    ready: Seq<usize>,
    stage_after: spec_fn(int) -> nat,
    remaining_after: Seq<bool>,
    wave: nat,
)
    requires
        graph.len() <= usize::MAX,
        halfway(graph, among, order, stage, remaining, wave),
        readied(graph, remaining, ready),
        remaining_after.len() == graph.len(),
        forall|j: int|
            0 <= j < graph.len() ==> (#[trigger] remaining_after[j] == (remaining[j]
                && !ready.contains(j as usize))),
        forall|i: int| #[trigger]
            stage_after(i) == if ready.contains(i as usize) {
                wave
            } else {
                stage(i)
            },
    ensures
        halfway(graph, among, order + ready, stage_after, remaining_after, wave + 1),
        (order + ready).len() <= graph.len(),
{
    reveal(halfway);
    reveal(readied);
    let whole = order + ready;
    assert forall|x: usize| #[trigger] whole.contains(x) <==> order.contains(x) || ready.contains(
        x,
    ) by {
        if order.contains(x) {
            let k = choose|k: int| 0 <= k < order.len() && order[k] == x;
            assert(whole[k] == x);
        }
        if ready.contains(x) {
            let k = choose|k: int| 0 <= k < ready.len() && ready[k] == x;
            assert(whole[order.len() + k] == x);
        }
        if whole.contains(x) {
            let k = choose|k: int| 0 <= k < whole.len() && whole[k] == x;
            if k >= order.len() {
                assert(ready[k - order.len()] == x);
            } else {
                assert(order[k] == x);
            }
        }
    }
    assert forall|k: int| 0 <= k < ready.len() implies remaining[#[trigger] ready[k] as int]
        && !order.contains(ready[k]) by {
        assert(ready.contains(ready[k]));
        let j = ready[k] as int;
        assert(ready.contains(j as usize));
    }
    assert forall|k: int| 0 <= k < order.len() implies !ready.contains(#[trigger] order[k])
        && order[k] < graph.len() by {
        assert(order.contains(order[k]));
        let j = order[k] as int;
        assert(among[j]);
        if ready.contains(j as usize) {
            assert(remaining[j]);
        }
    }
    assert forall|i: int, j: int| 0 <= i < j < whole.len() implies stage_after(whole[i] as int)
        < stage_after(whole[j] as int) || (stage_after(whole[i] as int) == stage_after(
        whole[j] as int,
    ) && whole[i] < whole[j]) by {
        if j < order.len() {
            assert(whole[i] == order[i] && whole[j] == order[j]);
        } else if i < order.len() {
            assert(whole[i] == order[i]);
            assert(stage(order[i] as int) < wave);
            assert(whole[j] == ready[j - order.len()]);
            assert(ready.contains(whole[j]));
        } else {
            assert(whole[i] == ready[i - order.len()] && whole[j] == ready[j - order.len()]);
            assert(ready.contains(whole[i]) && ready.contains(whole[j]));
        }
    }
    assert forall|i: int| 0 <= i < whole.len() implies (#[trigger] whole[i]) < among.len()
        && among[whole[i] as int] && stage_after(whole[i] as int) < wave + 1 by {
        if i < order.len() {
            assert(whole[i] == order[i]);
            assert(stage(order[i] as int) < wave);
        } else {
            assert(whole[i] == ready[i - order.len()]);
            let j = whole[i] as int;
            assert(ready.contains(j as usize));
            assert(among[j]);
        }
    }
    assert forall|upper: int, lower: int|
        0 <= upper < among.len() && 0 <= lower < among.len() && among[upper] && whole.contains(
            lower as usize,
        ) && #[trigger] edge(graph, upper, lower) implies whole.contains(upper as usize)
        && stage_after(upper) < stage_after(lower) by {
        if order.contains(lower as usize) {
            assert(order.contains(upper as usize) && stage(upper) < stage(lower));
            let k = choose|k: int| 0 <= k < order.len() && order[k] == lower as usize;
            assert(!ready.contains(order[k]));
            let m = choose|m: int| 0 <= m < order.len() && order[m] == upper as usize;
            assert(!ready.contains(order[m]));
        } else {
            assert(ready.contains(lower as usize));
            assert(!remaining[upper]);
            assert(order.contains(upper as usize));
            let m = choose|m: int| 0 <= m < order.len() && order[m] == upper as usize;
            assert(!ready.contains(order[m]));
            assert(stage(order[m] as int) < wave);
        }
    }
    assert forall|lower: int|
        0 <= lower < among.len() && whole.contains(lower as usize) && #[trigger] stage_after(lower)
            > 0 implies exists|upper: int|
        0 <= upper < among.len() && whole.contains(upper as usize) && #[trigger] edge(
            graph,
            upper,
            lower,
        ) && stage_after(upper) + 1 == stage_after(lower) by {
        if order.contains(lower as usize) {
            let k = choose|k: int| 0 <= k < order.len() && order[k] == lower as usize;
            assert(!ready.contains(order[k]));
            assert(stage(lower) > 0);
            let upper = choose|upper: int|
                0 <= upper < among.len() && order.contains(upper as usize) && #[trigger] edge(
                    graph,
                    upper,
                    lower,
                ) && stage(upper) + 1 == stage(lower);
            let m = choose|m: int| 0 <= m < order.len() && order[m] == upper as usize;
            assert(!ready.contains(order[m]));
            assert(edge(graph, upper, lower) && stage_after(upper) + 1 == stage_after(lower));
        } else {
            assert(ready.contains(lower as usize));
            assert(remaining[lower]);
            let upper = choose|p: int|
                0 <= p < graph.len() && #[trigger] edge(graph, p, lower) && (remaining[p]
                    || order.contains(p as usize) && stage(p) + 1 == wave);
            assert(!remaining[upper]);
            let m = choose|m: int| 0 <= m < order.len() && order[m] == upper as usize;
            assert(!ready.contains(order[m]));
            assert(edge(graph, upper, lower) && stage_after(upper) + 1 == stage_after(lower));
        }
    }
    assert forall|i: int, j: int|
        0 <= i < whole.len() && 0 <= j < whole.len() && i != j implies whole[i] != whole[j] by {
        let a = if i < j {
            i
        } else {
            j
        };
        let b = if i < j {
            j
        } else {
            i
        };
        if b >= order.len() {
            assert(whole[b] == ready[b - order.len()]);
            if a < order.len() {
                assert(whole[a] == order[a]);
                assert(order.contains(order[a]));
            } else {
                assert(whole[a] == ready[a - order.len()]);
            }
        } else {
            assert(whole[a] == order[a] && whole[b] == order[b]);
        }
    }
    assert forall|i: int| 0 <= i < graph.len() implies (#[trigger] among[i] <==> remaining_after[i]
        || whole.contains(i as usize)) by {
        assert(remaining_after[i] == (remaining[i] && !ready.contains(i as usize)));
    }
    assert forall|c: int| 0 <= c < graph.len() && #[trigger] remaining_after[c] implies exists|
        p: int,
    |
        0 <= p < graph.len() && #[trigger] edge(graph, p, c) && (remaining_after[p]
            || whole.contains(p as usize) && stage_after(p) + 1 == wave + 1) by {
        assert(remaining[c] && !ready.contains(c as usize));
        let p = choose|p: int|
            0 <= p < graph.len() && remaining[p] && #[trigger] edge(graph, p, c);
        assert(remaining_after[p] == (remaining[p] && !ready.contains(p as usize)));
        assert(edge(graph, p, c));
    }
    lemma_distinct_below(whole, graph.len());
}

/// Where nothing remains, every flagged scope is in the order.
proof fn lemma_all_waves(
    graph: Seq<ScopeView>,
    among: Seq<bool>,
    order: Seq<usize>,
    stage: spec_fn(int) -> nat,
    remaining: Seq<bool>,
    wave: nat,
)
    requires
        halfway(graph, among, order, stage, remaining, wave),
    ensures
        among.len() == graph.len(),
        remaining.len() == graph.len(),
        wave_order(graph, among, order),
        (forall|j: int| 0 <= j < remaining.len() ==> !#[trigger] remaining[j]) ==> forall|i: int|
            0 <= i < among.len() && #[trigger] among[i] ==> order.contains(i as usize),
{
    reveal(halfway);
    reveal(wave_order);
    assert(waved(graph, among, order, stage));
}

/// Where scopes remain and none of them is ready, the graph has a cycle.
proof fn lemma_stuck(graph: Seq<ScopeView>, remaining: Seq<bool>, lower: int)
    requires
        remaining.len() == graph.len(),
        readied(graph, remaining, Seq::empty()),
        0 <= lower < remaining.len(),
        remaining[lower],
    ensures
        !acyclic(graph),
{
    reveal(readied);
    let none = Seq::<usize>::empty();
    if acyclic(graph) {
        let rank = choose|rank: spec_fn(int) -> nat| ranked(graph, rank);
        assert forall|c: int| 0 <= c < remaining.len() && #[trigger] remaining[c] implies exists|
            p: int,
        |
            0 <= p < remaining.len() && remaining[p] && #[trigger] edge(graph, p, c) by {
            assert(!none.contains(c as usize));
        }
        lemma_no_descent(graph, remaining, rank, lower);
    }
}

impl ScopeGraph {
    /// The scopes, alphabetical.
    pub fn scopes(&self) -> (scopes: &Vec<Scope>)
        ensures
            scope_views(scopes@) == self@,
            graph_wf(self@),
            acyclic(self@),
    {
        proof {
            use_type_invariant(self);
        }
        &self.scopes
    }

    /// Where in the alphabet of scopes a name stands.
    fn position(&self, name: &str) -> (found: Option<usize>)
        ensures
            match found {
                Some(i) => i < self@.len() && self@[i as int].name == name@,
                None => !names_of(self@).contains(name@),
            },
    {
        let mut i: usize = 0;
        while i < self.scopes.len()
            invariant
                i <= self.scopes.len(),
                forall|j: int| 0 <= j < i ==> names_of(self@)[j] != name@,
            decreases self.scopes.len() - i,
        {
            if same_text(self.scopes[i].name.as_str(), name) {
                return Some(i);
            }
            i += 1;
        }
        None
    }

    /// The scope with a name.
    pub fn get(&self, name: &str) -> (found: Option<&Scope>)
        ensures
            match found {
                Some(scope) => lookup(self@, name@) == Some(scope@) && scope@.name == name@,
                None => lookup(self@, name@) is None,
            },
    {
        proof {
            use_type_invariant(self);
            lemma_lookup(self@, name@);
        }
        match self.position(name) {
            Some(i) => Some(&self.scopes[i]),
            None => None,
        }
    }

    /// Whether the graph has a scope with a name.
    pub fn contains(&self, name: &str) -> (found: bool)
        ensures
            found == names_of(self@).contains(name@),
    {
        match self.position(name) {
            Some(i) => {
                proof {
                    assert(names_of(self@)[i as int] == name@);
                }
                true
            },
            None => false,
        }
    }

    /// The names of the scopes, alphabetical.
    pub fn names(&self) -> (names: Vec<String>)
        ensures
            texts(names@) == names_of(self@),
            ascending(names_of(self@)),
    {
        proof {
            use_type_invariant(self);
        }
        let mut names: Vec<String> = Vec::new();
        let mut i: usize = 0;
        while i < self.scopes.len()
            invariant
                i <= self.scopes.len(),
                names.len() == i,
                forall|j: int| 0 <= j < i ==> (#[trigger] names@[j])@ == names_of(self@)[j],
            decreases self.scopes.len() - i,
        {
            names.push(self.scopes[i].name.clone());
            i += 1;
        }
        proof {
            assert(texts(names@) =~= names_of(self@));
        }
        names
    }

    /// A scope with no parents, the first in the alphabet.
    pub fn a_root(&self) -> (root: Option<&str>)
        ensures
            match root {
                Some(name) => exists|i: int|
                    0 <= i < self@.len() && (#[trigger] self@[i]).name == name@
                        && self@[i].parents.len() == 0 && forall|j: int|
                        0 <= j < i ==> (#[trigger] self@[j]).parents.len() > 0,
                None => forall|i: int| 0 <= i < self@.len() ==> (#[trigger] self@[i]).parents.len() > 0,
            },
    {
        let mut i: usize = 0;
        while i < self.scopes.len()
            invariant
                i <= self.scopes.len(),
                forall|j: int| 0 <= j < i ==> (#[trigger] self@[j]).parents.len() > 0,
            decreases self.scopes.len() - i,
        {
            proof {
                assert(self@[i as int] == self.scopes@[i as int]@);
            }
            if self.scopes[i].parents.is_empty() {
                return Some(self.scopes[i].name.as_str());
            }
            i += 1;
        }
        None
    }
}

/// Whether the scope at index `lower` has a flagged parent.
fn has_flagged_parent(scopes: &Vec<Scope>, flags: &Vec<bool>, lower: usize) -> (found: bool)
    requires
        flags.len() == scope_views(scopes@).len(),
        lower < scope_views(scopes@).len(),
    ensures
        found == exists|upper: int|
            0 <= upper < flags.len() && flags[upper] && #[trigger] edge(
                scope_views(scopes@),
                upper,
                lower as int,
            ),
{
    let mut upper: usize = 0;
    while upper < flags.len()
        invariant
            flags.len() == scope_views(scopes@).len(),
            lower < scope_views(scopes@).len(),
            upper <= flags.len(),
            forall|p: int|
                0 <= p < upper && flags[p] ==> !#[trigger] edge(scope_views(scopes@), p, lower as int),
        decreases flags.len() - upper,
    {
        if flags[upper] && contains_text(
            &scopes[lower].parents,
            scopes[upper].name.as_str(),
        ) {
            proof {
                assert(edge(scope_views(scopes@), upper as int, lower as int));
            }
            return true;
        }
        upper += 1;
    }
    false
}

/// The remaining scopes none of whose parents remain, and whether any
/// scope remains.
fn ready_scopes(scopes: &Vec<Scope>, remaining: &Vec<bool>) -> (found: (Vec<usize>, bool))
    requires
        remaining.len() == scope_views(scopes@).len(),
    ensures
        readied(scope_views(scopes@), remaining@, found.0@),
        found.1 == exists|j: int| 0 <= j < remaining.len() && #[trigger] remaining[j],
{
    let size: usize = scopes.len();
    let mut ready: Vec<usize> = Vec::new();
    let mut left = false;
    let mut i: usize = 0;
    while i < size
        invariant
            size == scope_views(scopes@).len(),
            i <= size,
            remaining.len() == size,
            forall|j: int| 0 <= j < i && !left ==> !#[trigger] remaining[j],
            left ==> exists|j: int| 0 <= j < i && #[trigger] remaining[j],
            forall|k: int| 0 <= k < ready.len() ==> (#[trigger] ready[k]) < i,
            forall|k: int, m: int| 0 <= k < m < ready.len() ==> ready[k] < ready[m],
            forall|j: int|
                0 <= j < i ==> (#[trigger] ready@.contains(j as usize) <==> remaining[j]
                    && !exists|p: int|
                    0 <= p < size && remaining[p] && #[trigger] edge(scope_views(scopes@), p, j)),
        decreases size - i,
    {
        let ghost before = ready@;
        if remaining[i] {
            left = true;
            if !has_flagged_parent(scopes, remaining, i) {
                ready.push(i);
                proof {
                    assert(ready@[before.len() as int] == i);
                    assert forall|j: int| 0 <= j < i implies #[trigger] ready@.contains(
                        j as usize,
                    ) == before.contains(j as usize) by {
                        if before.contains(j as usize) {
                            let k = choose|k: int|
                                0 <= k < before.len() && before[k] == j as usize;
                            assert(ready@[k] == j as usize);
                        }
                    }
                }
            }
        }
        i += 1;
    }
    proof {
        reveal(readied);
    }
    (ready, left)
}

/// The flagged scopes in the order a cascade runs in, as far as one exists.
fn waves(scopes: &Vec<Scope>, among: &Vec<bool>) -> (found: (Vec<usize>, bool))
    requires
        among.len() == scope_views(scopes@).len(),
    ensures
        wave_order(scope_views(scopes@), among@, found.0@),
        found.1 ==> forall|i: int|
            0 <= i < among.len() && #[trigger] among[i] ==> found.0@.contains(i as usize),
        !found.1 ==> !acyclic(scope_views(scopes@)),
{
    let size: usize = scopes.len();
    let mut remaining: Vec<bool> = among.clone();
    let mut order: Vec<usize> = Vec::new();
    let ghost mut stage: spec_fn(int) -> nat = |i: int| 0nat;
    let ghost mut wave: nat = 0;
    proof {
        assert(remaining@ =~= among@);
        reveal(halfway);
        assert(halfway(scope_views(scopes@), among@, order@, stage, remaining@, wave));
    }
    loop
        invariant
            size == scope_views(scopes@).len(),
            halfway(scope_views(scopes@), among@, order@, stage, remaining@, wave),
            order.len() <= size,
        decreases size - order.len(),
    {
        proof {
            lemma_all_waves(scope_views(scopes@), among@, order@, stage, remaining@, wave);
        }
        let (ready, left) = ready_scopes(scopes, &remaining);
        if !left {
            return (order, true);
        }
        if ready.is_empty() {
            proof {
                assert(ready@ =~= Seq::<usize>::empty());
                let lower = choose|j: int| 0 <= j < remaining.len() && #[trigger] remaining[j];
                lemma_stuck(scope_views(scopes@), remaining@, lower);
            }
            return (order, false);
        }
        proof {
            reveal(readied);
        }
        let ghost stage_before = stage;
        let ghost order_before = order@;
        let ghost remaining_before = remaining@;
        proof {
            let now = wave;
            let set = ready@;
            stage = |i: int|
                if set.contains(i as usize) {
                    now
                } else {
                    stage_before(i)
                };
        }
        settle(&mut remaining, &mut order, &ready);
        proof {
            lemma_wave(
                scope_views(scopes@),
                among@,
                order_before,
                stage_before,
                remaining_before,
                ready@,
                stage,
                remaining@,
                wave,
            );
            wave = wave + 1;
        }
    }
}

/// Whether no scope is above itself, as in every graph whose scopes were
/// created after the scopes they descend from.
fn has_no_cycle(scopes: &Vec<Scope>) -> (found: bool)
    ensures
        found == acyclic(scope_views(scopes@)),
{
    let mut all: Vec<bool> = Vec::new();
    let mut i: usize = 0;
    while i < scopes.len()
        invariant
            i <= scopes.len(),
            all.len() == i,
            forall|j: int| 0 <= j < i ==> #[trigger] all[j],
        decreases scopes.len() - i,
    {
        all.push(true);
        i += 1;
    }
    let (order, complete) = waves(scopes, &all);
    proof {
        if complete {
            reveal(wave_order);
            let stage = choose|stage: spec_fn(int) -> nat|
                waved(scope_views(scopes@), all@, order@, stage);
            assert forall|upper: int, lower: int|
                0 <= upper < scope_views(scopes@).len() && 0 <= lower < scope_views(scopes@).len() && #[trigger] edge(
                    scope_views(scopes@),
                    upper,
                    lower,
                ) implies stage(upper) < stage(lower) by {
                assert(all[upper] && all[lower]);
            }
            assert(ranked(scope_views(scopes@), stage));
        }
    }
    complete
}

/// Moves the scopes that are ready from those that remain to the order.
fn settle(remaining: &mut Vec<bool>, order: &mut Vec<usize>, ready: &Vec<usize>)
    requires
        forall|m: int| 0 <= m < ready.len() ==> (#[trigger] ready[m]) < old(remaining).len(),
    ensures
        final(order)@ == old(order)@ + ready@,
        final(remaining).len() == old(remaining).len(),
        forall|j: int|
            0 <= j < old(remaining).len() ==> (#[trigger] final(remaining)@[j] == (old(
                remaining,
            )@[j] && !ready@.contains(j as usize))),
{
    let mut k: usize = 0;
    proof {
        lemma_take_all(ready@);
        assert(order@ =~= old(order)@ + ready@.take(0));
    }
    while k < ready.len()
        invariant
            k <= ready.len(),
            remaining.len() == old(remaining).len(),
            forall|m: int| 0 <= m < ready.len() ==> (#[trigger] ready[m]) < remaining.len(),
            order@ == old(order)@ + ready@.take(k as int),
            forall|j: int|
                0 <= j < remaining.len() ==> (#[trigger] remaining@[j] == (old(remaining)@[j]
                    && !ready@.take(k as int).contains(j as usize))),
        decreases ready.len() - k,
    {
        let next: usize = ready[k];
        let ghost before = remaining@;
        remaining.set(next, false);
        order.push(next);
        proof {
            let shorter = ready@.take(k as int);
            let longer = ready@.take(k + 1);
            assert(longer =~= shorter.push(next));
            assert(order@ =~= old(order)@ + longer);
            assert forall|j: int| 0 <= j < remaining.len() implies (#[trigger] remaining@[j] == (
            old(remaining)@[j] && !longer.contains(j as usize))) by {
                assert(longer[k as int] == next);
                assert(before[j] == (old(remaining)@[j] && !shorter.contains(j as usize)));
                if j == next {
                } else if shorter.contains(j as usize) {
                    let m = choose|m: int| 0 <= m < shorter.len() && shorter[m] == j as usize;
                    assert(longer[m] == j as usize);
                } else if longer.contains(j as usize) {
                    let m = choose|m: int| 0 <= m < longer.len() && longer[m] == j as usize;
                    assert(m < k ==> shorter[m] == j as usize);
                }
            }
        }
        k += 1;
    }
    proof {
        lemma_take_all(ready@);
    }
}

/// Whether `upper` is a parent of `lower`.
pub open spec fn is_parent(graph: Seq<ScopeView>, upper: Text, lower: Text) -> bool {
    exists|i: int|
        0 <= i < graph.len() && (#[trigger] graph[i]).name == lower && graph[i].parents.contains(
            upper,
        )
}

/// Whether scopes are listed by stage and alphabetical within a stage, where
/// the stage of a scope is one more than the highest of its listed parents.
pub open spec fn staged(
    graph: Seq<ScopeView>,
    order: Seq<Text>,
    stage: spec_fn(Text) -> nat,
) -> bool {
    &&& forall|i: int, j: int|
        #![trigger order[i], order[j]]
        0 <= i < j < order.len() ==> stage(order[i]) < stage(order[j]) || (stage(order[i]) == stage(
            order[j],
        ) && text_before(order[i], order[j]))
    &&& forall|upper: Text, lower: Text|
        order.contains(upper) && order.contains(lower) && #[trigger] is_parent(graph, upper, lower)
            ==> stage(upper) < stage(lower)
    &&& forall|lower: Text|
        order.contains(lower) && #[trigger] stage(lower) > 0 ==> exists|upper: Text|
            order.contains(upper) && #[trigger] is_parent(graph, upper, lower) && stage(upper) + 1
                == stage(lower)
}

/// The order a cascade runs in: parents before children, each scope as early
/// as its parents allow, and alphabetical where that leaves a choice.
#[verifier::opaque]
pub open spec fn cascade_order(graph: Seq<ScopeView>, order: Seq<Text>) -> bool {
    exists|stage: spec_fn(Text) -> nat| staged(graph, order, stage)
}

/// Parents come before children in a cascade order, and nothing comes twice.
pub proof fn law_parents_before_children(graph: Seq<ScopeView>, order: Seq<Text>)
    requires
        cascade_order(graph, order),
    ensures
        order.no_duplicates(),
        forall|i: int, j: int|
            0 <= i < order.len() && 0 <= j < order.len() && #[trigger] is_parent(
                graph,
                order[i],
                order[j],
            ) ==> i < j,
{
    reveal(cascade_order);
    lemma_text_order();
    let stage = choose|stage: spec_fn(Text) -> nat| staged(graph, order, stage);
    assert forall|i: int, j: int|
        0 <= i < order.len() && 0 <= j < order.len() && i != j implies order[i] != order[j] by {
        if i < j {
            assert(stage(order[i]) < stage(order[j]) || text_before(order[i], order[j]));
        } else {
            assert(stage(order[j]) < stage(order[i]) || text_before(order[j], order[i]));
        }
    }
    assert forall|i: int, j: int|
        0 <= i < order.len() && 0 <= j < order.len() && #[trigger] is_parent(
            graph,
            order[i],
            order[j],
        ) implies i < j by {
        assert(order.contains(order[i]) && order.contains(order[j]));
        assert(stage(order[i]) < stage(order[j]));
        if j < i {
            assert(stage(order[j]) < stage(order[i]) || (stage(order[j]) == stage(order[i])
                && text_before(order[j], order[i])));
        }
    }
}

proof fn lemma_stage_at_most(
    graph: Seq<ScopeView>,
    one: Seq<Text>,
    stage: spec_fn(Text) -> nat,
    other: Seq<Text>,
    other_stage: spec_fn(Text) -> nat,
    scope: Text,
)
    requires
        staged(graph, one, stage),
        staged(graph, other, other_stage),
        forall|n: Text| #[trigger] one.contains(n) <==> other.contains(n),
        one.contains(scope),
    ensures
        stage(scope) <= other_stage(scope),
    decreases stage(scope),
{
    if stage(scope) > 0 {
        let upper = choose|upper: Text|
            one.contains(upper) && #[trigger] is_parent(graph, upper, scope) && stage(upper) + 1
                == stage(scope);
        lemma_stage_at_most(graph, one, stage, other, other_stage, upper);
        assert(other.contains(upper) && other.contains(scope));
        assert(other_stage(upper) < other_stage(scope));
    }
}

/// Some scopes have one cascade order only.
pub proof fn law_cascade_order_is_unique(graph: Seq<ScopeView>, one: Seq<Text>, other: Seq<Text>)
    requires
        cascade_order(graph, one),
        cascade_order(graph, other),
        forall|n: Text| #[trigger] one.contains(n) <==> other.contains(n),
    ensures
        one == other,
{
    law_parents_before_children(graph, one);
    law_parents_before_children(graph, other);
    reveal(cascade_order);
    lemma_text_order();
    let stage = choose|stage: spec_fn(Text) -> nat| staged(graph, one, stage);
    let other_stage = choose|stage: spec_fn(Text) -> nat| staged(graph, other, stage);
    assert forall|n: Text| #[trigger] one.contains(n) implies stage(n) == other_stage(n) by {
        lemma_stage_at_most(graph, one, stage, other, other_stage, n);
        lemma_stage_at_most(graph, other, other_stage, one, stage, n);
    }
    let before = |a: Text, b: Text|
        stage(a) < stage(b) || (stage(a) == stage(b) && text_before(a, b));
    assert forall|i: int, j: int| 0 <= i < j < other.len() implies #[trigger] before(
        other[i],
        other[j],
    ) by {
        assert(other.contains(other[i]) && other.contains(other[j]));
        assert(one.contains(other[i]) && one.contains(other[j]));
        assert(stage(other[i]) == other_stage(other[i]));
        assert(stage(other[j]) == other_stage(other[j]));
    }
    assert forall|i: int, j: int| 0 <= i < j < one.len() implies #[trigger] before(
        one[i],
        one[j],
    ) by {}
    assert forall|x: Text| !#[trigger] before(x, x) by {}
    assert forall|x: Text, y: Text, z: Text| #[trigger] before(x, y) && #[trigger] before(
        y,
        z,
    ) implies before(x, z) by {
        if stage(x) == stage(y) && stage(y) == stage(z) {
            assert(text_before(x, y) && text_before(y, z));
        }
    }
    lemma_sorted_alike(one, other, before);
}

/// Two listings of the same items by one strict order are the same.
pub proof fn lemma_sorted_alike<A>(one: Seq<A>, other: Seq<A>, before: spec_fn(A, A) -> bool)
    requires
        forall|n: A| #[trigger] one.contains(n) <==> other.contains(n),
        forall|i: int, j: int| 0 <= i < j < one.len() ==> #[trigger] before(one[i], one[j]),
        forall|i: int, j: int| 0 <= i < j < other.len() ==> #[trigger] before(other[i], other[j]),
        forall|x: A| !#[trigger] before(x, x),
        forall|x: A, y: A, z: A| #[trigger]
            before(x, y) && #[trigger] before(y, z) ==> before(x, z),
    ensures
        one == other,
    decreases one.len(),
{
    if one.len() == 0 {
        if other.len() > 0 {
            assert(other.contains(other[0]));
            assert(one.contains(other[0]));
        }
        assert(one =~= other);
    } else {
        assert(one.contains(one[0]));
        assert(other.contains(one[0]));
        let k = choose|k: int| 0 <= k < other.len() && other[k] == one[0];
        assert(other.contains(other[0]));
        assert(one.contains(other[0]));
        let m = choose|m: int| 0 <= m < one.len() && one[m] == other[0];
        if k > 0 {
            assert(before(other[0], other[k]));
            if m > 0 {
                assert(before(one[0], one[m]));
                assert(before(one[0], one[0]));
            } else {
                assert(before(one[0], one[0]));
            }
        }
        let one_rest = one.skip(1);
        let other_rest = other.skip(1);
        assert forall|n: A| #[trigger] one_rest.contains(n) <==> other_rest.contains(n) by {
            if one_rest.contains(n) {
                let i = choose|i: int| 0 <= i < one_rest.len() && one_rest[i] == n;
                assert(one[i + 1] == n);
                assert(before(one[0], one[i + 1]));
                assert(one.contains(n));
                assert(other.contains(n));
                let j = choose|j: int| 0 <= j < other.len() && other[j] == n;
                assert(j > 0);
                assert(other_rest[j - 1] == n);
            }
            if other_rest.contains(n) {
                let i = choose|i: int| 0 <= i < other_rest.len() && other_rest[i] == n;
                assert(other[i + 1] == n);
                assert(before(other[0], other[i + 1]));
                assert(other.contains(n));
                assert(one.contains(n));
                let j = choose|j: int| 0 <= j < one.len() && one[j] == n;
                assert(j > 0);
                assert(one_rest[j - 1] == n);
            }
        }
        assert forall|i: int, j: int| 0 <= i < j < one_rest.len() implies #[trigger] before(
            one_rest[i],
            one_rest[j],
        ) by {
            assert(before(one[i + 1], one[j + 1]));
        }
        assert forall|i: int, j: int| 0 <= i < j < other_rest.len() implies #[trigger] before(
            other_rest[i],
            other_rest[j],
        ) by {
            assert(before(other[i + 1], other[j + 1]));
        }
        lemma_sorted_alike(one_rest, other_rest, before);
        assert(one =~= seq![one[0]] + one_rest);
        assert(other =~= seq![other[0]] + other_rest);
    }
}

/// The scopes at some indices, by name.
spec fn names_at(graph: Seq<ScopeView>, order: Seq<usize>) -> Seq<Text> {
    Seq::new(order.len(), |k: int| graph[order[k] as int].name)
}

/// Where a scope stands in the graph.
pub open spec fn index_of(graph: Seq<ScopeView>, name: Text) -> int {
    choose|i: int| 0 <= i < graph.len() && (#[trigger] graph[i]).name == name
}

/// A scope is at its index.
pub proof fn lemma_index_of(graph: Seq<ScopeView>, i: int)
    requires
        graph_wf(graph),
        0 <= i < graph.len(),
    ensures
        index_of(graph, graph[i].name) == i,
{
    lemma_ascending_no_duplicates(names_of(graph));
    let j = index_of(graph, graph[i].name);
    assert(0 <= j < graph.len() && graph[j].name == graph[i].name);
    assert(names_of(graph)[j] == names_of(graph)[i]);
}

/// An edge is from a parent to a child.
pub proof fn lemma_edge_is_parent(graph: Seq<ScopeView>, upper: int, lower: int)
    requires
        graph_wf(graph),
        0 <= upper < graph.len(),
        0 <= lower < graph.len(),
    ensures
        edge(graph, upper, lower) == is_parent(graph, graph[upper].name, graph[lower].name),
{
    if is_parent(graph, graph[upper].name, graph[lower].name) {
        let i = choose|i: int|
            0 <= i < graph.len() && (#[trigger] graph[i]).name == graph[lower].name
                && graph[i].parents.contains(graph[upper].name);
        lemma_ascending_no_duplicates(names_of(graph));
        assert(names_of(graph)[i] == names_of(graph)[lower]);
    }
}

/// What is in wave order by index is in cascade order by name.
proof fn lemma_wave_order_by_name(graph: Seq<ScopeView>, among: Seq<bool>, order: Seq<usize>)
    requires
        graph_wf(graph),
        among.len() == graph.len(),
        graph.len() <= usize::MAX,
        wave_order(graph, among, order),
        forall|i: int| 0 <= i < among.len() && #[trigger] among[i] ==> order.contains(i as usize),
    ensures
        forall|k: int| 0 <= k < order.len() ==> (#[trigger] order[k]) < graph.len(),
        cascade_order(graph, names_at(graph, order)),
        forall|i: int|
            0 <= i < among.len() ==> (names_at(graph, order).contains((#[trigger] graph[i]).name)
                <==> among[i]),
        forall|n: Text| #[trigger]
            names_at(graph, order).contains(n) ==> names_of(graph).contains(n),
{
    reveal(wave_order);
    reveal(cascade_order);
    let stage = choose|stage: spec_fn(int) -> nat| waved(graph, among, order, stage);
    let by_name = |n: Text| stage(index_of(graph, n));
    let names = names_at(graph, order);
    assert forall|k: int| 0 <= k < order.len() implies (#[trigger] order[k]) < graph.len()
        && among[order[k] as int] && names[k] == graph[order[k] as int].name && by_name(names[k])
        == stage(order[k] as int) && index_of(graph, names[k]) == order[k] by {
        lemma_index_of(graph, order[k] as int);
    }
    assert forall|n: Text| #[trigger] names.contains(n) implies names_of(graph).contains(n)
        && order.contains(index_of(graph, n) as usize) && 0 <= index_of(graph, n) < graph.len()
        && graph[index_of(graph, n)].name == n && among[index_of(graph, n)] by {
        let k = choose|k: int| 0 <= k < names.len() && names[k] == n;
        assert(names_of(graph)[order[k] as int] == n);
    }
    assert forall|i: int| 0 <= i < among.len() implies (names.contains((#[trigger] graph[i]).name)
        <==> among[i]) by {
        lemma_index_of(graph, i);
        if among[i] {
            assert(order.contains(i as usize));
            let k = choose|k: int| 0 <= k < order.len() && order[k] == i as usize;
            assert(names[k] == graph[i].name);
        }
    }
    assert forall|i: int, j: int| 0 <= i < j < names.len() implies by_name(names[i]) < by_name(
        names[j],
    ) || (by_name(names[i]) == by_name(names[j]) && text_before(names[i], names[j])) by {
        assert(stage(order[i] as int) < stage(order[j] as int) || order[i] < order[j]);
        if order[i] < order[j] {
            assert(text_before(
                names_of(graph)[order[i] as int],
                names_of(graph)[order[j] as int],
            ));
        }
    }
    assert forall|upper: Text, lower: Text|
        names.contains(upper) && names.contains(lower) && #[trigger] is_parent(
            graph,
            upper,
            lower,
        ) implies by_name(upper) < by_name(lower) by {
        let u = index_of(graph, upper);
        let l = index_of(graph, lower);
        lemma_edge_is_parent(graph, u, l);
        assert(edge(graph, u, l));
    }
    assert forall|lower: Text| names.contains(lower) && #[trigger] by_name(lower) > 0 implies exists|
        upper: Text,
    |
        names.contains(upper) && #[trigger] is_parent(graph, upper, lower) && by_name(upper) + 1
            == by_name(lower) by {
        let l = index_of(graph, lower);
        assert(stage(l) > 0);
        let u = choose|upper: int|
            0 <= upper < among.len() && order.contains(upper as usize) && #[trigger] edge(
                graph,
                upper,
                l,
            ) && stage(upper) + 1 == stage(l);
        lemma_edge_is_parent(graph, u, l);
        lemma_index_of(graph, u);
        let k = choose|k: int| 0 <= k < order.len() && order[k] == u as usize;
        assert(names[k] == graph[u].name);
        assert(is_parent(graph, graph[u].name, lower));
    }
    assert(staged(graph, names, by_name));
}

/// Whether each name of a path is a parent of the next.
pub open spec fn chain(graph: Seq<ScopeView>, path: Seq<Text>) -> bool {
    forall|k: int| 0 <= k < path.len() - 1 ==> is_parent(graph, #[trigger] path[k], path[k + 1])
}

/// Whether a path of parents and children leads from `upper` down to `lower`,
/// in `steps` steps.
pub open spec fn below_by(graph: Seq<ScopeView>, upper: Text, lower: Text, steps: nat) -> bool {
    exists|path: Seq<Text>|
        #[trigger] chain(graph, path) && path.len() == steps + 1 && path[0] == upper
            && path.last() == lower
}

/// Whether `lower` is below `upper`: a child of it, or below one of its
/// children.
pub open spec fn below(graph: Seq<ScopeView>, upper: Text, lower: Text) -> bool {
    exists|steps: nat| steps > 0 && #[trigger] below_by(graph, upper, lower, steps)
}

/// A step more at the lower end of a path.
pub proof fn lemma_below_step(
    graph: Seq<ScopeView>,
    upper: Text,
    middle: Text,
    lower: Text,
    steps: nat,
)
    requires
        below_by(graph, upper, middle, steps),
        is_parent(graph, middle, lower),
    ensures
        below_by(graph, upper, lower, steps + 1),
        below(graph, upper, lower),
{
    let path = choose|path: Seq<Text>|
        #[trigger] chain(graph, path) && path.len() == steps + 1 && path[0] == upper
            && path.last() == middle;
    let longer = path.push(lower);
    assert forall|k: int| 0 <= k < longer.len() - 1 implies is_parent(
        graph,
        #[trigger] longer[k],
        longer[k + 1],
    ) by {
        if k < path.len() - 1 {
            assert(is_parent(graph, path[k], path[k + 1]));
        }
    }
    assert(chain(graph, longer));
    assert(below_by(graph, upper, lower, steps + 1));
}

/// Every scope is no step below itself.
pub proof fn lemma_below_self(graph: Seq<ScopeView>, scope: Text)
    ensures
        below_by(graph, scope, scope, 0),
{
    let path = seq![scope];
    assert(chain(graph, path));
}

/// A path of some steps ends with a step from a parent.
pub proof fn lemma_below_last(graph: Seq<ScopeView>, upper: Text, lower: Text, steps: nat)
    requires
        below_by(graph, upper, lower, steps),
    ensures
        steps == 0 ==> upper == lower,
        steps > 0 ==> exists|middle: Text| #[trigger]
            below_by(graph, upper, middle, (steps - 1) as nat) && is_parent(graph, middle, lower),
{
    let path = choose|path: Seq<Text>|
        #[trigger] chain(graph, path) && path.len() == steps + 1 && path[0] == upper
            && path.last() == lower;
    if steps > 0 {
        let shorter = path.drop_last();
        assert(chain(graph, shorter)) by {
            assert forall|k: int| 0 <= k < shorter.len() - 1 implies is_parent(
                graph,
                #[trigger] shorter[k],
                shorter[k + 1],
            ) by {
                assert(is_parent(graph, path[k], path[k + 1]));
            }
        }
        let middle = shorter.last();
        assert(below_by(graph, upper, middle, (steps - 1) as nat));
        assert(is_parent(graph, path[path.len() - 2], path[path.len() - 2 + 1]));
    }
}

/// A path of some steps begins with a step to a child.
pub proof fn lemma_below_first(graph: Seq<ScopeView>, upper: Text, lower: Text, steps: nat)
    requires
        below_by(graph, upper, lower, steps),
        steps > 0,
    ensures
        exists|middle: Text| #[trigger]
            below_by(graph, middle, lower, (steps - 1) as nat) && is_parent(graph, upper, middle),
{
    let path = choose|path: Seq<Text>|
        #[trigger] chain(graph, path) && path.len() == steps + 1 && path[0] == upper
            && path.last() == lower;
    let shorter = path.skip(1);
    assert(chain(graph, shorter)) by {
        assert forall|k: int| 0 <= k < shorter.len() - 1 implies is_parent(
            graph,
            #[trigger] shorter[k],
            shorter[k + 1],
        ) by {
            assert(is_parent(graph, path[k + 1], path[k + 1 + 1]));
        }
    }
    let middle = shorter[0];
    assert(shorter.last() == lower);
    assert(below_by(graph, middle, lower, (steps - 1) as nat));
    assert(is_parent(graph, path[0], path[0int + 1]));
}

/// Flags that hold everything right below `upper` and everything right below a
/// flagged scope hold everything below `upper`.
proof fn lemma_closed_below(
    graph: Seq<ScopeView>,
    flags: Seq<bool>,
    upper: Text,
    lower: int,
    steps: nat,
)
    requires
        graph_wf(graph),
        flags.len() == graph.len(),
        forall|c: int|
            0 <= c < graph.len() && (#[trigger] graph[c]).parents.contains(upper) ==> flags[c],
        forall|p: int, c: int|
            0 <= p < graph.len() && 0 <= c < graph.len() && flags[p] && #[trigger] edge(graph, p, c)
                ==> flags[c],
        0 <= lower < graph.len(),
        steps > 0,
        below_by(graph, upper, graph[lower].name, steps),
    ensures
        flags[lower],
    decreases steps,
{
    let name = graph[lower].name;
    lemma_below_last(graph, upper, name, steps);
    let middle = choose|middle: Text| #[trigger]
        below_by(graph, upper, middle, (steps - 1) as nat) && is_parent(graph, middle, name);
    let i = choose|i: int|
        0 <= i < graph.len() && (#[trigger] graph[i]).name == name && graph[i].parents.contains(
            middle,
        );
    lemma_index_of(graph, i);
    lemma_index_of(graph, lower);
    assert(i == lower);
    if steps == 1 {
        lemma_below_last(graph, upper, middle, 0);
    } else {
        assert(names_of(graph).contains(middle));
        let p = choose|p: int| 0 <= p < graph.len() && names_of(graph)[p] == middle;
        lemma_closed_below(graph, flags, upper, p, (steps - 1) as nat);
        assert(edge(graph, p, lower));
    }
}

/// The views of some borrowed scopes.
pub open spec fn ref_views(scopes: Seq<&Scope>) -> Seq<ScopeView> {
    scopes.map_values(|s: &Scope| s@)
}

impl ScopeGraph {
    /// The scopes at some indices.
    fn scopes_at(&self, order: &Vec<usize>) -> (scopes: Vec<&Scope>)
        requires
            forall|k: int| 0 <= k < order.len() ==> (#[trigger] order[k]) < self@.len(),
        ensures
            names_of(ref_views(scopes@)) == names_at(self@, order@),
            forall|k: int| 0 <= k < scopes.len() ==> self@.contains(#[trigger] scopes@[k]@),
    {
        let mut scopes: Vec<&Scope> = Vec::new();
        let mut k: usize = 0;
        while k < order.len()
            invariant
                k <= order.len(),
                forall|k: int| 0 <= k < order.len() ==> (#[trigger] order[k]) < self@.len(),
                scopes.len() == k,
                forall|m: int|
                    0 <= m < k ==> (#[trigger] scopes@[m])@ == self@[order@[m] as int],
            decreases order.len() - k,
        {
            let at: usize = order[k];
            scopes.push(&self.scopes[at]);
            proof {
                assert(self.scopes@[at as int]@ == self@[at as int]);
            }
            k += 1;
        }
        proof {
            assert(names_of(ref_views(scopes@)) =~= names_at(self@, order@));
        }
        scopes
    }

    /// The whole graph in the order a cascade runs in: parents before children.
    pub fn in_cascade_order(&self) -> (scopes: Vec<&Scope>)
        ensures
            cascade_order(self@, names_of(ref_views(scopes@))),
            forall|n: Text| #[trigger]
                names_of(ref_views(scopes@)).contains(n) <==> names_of(self@).contains(n),
            forall|k: int| 0 <= k < scopes.len() ==> self@.contains(#[trigger] scopes@[k]@),
    {
        proof {
            use_type_invariant(self);
        }
        let mut all: Vec<bool> = Vec::new();
        let mut i: usize = 0;
        while i < self.scopes.len()
            invariant
                i <= self.scopes.len(),
                all.len() == i,
                forall|j: int| 0 <= j < i ==> #[trigger] all[j],
            decreases self.scopes.len() - i,
        {
            all.push(true);
            i += 1;
        }
        let (order, complete) = waves(&self.scopes, &all);
        proof {
            lemma_wave_order_by_name(self@, all@, order@);
            assert forall|n: Text| names_of(self@).contains(n) implies #[trigger] names_at(
                self@,
                order@,
            ).contains(n) by {
                let j = choose|j: int| 0 <= j < self@.len() && names_of(self@)[j] == n;
                assert(all[j]);
                assert(names_at(self@, order@).contains(self@[j].name));
            }
        }
        self.scopes_at(&order)
    }

    /// Which scopes are below a scope.
    fn flags_below(&self, scope: &str) -> (flags: Vec<bool>)
        ensures
            flags.len() == self@.len(),
            forall|i: int|
                0 <= i < flags.len() ==> (#[trigger] flags[i] <==> below(
                    self@,
                    scope@,
                    self@[i].name,
                )),
    {
        proof {
            use_type_invariant(self);
        }
        let size: usize = self.scopes.len();
        let mut flags: Vec<bool> = Vec::new();
        let mut i: usize = 0;
        while i < size
            invariant
                size == self@.len(),
                i <= size,
                flags.len() == i,
                forall|j: int| 0 <= j < i ==> !#[trigger] flags[j],
            decreases size - i,
        {
            flags.push(false);
            i += 1;
        }
        let mut settled = false;
        let ghost mut left: nat = size as nat;
        proof {
            assert(unflagged(flags@) == size) by {
                lemma_unflagged_none(flags@);
            }
        }
        while !settled
            invariant
                size == self@.len(),
                graph_wf(self@),
                flags.len() == size,
                left == unflagged(flags@),
                forall|i: int|
                    0 <= i < size && #[trigger] flags[i] ==> below(self@, scope@, self@[i].name),
                settled ==> forall|c: int|
                    0 <= c < size && (#[trigger] self@[c]).parents.contains(scope@) ==> flags[c],
                settled ==> forall|p: int, c: int|
                    0 <= p < size && 0 <= c < size && flags[p] && #[trigger] edge(self@, p, c)
                        ==> flags[c],
            decreases left + if settled { 0nat } else { 1nat },
        {
            settled = true;
            let ghost before = flags@;
            let mut c: usize = 0;
            while c < size
                invariant
                    size == self@.len(),
                    graph_wf(self@),
                    c <= size,
                    flags.len() == size,
                    settled ==> flags@ == before,
                    !settled ==> unflagged(flags@) < left,
                    left == unflagged(before),
                    unflagged(flags@) <= left,
                    forall|i: int|
                        0 <= i < size && #[trigger] flags[i] ==> below(
                            self@,
                            scope@,
                            self@[i].name,
                        ),
                    settled ==> forall|k: int|
                        0 <= k < c && (#[trigger] self@[k]).parents.contains(scope@) ==> flags[k],
                    settled ==> forall|p: int, k: int|
                        0 <= p < size && 0 <= k < c && flags[p] && #[trigger] edge(self@, p, k)
                            ==> flags[k],
                decreases size - c,
            {
                if !flags[c] {
                    let direct = contains_text(&self.scopes[c].parents, scope);
                    if direct || has_flagged_parent(&self.scopes, &flags, c) {
                        proof {
                            let lower = self@[c as int].name;
                            assert(self@[c as int] == self.scopes@[c as int]@);
                            if direct {
                                lemma_below_self(self@, scope@);
                                assert(is_parent(self@, scope@, lower));
                                lemma_below_step(self@, scope@, scope@, lower, 0);
                            } else {
                                let p = choose|p: int|
                                    0 <= p < flags.len() && flags[p] && #[trigger] edge(
                                        self@,
                                        p,
                                        c as int,
                                    );
                                let steps = choose|steps: nat|
                                    steps > 0 && #[trigger] below_by(
                                        self@,
                                        scope@,
                                        self@[p].name,
                                        steps,
                                    );
                                assert(is_parent(self@, self@[p].name, lower));
                                lemma_below_step(self@, scope@, self@[p].name, lower, steps);
                            }
                            lemma_unflagged_update(flags@, c as int);
                        }
                        flags.set(c, true);
                        settled = false;
                    }
                }
                c += 1;
            }
            proof {
                left = unflagged(flags@);
            }
        }
        proof {
            assert forall|i: int|
                0 <= i < flags.len() && below(self@, scope@, self@[i].name) implies #[trigger] flags[i] by {
                let steps = choose|steps: nat|
                    steps > 0 && #[trigger] below_by(self@, scope@, self@[i].name, steps);
                lemma_closed_below(self@, flags@, scope@, i, steps);
            }
        }
        flags
    }

    /// Every scope below `scope`, parents before children: the order a cascade
    /// runs in.
    pub fn descendants_in_cascade_order(&self, scope: &str) -> (scopes: Vec<&Scope>)
        ensures
            cascade_order(self@, names_of(ref_views(scopes@))),
            forall|n: Text| #[trigger]
                names_of(ref_views(scopes@)).contains(n) <==> below(self@, scope@, n),
            forall|k: int| 0 <= k < scopes.len() ==> self@.contains(#[trigger] scopes@[k]@),
    {
        proof {
            use_type_invariant(self);
        }
        let flags = self.flags_below(scope);
        let (order, complete) = waves(&self.scopes, &flags);
        proof {
            lemma_wave_order_by_name(self@, flags@, order@);
            assert forall|n: Text| #[trigger] names_at(self@, order@).contains(n) <==> below(
                self@,
                scope@,
                n,
            ) by {
                if names_at(self@, order@).contains(n) {
                    assert(names_of(self@).contains(n));
                    let j = choose|j: int| 0 <= j < self@.len() && names_of(self@)[j] == n;
                    assert(names_at(self@, order@).contains(self@[j].name));
                    assert(flags[j]);
                }
                if below(self@, scope@, n) {
                    let steps = choose|steps: nat|
                        steps > 0 && #[trigger] below_by(self@, scope@, n, steps);
                    lemma_below_last(self@, scope@, n, steps);
                    let middle = choose|middle: Text| #[trigger]
                        below_by(self@, scope@, middle, (steps - 1) as nat) && is_parent(
                            self@,
                            middle,
                            n,
                        );
                    let j = choose|j: int|
                        0 <= j < self@.len() && (#[trigger] self@[j]).name == n
                            && self@[j].parents.contains(middle);
                    assert(flags[j]);
                }
            }
        }
        self.scopes_at(&order)
    }
}

/// How many flags are not set.
spec fn unflagged(flags: Seq<bool>) -> nat
    decreases flags.len(),
{
    if flags.len() == 0 {
        0
    } else {
        unflagged(flags.drop_last()) + if flags.last() {
            0nat
        } else {
            1nat
        }
    }
}

proof fn lemma_unflagged_none(flags: Seq<bool>)
    requires
        forall|j: int| 0 <= j < flags.len() ==> !#[trigger] flags[j],
    ensures
        unflagged(flags) == flags.len(),
    decreases flags.len(),
{
    if flags.len() > 0 {
        lemma_unflagged_none(flags.drop_last());
    }
}

proof fn lemma_unflagged_update(flags: Seq<bool>, at: int)
    requires
        0 <= at < flags.len(),
        !flags[at],
    ensures
        unflagged(flags.update(at, true)) + 1 == unflagged(flags),
    decreases flags.len(),
{
    let updated = flags.update(at, true);
    if at == flags.len() - 1 {
        assert(updated.drop_last() =~= flags.drop_last());
    } else {
        lemma_unflagged_update(flags.drop_last(), at);
        assert(updated.drop_last() =~= flags.drop_last().update(at, true));
    }
}

} // verus!
