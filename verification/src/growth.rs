//! How the graph grows: what creating a scope does to the graph that is read
//! back out of the repo.
use vstd::prelude::*;
use crate::lineage::{law_derived_graph_is_acyclic, law_descent_is_kept};
use crate::order::{ascending, lemma_ascending_no_duplicates};
use crate::scope_graph::{
    acyclic, below, bookmark_names, creation_of, derived, derived_scope, descends, hangs_off,
    holds_creation, is_member, is_parent, law_membership_is_structural, law_parents_are_the_nearest, lemma_derived_wf, members,
    names_of, reaches, BookmarkView, CreationView, HistoryView,
};
use crate::seqs::lemma_filter_holds;
use crate::text::Text;

verus! {

/// The bookmark of a scope that was just created.
pub open spec fn new_bookmark(scope: Text, commit: Text) -> BookmarkView {
    BookmarkView { name: scope, heads: seq![commit] }
}

/// Whether a commit and a scope are new to a history.
pub open spec fn is_new(history: HistoryView, scope: Text, commit: Text) -> bool {
    &&& creation_of(history.creations, scope) is None
    &&& forall|i: int|
        0 <= i < history.bookmarks.len() ==> (#[trigger] history.bookmarks[i]).name != scope
            && !history.bookmarks[i].heads.contains(commit)
    &&& forall|above: Text, below: Text| #[trigger]
        history.ancestry.contains((above, below)) ==> above != commit && below != commit
    &&& forall|s: Text, k: int|
        #![trigger creation_of(history.creations, s)->0.commits[k]]
        creation_of(history.creations, s) is Some && 0 <= k < creation_of(
            history.creations,
            s,
        )->0.commits.len() ==> creation_of(history.creations, s)->0.commits[k] != commit
}

/// Whether a commit on top of `parents` is all that `after` has and `before`
/// has not: it creates a scope, and the scope's bookmark is on it.
pub open spec fn creates_scope(
    before: HistoryView,
    after: HistoryView,
    scope: Text,
    commit: Text,
    parents: Seq<Text>,
    description: Option<Text>,
) -> bool {
    &&& ascending(bookmark_names(after.bookmarks))
    &&& forall|b: BookmarkView| #[trigger]
        after.bookmarks.contains(b) <==> before.bookmarks.contains(b) || b == new_bookmark(
            scope,
            commit,
        )
    &&& forall|s: Text| #[trigger]
        creation_of(after.creations, s) == if s == scope {
            Some(CreationView { scope, commits: seq![commit], description })
        } else {
            creation_of(before.creations, s)
        }
    &&& forall|above: Text, below: Text| #[trigger]
        after.ancestry.contains((above, below)) <==> before.ancestry.contains((above, below)) || (
        below == commit && (above == commit || reaches(before.ancestry, parents, above)))
}

proof fn lemma_old_heads(
    before: HistoryView,
    after: HistoryView,
    scope: Text,
    commit: Text,
    parents: Seq<Text>,
    description: Option<Text>,
    heads: Seq<Text>,
    wanted: Text,
)
    requires
        is_new(before, scope, commit),
        creates_scope(before, after, scope, commit, parents, description),
        !heads.contains(commit),
    ensures
        holds_creation(after, heads, wanted) == holds_creation(before, heads, wanted),
{
    let old = creation_of(before.creations, wanted);
    let new = creation_of(after.creations, wanted);
    assert forall|to: Text| reaches(after.ancestry, heads, to) == #[trigger] reaches(
        before.ancestry,
        heads,
        to,
    ) by {
        if reaches(after.ancestry, heads, to) {
            let i = choose|i: int|
                0 <= i < heads.len() && after.ancestry.contains((to, #[trigger] heads[i]));
            assert(heads.contains(heads[i]));
            assert(before.ancestry.contains((to, heads[i])));
        }
        if reaches(before.ancestry, heads, to) {
            let i = choose|i: int|
                0 <= i < heads.len() && before.ancestry.contains((to, #[trigger] heads[i]));
            assert(after.ancestry.contains((to, heads[i])));
        }
    }
    if wanted == scope {
        assert(!reaches(before.ancestry, heads, commit));
        if holds_creation(after, heads, wanted) {
            let k = choose|k: int|
                0 <= k < new->0.commits.len() && reaches(
                    after.ancestry,
                    heads,
                    #[trigger] new->0.commits[k],
                );
            assert(new->0.commits[k] == commit);
            assert(reaches(before.ancestry, heads, commit));
        }
    } else {
        assert(old == new);
        if holds_creation(before, heads, wanted) {
            let k = choose|k: int|
                0 <= k < old->0.commits.len() && reaches(
                    before.ancestry,
                    heads,
                    #[trigger] old->0.commits[k],
                );
            assert(reaches(after.ancestry, heads, new->0.commits[k]));
        }
        if holds_creation(after, heads, wanted) {
            let k = choose|k: int|
                0 <= k < new->0.commits.len() && reaches(
                    after.ancestry,
                    heads,
                    #[trigger] new->0.commits[k],
                );
            assert(reaches(before.ancestry, heads, old->0.commits[k]));
        }
    }
}

proof fn lemma_new_head(
    before: HistoryView,
    after: HistoryView,
    scope: Text,
    commit: Text,
    parents: Seq<Text>,
    description: Option<Text>,
    wanted: Text,
)
    requires
        is_new(before, scope, commit),
        creates_scope(before, after, scope, commit, parents, description),
    ensures
        holds_creation(after, seq![commit], wanted) <==> wanted == scope || holds_creation(
            before,
            parents,
            wanted,
        ),
{
    let heads = seq![commit];
    let old = creation_of(before.creations, wanted);
    let new = creation_of(after.creations, wanted);
    if wanted == scope {
        assert(new->0.commits[0] == commit);
        assert(after.ancestry.contains((commit, heads[0])));
        assert(reaches(after.ancestry, heads, new->0.commits[0]));
    } else {
        assert(old == new);
        if holds_creation(before, parents, wanted) {
            let k = choose|k: int|
                0 <= k < old->0.commits.len() && reaches(
                    before.ancestry,
                    parents,
                    #[trigger] old->0.commits[k],
                );
            assert(after.ancestry.contains((new->0.commits[k], heads[0])));
            assert(reaches(after.ancestry, heads, new->0.commits[k]));
        }
        if holds_creation(after, heads, wanted) {
            let k = choose|k: int|
                0 <= k < new->0.commits.len() && reaches(
                    after.ancestry,
                    heads,
                    #[trigger] new->0.commits[k],
                );
            let to = old->0.commits[k];
            assert(to != commit);
            let i = choose|i: int|
                0 <= i < heads.len() && after.ancestry.contains((to, #[trigger] heads[i]));
            assert(heads[i] == commit);
            assert(!before.ancestry.contains((to, commit)));
            assert(reaches(before.ancestry, parents, to));
        }
    }
}

proof fn lemma_members(
    before: HistoryView,
    after: HistoryView,
    scope: Text,
    commit: Text,
    parents: Seq<Text>,
    description: Option<Text>,
)
    requires
        is_new(before, scope, commit),
        creates_scope(before, after, scope, commit, parents, description),
    ensures
        forall|b: BookmarkView| #[trigger]
            members(after).contains(b) <==> members(before).contains(b) || b == new_bookmark(
                scope,
                commit,
            ),
        forall|b: BookmarkView| #[trigger]
            members(before).contains(b) ==> b.name != scope && !b.heads.contains(commit),
{
    let new = new_bookmark(scope, commit);
    lemma_filter_holds(before.bookmarks, |b: BookmarkView| is_member(before, b));
    lemma_filter_holds(after.bookmarks, |b: BookmarkView| is_member(after, b));
    assert forall|b: BookmarkView| #[trigger] before.bookmarks.contains(b) implies b.name != scope
        && !b.heads.contains(commit) && is_member(after, b) == is_member(before, b) by {
        let i = choose|i: int| 0 <= i < before.bookmarks.len() && before.bookmarks[i] == b;
        assert(before.bookmarks[i].name != scope);
        lemma_old_heads(
            before,
            after,
            scope,
            commit,
            parents,
            description,
            b.heads,
            b.name,
        );
    }
    lemma_new_head(before, after, scope, commit, parents, description, scope);
    assert(is_member(after, new));
    assert(after.bookmarks.contains(new));
    assert forall|b: BookmarkView| #[trigger] members(after).contains(b) <==> members(
        before,
    ).contains(b) || b == new by {
        assert(after.bookmarks.contains(b) <==> before.bookmarks.contains(b) || b == new);
    }
    assert forall|b: BookmarkView| #[trigger] members(before).contains(b) implies b.name != scope
        && !b.heads.contains(commit) by {
        assert(before.bookmarks.contains(b));
    }
}

/// Whether a scope stands between two others.
spec fn between(history: HistoryView, from: BookmarkView, b: BookmarkView, to: BookmarkView) -> bool {
    members(history).contains(b) && descends(history, from, b) && descends(history, b, to)
}

proof fn lemma_between(history: HistoryView, from: BookmarkView, other: BookmarkView)
    ensures
        hangs_off(history, from, other) <==> descends(history, from, other) && !exists|
            b: BookmarkView,
        | #[trigger]
            between(history, from, b, other),
{
    let inside = members(history);
    if exists|b: BookmarkView| #[trigger] between(history, from, b, other) {
        let b = choose|b: BookmarkView| #[trigger] between(history, from, b, other);
        let k = choose|k: int| 0 <= k < inside.len() && inside[k] == b;
        assert(descends(history, from, inside[k]) && descends(history, inside[k], other));
    }
    if exists|k: int|
        0 <= k < inside.len() && descends(history, from, #[trigger] inside[k]) && descends(
            history,
            inside[k],
            other,
        ) {
        let k = choose|k: int|
            0 <= k < inside.len() && descends(history, from, #[trigger] inside[k]) && descends(
                history,
                inside[k],
                other,
            );
        assert(inside.contains(inside[k]));
        assert(between(history, from, inside[k], other));
    }
}

/// Whether one scope hangs off another, by their names.
spec fn hangs(history: HistoryView, upper: BookmarkView, lower: BookmarkView) -> bool {
    members(history).contains(upper) && members(history).contains(lower) && hangs_off(
        history,
        lower,
        upper,
    )
}

proof fn lemma_parents(history: HistoryView, upper: Text, lower: Text)
    requires
        ascending(bookmark_names(history.bookmarks)),
    ensures
        is_parent(derived(history), upper, lower) <==> exists|a: BookmarkView, b: BookmarkView| #[trigger]
            hangs(history, a, b) && a.name == upper && b.name == lower,
{
    lemma_derived_wf(history);
    let inside = members(history);
    let graph = derived(history);
    if is_parent(graph, upper, lower) {
        let at = choose|at: int|
            0 <= at < graph.len() && (#[trigger] graph[at]).name == lower
                && graph[at].parents.contains(upper);
        assert(names_of(graph).contains(upper));
        let from = choose|from: int| 0 <= from < graph.len() && names_of(graph)[from] == upper;
        assert(inside[from].name == upper);
        law_parents_are_the_nearest(history, at, from);
        assert(inside.contains(inside[from]) && inside.contains(inside[at]));
        assert(hangs(history, inside[from], inside[at]));
    }
    if exists|a: BookmarkView, b: BookmarkView| #[trigger]
        hangs(history, a, b) && a.name == upper && b.name == lower {
        let (a, b) = choose|a: BookmarkView, b: BookmarkView| #[trigger]
            hangs(history, a, b) && a.name == upper && b.name == lower;
        let i = choose|i: int| 0 <= i < inside.len() && inside[i] == a;
        let j = choose|j: int| 0 <= j < inside.len() && inside[j] == b;
        law_parents_are_the_nearest(history, j, i);
        assert(graph[j].name == lower);
    }
}

/// The highest rank among some bookmarks, and one more.
spec fn above_all(bookmarks: Seq<BookmarkView>, created: spec_fn(Text) -> nat) -> nat
    decreases bookmarks.len(),
{
    if bookmarks.len() == 0 {
        0
    } else {
        let rest = above_all(bookmarks.drop_last(), created);
        let last = created(bookmarks.last().name) + 1;
        if rest > last {
            rest
        } else {
            last
        }
    }
}

proof fn lemma_above_all(bookmarks: Seq<BookmarkView>, created: spec_fn(Text) -> nat, k: int)
    requires
        0 <= k < bookmarks.len(),
    ensures
        created(bookmarks[k].name) < above_all(bookmarks, created),
    decreases bookmarks.len(),
{
    if k < bookmarks.len() - 1 {
        lemma_above_all(bookmarks.drop_last(), created, k);
    }
}

/// Whether every scope was created after those it descends from.
pub open spec fn in_order_of_creation(history: HistoryView, created: spec_fn(Text) -> nat) -> bool {
    forall|i: int, j: int|
        0 <= i < members(history).len() && 0 <= j < members(history).len() && #[trigger] descends(
            history,
            members(history)[i],
            members(history)[j],
        ) ==> created(members(history)[j].name) < created(members(history)[i].name)
}

/// Creating a scope adds it to the graph below every scope it was created under,
/// with what its creator said it is for, and moves no other scope: the graph is
/// only ever added to.
pub proof fn law_a_created_scope_is_read_back(
    before: HistoryView,
    after: HistoryView,
    scope: Text,
    commit: Text,
    under: Seq<BookmarkView>,
    description: Option<Text>,
    created: spec_fn(Text) -> nat,
)
    requires
        ascending(bookmark_names(before.bookmarks)),
        in_order_of_creation(before, created),
        is_new(before, scope, commit),
        forall|i: int|
            0 <= i < under.len() ==> members(before).contains(#[trigger] under[i])
                && under[i].heads.len() == 1,
        creates_scope(
            before,
            after,
            scope,
            commit,
            under.map_values(|b: BookmarkView| b.heads[0]),
            description,
        ),
    ensures
        forall|n: Text| #[trigger]
            names_of(derived(after)).contains(n) <==> names_of(derived(before)).contains(n) || n
                == scope,
        forall|upper: Text, lower: Text|
            lower != scope ==> (#[trigger] is_parent(derived(after), upper, lower) <==> is_parent(
                derived(before),
                upper,
                lower,
            )),
        forall|upper: Text| #[trigger]
            is_parent(derived(after), upper, scope) ==> bookmark_names(under).contains(upper),
        forall|i: int|
            0 <= i < under.len() ==> below(derived(after), (#[trigger] under[i]).name, scope),
        derived(after).contains(derived_scope(after, new_bookmark(scope, commit))),
        derived_scope(after, new_bookmark(scope, commit)).description == description,
        acyclic(derived(after)),
{
    let parents = under.map_values(|b: BookmarkView| b.heads[0]);
    let new = new_bookmark(scope, commit);
    let inside = members(after);
    lemma_members(before, after, scope, commit, parents, description);
    // What descends from what.
    assert forall|b: BookmarkView, o: BookmarkView| members(before).contains(b) implies #[trigger]
        descends(after, b, o) == descends(before, b, o) by {
        lemma_old_heads(before, after, scope, commit, parents, description, b.heads, o.name);
    }
    assert forall|b: BookmarkView| members(before).contains(b) implies !descends(
        after,
        b,
        new,
    ) by {
        lemma_old_heads(before, after, scope, commit, parents, description, b.heads, scope);
    }
    assert forall|o: BookmarkView| members(before).contains(o) && #[trigger] descends(
        after,
        new,
        o,
    ) implies exists|i: int|
        0 <= i < under.len() && (under[i] == o || descends(after, #[trigger] under[i], o)) by {
        lemma_new_head(before, after, scope, commit, parents, description, o.name);
        lemma_reached(before, under, o, parents);
    }
    assert forall|i: int| 0 <= i < under.len() implies descends(after, new, #[trigger] under[i]) by {
        let b = under[i];
        lemma_new_head(before, after, scope, commit, parents, description, b.name);
        lemma_own_creation(before, under, i, parents);
    }
    // The names.
    assert forall|n: Text| #[trigger] names_of(derived(after)).contains(n) <==> names_of(
        derived(before),
    ).contains(n) || n == scope by {
        lemma_names(before, n);
        lemma_names(after, n);
        if exists|b: BookmarkView| #[trigger] members(before).contains(b) && b.name == n {
            let b = choose|b: BookmarkView| #[trigger] members(before).contains(b) && b.name == n;
            assert(inside.contains(b));
        }
        if n == scope {
            assert(inside.contains(new) && new.name == n);
        }
    }
    // The edges of the others.
    assert forall|a: BookmarkView, b: BookmarkView| b.name != scope implies #[trigger] hangs(
        after,
        a,
        b,
    ) == hangs(before, a, b) by {
        lemma_kept_edge(before, after, scope, commit, parents, description, a, b);
    }
    assert forall|upper: Text, lower: Text| lower != scope implies (#[trigger] is_parent(
        derived(after),
        upper,
        lower,
    ) <==> is_parent(derived(before), upper, lower)) by {
        lemma_parents(before, upper, lower);
        lemma_parents(after, upper, lower);
        if is_parent(derived(after), upper, lower) {
            let (a, b) = choose|a: BookmarkView, b: BookmarkView| #[trigger]
                hangs(after, a, b) && a.name == upper && b.name == lower;
            assert(hangs(before, a, b));
        }
        if is_parent(derived(before), upper, lower) {
            let (a, b) = choose|a: BookmarkView, b: BookmarkView| #[trigger]
                hangs(before, a, b) && a.name == upper && b.name == lower;
            assert(hangs(after, a, b));
        }
    }
    // Its own edges.
    assert forall|upper: Text| #[trigger]
        is_parent(derived(after), upper, scope) implies bookmark_names(under).contains(upper) by {
        lemma_parents(after, upper, scope);
        let (a, b) = choose|a: BookmarkView, b: BookmarkView| #[trigger]
            hangs(after, a, b) && a.name == upper && b.name == scope;
        assert(inside.contains(b));
        assert(b == new);
        lemma_between(after, new, a);
        assert(inside.contains(a) && descends(after, new, a));
        assert(a.name != scope);
        assert(members(before).contains(a));
        let i = choose|i: int|
            0 <= i < under.len() && (under[i] == a || descends(after, #[trigger] under[i], a));
        if under[i] != a {
            assert(inside.contains(under[i]));
            assert(between(after, new, under[i], a));
        }
        assert(bookmark_names(under)[i] == upper);
    }
    // Ranks.
    let top = above_all(members(before), created);
    let ranks = |n: Text| if n == scope { top } else { created(n) };
    assert forall|i: int, j: int|
        0 <= i < inside.len() && 0 <= j < inside.len() && #[trigger] descends(
            after,
            inside[i],
            inside[j],
        ) implies ranks(inside[j].name) < ranks(inside[i].name) by {
        assert(inside.contains(inside[i]) && inside.contains(inside[j]));
        let from = inside[i];
        let to = inside[j];
        if members(before).contains(from) {
            assert(to != new);
            assert(members(before).contains(to));
            assert(descends(before, from, to));
            let k = choose|k: int| 0 <= k < members(before).len() && members(before)[k] == from;
            let m = choose|m: int| 0 <= m < members(before).len() && members(before)[m] == to;
            assert(descends(before, members(before)[k], members(before)[m]));
        } else {
            assert(from == new);
            assert(to.name != scope);
            assert(members(before).contains(to));
            let m = choose|m: int| 0 <= m < members(before).len() && members(before)[m] == to;
            lemma_above_all(members(before), created, m);
        }
    }
    law_derived_graph_is_acyclic(after, ranks);
    assert(inside.contains(new));
    let at = choose|at: int| 0 <= at < inside.len() && inside[at] == new;
    assert(derived(after)[at] == derived_scope(after, new));
    assert forall|i: int| 0 <= i < under.len() implies below(
        derived(after),
        (#[trigger] under[i]).name,
        scope,
    ) by {
        assert(inside.contains(under[i]));
        let k = choose|k: int| 0 <= k < inside.len() && inside[k] == under[i];
        assert(descends(after, inside[at], inside[k]));
        law_descent_is_kept(after, ranks, at, k);
    }
}

proof fn lemma_names(history: HistoryView, name: Text)
    requires
        ascending(bookmark_names(history.bookmarks)),
    ensures
        names_of(derived(history)).contains(name) <==> exists|b: BookmarkView| #[trigger]
            members(history).contains(b) && b.name == name,
{
    lemma_derived_wf(history);
    let inside = members(history);
    if names_of(derived(history)).contains(name) {
        let k = choose|k: int| 0 <= k < inside.len() && bookmark_names(inside)[k] == name;
        assert(inside.contains(inside[k]));
    }
    if exists|b: BookmarkView| #[trigger] inside.contains(b) && b.name == name {
        let b = choose|b: BookmarkView| #[trigger] inside.contains(b) && b.name == name;
        let k = choose|k: int| 0 <= k < inside.len() && inside[k] == b;
        assert(bookmark_names(inside)[k] == name);
    }
}

proof fn lemma_own_creation(
    before: HistoryView,
    under: Seq<BookmarkView>,
    i: int,
    parents: Seq<Text>,
)
    requires
        0 <= i < under.len(),
        members(before).contains(under[i]),
        under[i].heads.len() == 1,
        parents.len() == under.len(),
        parents[i] == under[i].heads[0],
    ensures
        holds_creation(before, parents, under[i].name),
{
    let b = under[i];
    lemma_filter_holds(before.bookmarks, |b: BookmarkView| is_member(before, b));
    assert(is_member(before, b));
    let own = creation_of(before.creations, b.name)->0;
    let k = choose|k: int|
        0 <= k < own.commits.len() && reaches(before.ancestry, b.heads, #[trigger] own.commits[k]);
    assert(before.ancestry.contains((own.commits[k], b.heads[0])));
    assert(before.ancestry.contains((own.commits[k], parents[i])));
    assert(reaches(before.ancestry, parents, own.commits[k]));
}

proof fn lemma_reached(
    before: HistoryView,
    under: Seq<BookmarkView>,
    other: BookmarkView,
    parents: Seq<Text>,
)
    requires
        parents == under.map_values(|b: BookmarkView| b.heads[0]),
        forall|i: int|
            0 <= i < under.len() ==> members(before).contains(#[trigger] under[i])
                && under[i].heads.len() == 1,
        ascending(bookmark_names(before.bookmarks)),
        members(before).contains(other),
        holds_creation(before, parents, other.name),
    ensures
        exists|i: int|
            0 <= i < under.len() && (under[i] == other || descends(
                before,
                #[trigger] under[i],
                other,
            )),
{
    let own = creation_of(before.creations, other.name)->0;
    let k = choose|k: int|
        0 <= k < own.commits.len() && reaches(before.ancestry, parents, #[trigger] own.commits[k]);
    let i = choose|i: int|
        0 <= i < parents.len() && before.ancestry.contains((own.commits[k], #[trigger] parents[i]));
    let from = under[i];
    assert(from.heads[0] == parents[i]);
    assert(before.ancestry.contains((own.commits[k], from.heads[0])));
    assert(reaches(before.ancestry, from.heads, own.commits[k]));
    assert(holds_creation(before, from.heads, other.name));
    if from.name == other.name {
        lemma_one_bookmark(before, from, other);
    } else {
        assert(descends(before, under[i], other));
    }
}

/// Two scopes of one name are one.
proof fn lemma_one_bookmark(history: HistoryView, one: BookmarkView, other: BookmarkView)
    requires
        ascending(bookmark_names(history.bookmarks)),
        members(history).contains(one),
        members(history).contains(other),
        one.name == other.name,
    ensures
        one == other,
{
    let all = history.bookmarks;
    lemma_filter_holds(all, |b: BookmarkView| is_member(history, b));
    let i = choose|i: int| 0 <= i < all.len() && all[i] == one;
    let j = choose|j: int| 0 <= j < all.len() && all[j] == other;
    lemma_ascending_no_duplicates(bookmark_names(all));
    assert(bookmark_names(all)[i] == bookmark_names(all)[j]);
}

proof fn lemma_kept_edge(
    before: HistoryView,
    after: HistoryView,
    scope: Text,
    commit: Text,
    parents: Seq<Text>,
    description: Option<Text>,
    upper: BookmarkView,
    lower: BookmarkView,
)
    requires
        is_new(before, scope, commit),
        creates_scope(before, after, scope, commit, parents, description),
        lower.name != scope,
    ensures
        hangs(after, upper, lower) == hangs(before, upper, lower),
{
    let new = new_bookmark(scope, commit);
    lemma_members(before, after, scope, commit, parents, description);
    if members(before).contains(lower) {
        lemma_between(before, lower, upper);
        lemma_between(after, lower, upper);
        lemma_old_heads(
            before,
            after,
            scope,
            commit,
            parents,
            description,
            lower.heads,
            upper.name,
        );
        lemma_old_heads(before, after, scope, commit, parents, description, lower.heads, scope);
        assert(!descends(after, lower, new));
        assert forall|b: BookmarkView| #[trigger] between(after, lower, b, upper) == between(
            before,
            lower,
            b,
            upper,
        ) by {
            if b != new && members(before).contains(b) {
                lemma_old_heads(
                    before,
                    after,
                    scope,
                    commit,
                    parents,
                    description,
                    lower.heads,
                    b.name,
                );
                lemma_old_heads(
                    before,
                    after,
                    scope,
                    commit,
                    parents,
                    description,
                    b.heads,
                    upper.name,
                );
            }
        }
        if exists|b: BookmarkView| #[trigger] between(after, lower, b, upper) {
            let b = choose|b: BookmarkView| #[trigger] between(after, lower, b, upper);
            assert(between(before, lower, b, upper));
        }
        if exists|b: BookmarkView| #[trigger] between(before, lower, b, upper) {
            let b = choose|b: BookmarkView| #[trigger] between(before, lower, b, upper);
            assert(between(after, lower, b, upper));
        }
        if upper == new {
            assert(!hangs(after, upper, lower));
            assert(!members(before).contains(upper));
        }
    } else {
        assert(lower != new);
    }
}

/// Whether the history of a bookmark holds a commit that created a scope: one of
/// those that the first record of the scope names.
pub open spec fn made_in(history: HistoryView, bookmark: BookmarkView, scope: Text) -> bool {
    exists|c: int, k: int, h: int|
        0 <= c < history.creations.len() && 0 <= k < history.creations[c].commits.len() && 0 <= h
            < bookmark.heads.len() && (#[trigger] history.creations[c]).scope == scope
            && history.ancestry.contains(
            (#[trigger] history.creations[c].commits[k], #[trigger] bookmark.heads[h]),
        ) && forall|m: int| 0 <= m < c ==> (#[trigger] history.creations[m]).scope != scope
}

proof fn lemma_creation_of(creations: Seq<CreationView>, scope: Text)
    ensures
        match creation_of(creations, scope) {
            Some(found) => exists|c: int|
                0 <= c < creations.len() && #[trigger] creations[c] == found && found.scope == scope
                    && forall|m: int| 0 <= m < c ==> (#[trigger] creations[m]).scope != scope,
            None => forall|m: int|
                0 <= m < creations.len() ==> (#[trigger] creations[m]).scope != scope,
        },
    decreases creations.len(),
{
    if creations.len() > 0 {
        if creations[0].scope == scope {
            assert(creations[0] == creation_of(creations, scope)->0);
        } else {
            let rest = creations.skip(1);
            lemma_creation_of(rest, scope);
            match creation_of(rest, scope) {
                Some(found) => {
                    let c = choose|c: int|
                        0 <= c < rest.len() && #[trigger] rest[c] == found && found.scope == scope
                            && forall|m: int| 0 <= m < c ==> (#[trigger] rest[m]).scope != scope;
                    assert(creations[c + 1] == found);
                    assert forall|m: int| 0 <= m < c + 1 implies (#[trigger] creations[m]).scope
                        != scope by {
                        if m > 0 {
                            assert(rest[m - 1] == creations[m]);
                        }
                    }
                },
                None => {
                    assert forall|m: int| 0 <= m < creations.len() implies (
                    #[trigger] creations[m]).scope != scope by {
                        if m > 0 {
                            assert(rest[m - 1] == creations[m]);
                        }
                    }
                },
            }
        }
    }
}

proof fn lemma_made_in(history: HistoryView, bookmark: BookmarkView, scope: Text)
    ensures
        made_in(history, bookmark, scope) <==> holds_creation(history, bookmark.heads, scope),
{
    lemma_creation_of(history.creations, scope);
    let heads = bookmark.heads;
    if holds_creation(history, heads, scope) {
        let found = creation_of(history.creations, scope)->0;
        let c = choose|c: int|
            0 <= c < history.creations.len() && #[trigger] history.creations[c] == found
                && found.scope == scope && forall|m: int|
                0 <= m < c ==> (#[trigger] history.creations[m]).scope != scope;
        let k = choose|k: int|
            0 <= k < found.commits.len() && reaches(
                history.ancestry,
                heads,
                #[trigger] found.commits[k],
            );
        let h = choose|h: int|
            0 <= h < heads.len() && history.ancestry.contains(
                (found.commits[k], #[trigger] heads[h]),
            );
        assert(history.ancestry.contains((history.creations[c].commits[k], bookmark.heads[h])));
    }
    if made_in(history, bookmark, scope) {
        let (c, k, h) = choose|c: int, k: int, h: int|
            0 <= c < history.creations.len() && 0 <= k < history.creations[c].commits.len() && 0
                <= h < bookmark.heads.len() && (#[trigger] history.creations[c]).scope == scope
                && history.ancestry.contains(
                (#[trigger] history.creations[c].commits[k], #[trigger] bookmark.heads[h]),
            ) && forall|m: int| 0 <= m < c ==> (#[trigger] history.creations[m]).scope != scope;
        let found = creation_of(history.creations, scope)->0;
        let d = choose|d: int|
            0 <= d < history.creations.len() && #[trigger] history.creations[d] == found
                && found.scope == scope && forall|m: int|
                0 <= m < d ==> (#[trigger] history.creations[m]).scope != scope;
        assert(c == d) by {
            if c < d {
                assert(history.creations[c].scope != scope);
            }
            if d < c {
                assert(history.creations[d].scope != scope);
            }
        }
        assert(reaches(history.ancestry, heads, found.commits[k]));
    }
}

/// The graph is what the history says: a bookmark is a scope exactly where its own
/// history holds its creation; and a scope hangs off another exactly where its
/// history holds the other's creation and no third scope, whose creation its
/// history holds too, holds the other's already.
pub proof fn law_the_graph_is_what_the_history_says(
    history: HistoryView,
    upper: BookmarkView,
    lower: BookmarkView,
)
    requires
        ascending(bookmark_names(history.bookmarks)),
        history.bookmarks.contains(upper),
        history.bookmarks.contains(lower),
    ensures
        names_of(derived(history)).contains(upper.name) <==> made_in(history, upper, upper.name),
        is_parent(derived(history), upper.name, lower.name) <==> {
            &&& made_in(history, upper, upper.name)
            &&& made_in(history, lower, lower.name)
            &&& upper.name != lower.name
            &&& made_in(history, lower, upper.name)
            &&& forall|third: BookmarkView|
                history.bookmarks.contains(third) && made_in(history, third, third.name)
                    && third.name != lower.name && third.name != upper.name && #[trigger] made_in(
                    history,
                    lower,
                    third.name,
                ) ==> !made_in(history, third, upper.name)
        },
{
    let inside = members(history);
    let keep = |b: BookmarkView| is_member(history, b);
    lemma_filter_holds(history.bookmarks, keep);
    lemma_derived_wf(history);
    lemma_made_in(history, upper, upper.name);
    lemma_made_in(history, lower, lower.name);
    lemma_made_in(history, lower, upper.name);
    assert(inside.contains(upper) <==> is_member(history, upper));
    assert(inside.contains(lower) <==> is_member(history, lower));
    lemma_member_name(history, upper);
    lemma_member_name(history, lower);
    if inside.contains(upper) && inside.contains(lower) {
        let a = choose|a: int| 0 <= a < inside.len() && inside[a] == upper;
        let b = choose|b: int| 0 <= b < inside.len() && inside[b] == lower;
        law_parents_are_the_nearest(history, b, a);
        let graph = derived(history);
        assert(graph[b].name == lower.name);
        assert(is_parent(graph, upper.name, lower.name) <==> hangs_off(history, lower, upper)) by {
            if is_parent(graph, upper.name, lower.name) {
                let i = choose|i: int|
                    0 <= i < graph.len() && (#[trigger] graph[i]).name == lower.name
                        && graph[i].parents.contains(upper.name);
                lemma_ascending_no_duplicates(names_of(graph));
                assert(names_of(graph)[i] == names_of(graph)[b]);
                assert(i == b);
            }
        }
        if hangs_off(history, lower, upper) {
            assert forall|third: BookmarkView|
                history.bookmarks.contains(third) && made_in(history, third, third.name)
                    && third.name != lower.name && third.name != upper.name && #[trigger] made_in(
                    history,
                    lower,
                    third.name,
                ) implies !made_in(history, third, upper.name) by {
                lemma_made_in(history, third, third.name);
                lemma_made_in(history, lower, third.name);
                lemma_made_in(history, third, upper.name);
                assert(inside.contains(third));
                let k = choose|k: int| 0 <= k < inside.len() && inside[k] == third;
                assert(descends(history, lower, inside[k]));
            }
        } else if descends(history, lower, upper) {
            let k = choose|k: int|
                0 <= k < inside.len() && descends(history, lower, #[trigger] inside[k])
                    && descends(history, inside[k], upper);
            let third = inside[k];
            assert(inside.contains(third));
            lemma_made_in(history, third, third.name);
            lemma_made_in(history, lower, third.name);
            lemma_made_in(history, third, upper.name);
            assert(made_in(history, lower, third.name));
        }
    } else if is_parent(derived(history), upper.name, lower.name) {
        let graph = derived(history);
        let i = choose|i: int|
            0 <= i < graph.len() && (#[trigger] graph[i]).name == lower.name
                && graph[i].parents.contains(upper.name);
        assert(names_of(graph)[i] == lower.name);
        assert(names_of(graph).contains(lower.name));
        assert(names_of(graph).contains(upper.name));
    }
}

proof fn lemma_member_name(history: HistoryView, bookmark: BookmarkView)
    requires
        ascending(bookmark_names(history.bookmarks)),
        history.bookmarks.contains(bookmark),
    ensures
        names_of(derived(history)).contains(bookmark.name) <==> is_member(history, bookmark),
{
    law_membership_is_structural(history, bookmark.name);
    let names = bookmark_names(history.bookmarks);
    let b = choose|b: int| 0 <= b < history.bookmarks.len() && history.bookmarks[b] == bookmark;
    assert(history.bookmarks[b].name == bookmark.name);
    if names_of(derived(history)).contains(bookmark.name) {
        let i = choose|i: int|
            0 <= i < history.bookmarks.len() && (#[trigger] history.bookmarks[i]).name
                == bookmark.name && is_member(history, history.bookmarks[i]);
        lemma_ascending_no_duplicates(names);
        assert(names[i] == names[b]);
        assert(i == b);
    }
}

} // verus!
