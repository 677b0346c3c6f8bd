//! What a scope descends from: the scopes whose config reaches it.
use vstd::prelude::*;
use crate::order::{ascending, lemma_ascending_no_duplicates};
use crate::scope_graph::{
    acyclic, below, below_by, bookmark_names, chain, derived, descends, edge, hangs_off,
    index_of, lemma_derived_wf, lemma_edge_is_parent, lemma_index_of, members, BookmarkView,
    HistoryView, lemma_below_step, graph_wf, is_parent, lemma_below_first, lemma_below_last,
    lemma_below_self, lemma_lookup, lookup, names_of, ranked, ref_views, Scope, ScopeGraph,
    ScopeView,
};
use crate::seqs::{lemma_filter_holds, lemma_filter_step, lemma_take_all};
use crate::text::{same_text, Text};

verus! {

/// The parents of a scope, none where the graph has no such scope.
pub open spec fn parents_of(graph: Seq<ScopeView>, name: Text) -> Seq<Text> {
    match lookup(graph, name) {
        Some(scope) => scope.parents,
        None => Seq::empty(),
    }
}

/// The parents of a scope that were not found before.
pub open spec fn fresh(graph: Seq<ScopeView>, name: Text, found: Seq<Text>) -> Seq<Text> {
    parents_of(graph, name).filter(|p: Text| !found.contains(p))
}

/// What was found, followed by what is found by asking each scope from index
/// `i` on for its parents.
pub open spec fn outward(graph: Seq<ScopeView>, found: Seq<Text>, i: nat) -> Seq<Text>
    decreases graph.len() - i,
{
    if i >= found.len() || i >= graph.len() {
        found
    } else {
        outward(graph, found + fresh(graph, found[i as int], found), i + 1)
    }
}

/// A scope and the scopes above it, breadth first.
pub open spec fn nearest_first(graph: Seq<ScopeView>, scope: Text) -> Seq<Text> {
    if names_of(graph).contains(scope) {
        outward(graph, seq![scope], 0)
    } else {
        Seq::empty()
    }
}

/// A step more at the upper end of a path.
pub proof fn lemma_below_up(
    graph: Seq<ScopeView>,
    upper: Text,
    middle: Text,
    lower: Text,
    steps: nat,
)
    requires
        below_by(graph, middle, lower, steps),
        is_parent(graph, upper, middle),
    ensures
        below_by(graph, upper, lower, steps + 1),
        below(graph, upper, lower),
{
    let path = choose|path: Seq<Text>|
        #[trigger] chain(graph, path) && path.len() == steps + 1 && path[0] == middle
            && path.last() == lower;
    let longer = seq![upper] + path;
    assert forall|k: int| 0 <= k < longer.len() - 1 implies is_parent(
        graph,
        #[trigger] longer[k],
        longer[k + 1],
    ) by {
        if k > 0 {
            assert(longer[k] == path[k - 1]);
            assert(longer[k + 1] == path[k - 1 + 1]);
            assert(is_parent(graph, path[k - 1], path[k - 1 + 1]));
        }
    }
    assert(chain(graph, longer));
    assert(longer.last() == lower);
    assert(below_by(graph, upper, lower, steps + 1));
}

/// Different names out of a list are no more than the list.
pub proof fn lemma_distinct_within(names: Seq<Text>, list: Seq<Text>)
    requires
        names.no_duplicates(),
        forall|i: int| 0 <= i < names.len() ==> list.contains(#[trigger] names[i]),
    ensures
        names.len() <= list.len(),
{
    names.unique_seq_to_set();
    list.lemma_cardinality_of_set();
    assert(names.to_set().subset_of(list.to_set())) by {
        assert forall|n: Text| names.to_set().contains(n) implies list.to_set().contains(n) by {
            let k = choose|k: int| 0 <= k < names.len() && names[k] == n;
            assert(list.contains(names[k]));
        }
    }
    vstd::set_lib::lemma_len_subset(names.to_set(), list.to_set());
}

/// A breadth-first search that has asked the first `i` scopes it found.
pub open spec fn searched(
    graph: Seq<ScopeView>,
    scope: Text,
    found: Seq<Text>,
    distance: Seq<nat>,
    i: int,
) -> bool {
    &&& found.len() == distance.len()
    &&& 0 <= i <= found.len()
    &&& found.len() > 0
    &&& found[0] == scope
    &&& distance[0] == 0
    &&& found.no_duplicates()
    &&& forall|a: int| 0 <= a < found.len() ==> names_of(graph).contains(#[trigger] found[a])
    &&& forall|a: int, b: int| 0 <= a < b < found.len() ==> distance[a] <= distance[b]
    &&& i < found.len() ==> forall|b: int|
        0 <= b < found.len() ==> #[trigger] distance[b] <= distance[i] + 1
    &&& forall|a: int|
        0 <= a < found.len() ==> below_by(graph, #[trigger] found[a], scope, distance[a])
    &&& forall|a: int, p: Text|
        0 <= a < i && #[trigger] is_parent(graph, p, found[a]) ==> exists|b: int|
            0 <= b < found.len() && #[trigger] found[b] == p && distance[b] <= distance[a] + 1
}

proof fn lemma_parents_of(graph: Seq<ScopeView>, name: Text)
    requires
        graph_wf(graph),
        names_of(graph).contains(name),
    ensures
        forall|p: Text| #[trigger]
            parents_of(graph, name).contains(p) <==> is_parent(graph, p, name),
        forall|p: Text| #[trigger]
            parents_of(graph, name).contains(p) ==> names_of(graph).contains(p),
        parents_of(graph, name).no_duplicates(),
{
    lemma_lookup(graph, name);
    let at = choose|at: int| 0 <= at < graph.len() && names_of(graph)[at] == name;
    assert(graph[at].name == name);
    lemma_ascending_no_duplicates(graph[at].parents);
    lemma_ascending_no_duplicates(names_of(graph));
    assert forall|p: Text| is_parent(graph, p, name) implies #[trigger] parents_of(
        graph,
        name,
    ).contains(p) by {
        let i = choose|i: int|
            0 <= i < graph.len() && (#[trigger] graph[i]).name == name && graph[i].parents.contains(
                p,
            );
        assert(names_of(graph)[i] == names_of(graph)[at]);
    }
}

/// A filtered sequence of different items holds different items.
proof fn lemma_filter_distinct(names: Seq<Text>, keep: spec_fn(Text) -> bool)
    requires
        names.no_duplicates(),
    ensures
        names.filter(keep).no_duplicates(),
{
    let differ = |a: Text, b: Text| a != b;
    crate::seqs::lemma_filter_keeps_order(names, keep, differ);
    let kept = names.filter(keep);
    assert forall|i: int, j: int|
        0 <= i < kept.len() && 0 <= j < kept.len() && i != j implies kept[i] != kept[j] by {
        if i < j {
            assert(differ(kept[i], kept[j]));
        } else {
            assert(differ(kept[j], kept[i]));
        }
    }
}

/// One scope more is asked for its parents.
proof fn lemma_searched_step(
    graph: Seq<ScopeView>,
    scope: Text,
    found: Seq<Text>,
    distance: Seq<nat>,
    i: int,
) -> (more: Seq<nat>)
    requires
        graph_wf(graph),
        searched(graph, scope, found, distance, i),
        i < found.len(),
    ensures
        searched(graph, scope, found + fresh(graph, found[i], found), more, i + 1),
{
    let name = found[i];
    let parents = parents_of(graph, name);
    let keep = |p: Text| !found.contains(p);
    let new = fresh(graph, name, found);
    let whole = found + new;
    let more = distance + Seq::new(new.len(), |k: int| distance[i] + 1);
    assert(names_of(graph).contains(name));
    lemma_parents_of(graph, name);
    lemma_filter_holds(parents, keep);
    lemma_filter_distinct(parents, keep);
    assert forall|k: int| 0 <= k < new.len() implies parents.contains(#[trigger] new[k])
        && !found.contains(new[k]) by {
        assert(new.contains(new[k]));
    }
    assert forall|a: int| 0 <= a < whole.len() implies names_of(graph).contains(
        #[trigger] whole[a],
    ) && below_by(graph, whole[a], scope, more[a]) by {
        if a < found.len() {
            assert(whole[a] == found[a]);
            assert(below_by(graph, found[a], scope, distance[a]));
        } else {
            assert(whole[a] == new[a - found.len()]);
            assert(parents.contains(whole[a]));
            assert(below_by(graph, found[i], scope, distance[i]));
            lemma_below_up(graph, whole[a], name, scope, distance[i]);
        }
    }
    assert forall|a: int, b: int|
        0 <= a < whole.len() && 0 <= b < whole.len() && a != b implies whole[a] != whole[b] by {
        let low = if a < b {
            a
        } else {
            b
        };
        let high = if a < b {
            b
        } else {
            a
        };
        if high >= found.len() {
            assert(whole[high] == new[high - found.len()]);
            if low < found.len() {
                assert(found.contains(found[low]));
            } else {
                assert(whole[low] == new[low - found.len()]);
            }
        }
    }
    assert forall|a: int, b: int| 0 <= a < b < whole.len() implies more[a] <= more[b] by {
        if b < found.len() {
            assert(distance[a] <= distance[b]);
        } else if a < found.len() {
            assert(distance[a] <= distance[i] + 1);
        }
    }
    if i + 1 < whole.len() {
        assert forall|b: int| 0 <= b < whole.len() implies #[trigger] more[b] <= more[i + 1]
            + 1 by {
            if b < found.len() {
                assert(distance[b] <= distance[i] + 1);
            }
            if i + 1 < found.len() {
                assert(distance[i] <= distance[i + 1]);
            }
        }
    }
    assert forall|a: int, p: Text| 0 <= a < i + 1 && #[trigger] is_parent(
        graph,
        p,
        whole[a],
    ) implies exists|b: int|
        0 <= b < whole.len() && #[trigger] whole[b] == p && more[b] <= more[a] + 1 by {
        assert(whole[a] == found[a]);
        if a < i {
            assert(is_parent(graph, p, found[a]));
            let b = choose|b: int|
                0 <= b < found.len() && #[trigger] found[b] == p && distance[b] <= distance[a] + 1;
            assert(whole[b] == p);
        } else {
            assert(parents.contains(p));
            if found.contains(p) {
                let b = choose|b: int| 0 <= b < found.len() && found[b] == p;
                assert(distance[b] <= distance[i] + 1);
                assert(whole[b] == p);
            } else {
                assert(new.contains(p));
                let k = choose|k: int| 0 <= k < new.len() && new[k] == p;
                assert(whole[found.len() + k] == p);
            }
        }
    }
    assert(searched(graph, scope, whole, more, i + 1));
    more
}

/// A finished search has found what is above, at its least distance.
proof fn lemma_searched_all(
    graph: Seq<ScopeView>,
    scope: Text,
    found: Seq<Text>,
    distance: Seq<nat>,
    upper: Text,
    steps: nat,
)
    requires
        graph_wf(graph),
        searched(graph, scope, found, distance, found.len() as int),
        below_by(graph, upper, scope, steps),
    ensures
        exists|b: int|
            0 <= b < found.len() && #[trigger] found[b] == upper && distance[b] <= steps,
    decreases steps,
{
    if steps == 0 {
        lemma_below_last(graph, upper, scope, steps);
        assert(found[0] == upper);
    } else {
        lemma_below_first(graph, upper, scope, steps);
        let middle = choose|middle: Text| #[trigger]
            below_by(graph, middle, scope, (steps - 1) as nat) && is_parent(graph, upper, middle);
        lemma_searched_all(graph, scope, found, distance, middle, (steps - 1) as nat);
        let a = choose|a: int|
            0 <= a < found.len() && #[trigger] found[a] == middle && distance[a] <= steps - 1;
        assert(is_parent(graph, upper, found[a]));
    }
}

/// Whether `lower` is at most `steps` steps below `upper`.
pub open spec fn within(graph: Seq<ScopeView>, upper: Text, lower: Text, steps: nat) -> bool {
    exists|fewer: nat| fewer <= steps && #[trigger] below_by(graph, upper, lower, fewer)
}

/// What a breadth-first list of a scope and what is above it holds, and in
/// which order.
pub open spec fn lists_lineage(graph: Seq<ScopeView>, scope: Text, list: Seq<Text>) -> bool {
    &&& list.no_duplicates()
    &&& forall|n: Text| #[trigger]
        list.contains(n) <==> names_of(graph).contains(scope) && (n == scope || below(
            graph,
            n,
            scope,
        ))
    &&& forall|a: int, b: int, steps: nat|
        #![trigger list[a], below_by(graph, list[b], scope, steps)]
        0 <= a < b < list.len() && below_by(graph, list[b], scope, steps) ==> within(
            graph,
            list[a],
            scope,
            steps,
        )
}

proof fn lemma_outward(
    graph: Seq<ScopeView>,
    scope: Text,
    found: Seq<Text>,
    distance: Seq<nat>,
    i: nat,
) -> (last: Seq<nat>)
    requires
        graph_wf(graph),
        searched(graph, scope, found, distance, i as int),
    ensures
        searched(
            graph,
            scope,
            outward(graph, found, i),
            last,
            outward(graph, found, i).len() as int,
        ),
    decreases graph.len() - i,
{
    lemma_distinct_within(found, names_of(graph));
    if i >= found.len() || i >= graph.len() {
        distance
    } else {
        let more = lemma_searched_step(graph, scope, found, distance, i as int);
        lemma_outward(graph, scope, found + fresh(graph, found[i as int], found), more, i + 1)
    }
}

/// The list holds the scope and exactly what is above it, and what is nearer
/// comes first.
pub proof fn law_nearest_first(graph: Seq<ScopeView>, scope: Text)
    requires
        graph_wf(graph),
    ensures
        lists_lineage(graph, scope, nearest_first(graph, scope)),
{
    let list = nearest_first(graph, scope);
    if names_of(graph).contains(scope) {
        let start = seq![scope];
        let none = seq![0nat];
        lemma_below_self(graph, scope);
        assert(searched(graph, scope, start, none, 0)) by {
            assert(start[0] == scope);
        }
        let distance = lemma_outward(graph, scope, start, none, 0);
        assert forall|n: Text| #[trigger] list.contains(n) <==> n == scope || below(
            graph,
            n,
            scope,
        ) by {
            if list.contains(n) {
                let a = choose|a: int| 0 <= a < list.len() && list[a] == n;
                assert(below_by(graph, list[a], scope, distance[a]));
                if distance[a] == 0 {
                    lemma_below_last(graph, n, scope, 0);
                }
            }
            if n == scope {
                assert(list[0] == n);
            }
            if below(graph, n, scope) {
                let steps = choose|steps: nat|
                    steps > 0 && #[trigger] below_by(graph, n, scope, steps);
                lemma_searched_all(graph, scope, list, distance, n, steps);
            }
        }
        assert forall|a: int, b: int, steps: nat|
            #![trigger list[a], below_by(graph, list[b], scope, steps)]
            0 <= a < b < list.len() && below_by(graph, list[b], scope, steps) implies within(
            graph,
            list[a],
            scope,
            steps,
        ) by {
            lemma_searched_all(graph, scope, list, distance, list[b], steps);
            let c = choose|c: int|
                0 <= c < list.len() && #[trigger] list[c] == list[b] && distance[c] <= steps;
            assert(c == b);
            assert(distance[a] <= distance[b]);
            assert(below_by(graph, list[a], scope, distance[a]));
        }
    }
}

impl ScopeGraph {
    /// The scopes `scope` reaches, `scope` itself among them, nearest first.
    pub fn ancestors_and_self(&self, scope: &str) -> (found: Vec<&Scope>)
        ensures
            names_of(ref_views(found@)) == nearest_first(self@, scope@),
            lists_lineage(self@, scope@, names_of(ref_views(found@))),
            forall|k: int| 0 <= k < found.len() ==> self@.contains(#[trigger] found@[k]@),
    {
        let ghost graph = self@;
        let size: usize = self.scopes().len();
        let mut found: Vec<&Scope> = Vec::new();
        proof {
            law_nearest_first(graph, scope@);
            lemma_lookup(graph, scope@);
        }
        match self.get(scope) {
            None => {
                proof {
                    assert(names_of(ref_views(found@)) =~= Seq::<Text>::empty());
                }
                return found;
            },
            Some(first) => {
                found.push(first);
            },
        }
        let mut i: usize = 0;
        let ghost mut distance: Seq<nat> = seq![0nat];
        proof {
            assert(names_of(ref_views(found@)) =~= seq![scope@]);
            lemma_below_self(graph, scope@);
            assert(searched(graph, scope@, seq![scope@], distance, 0)) by {
                assert(seq![scope@][0] == scope@);
            }
        }
        while i < found.len()
            invariant
                graph == self@,
                graph_wf(graph),
                size == graph.len(),
                i <= found.len(),
                found.len() <= size,
                searched(graph, scope@, names_of(ref_views(found@)), distance, i as int),
                outward(graph, names_of(ref_views(found@)), i as nat) == nearest_first(
                    graph,
                    scope@,
                ),
                forall|k: int| 0 <= k < found.len() ==> graph.contains(#[trigger] found@[k]@),
            decreases size - i,
        {
            let asked: &Scope = found[i];
            let ghost before = names_of(ref_views(found@));
            let ghost keep = |p: Text| !before.contains(p);
            let ghost parents = asked@.parents;
            proof {
                assert(before[i as int] == asked@.name);
                lemma_lookup(graph, asked@.name);
                lemma_parents_of(graph, asked@.name);
                assert(graph.contains(found@[i as int]@));
                let at = choose|at: int| 0 <= at < graph.len() && graph[at] == asked@;
                assert(graph[at].name == asked@.name);
                assert(parents_of(graph, asked@.name) == parents);
                lemma_take_all(parents);
                reveal(Seq::filter);
                assert(before + parents.take(0).filter(keep) =~= before);
            }
            let mut j: usize = 0;
            while j < asked.parents.len()
                invariant
                    graph == self@,
                    graph_wf(graph),
                    j <= asked.parents.len(),
                    parents == asked@.parents,
                    parents.no_duplicates(),
                    forall|p: Text| #[trigger] parents.contains(p) ==> names_of(graph).contains(p),
                    keep == |p: Text| !before.contains(p),
                    names_of(ref_views(found@)) == before + parents.take(j as int).filter(keep),
                    forall|k: int| 0 <= k < found.len() ==> graph.contains(#[trigger] found@[k]@),
                decreases asked.parents.len() - j,
            {
                let parent = asked.parents[j].as_str();
                let ghost now = names_of(ref_views(found@));
                proof {
                    assert(parents[j as int] == parent@);
                    lemma_filter_step(parents, keep, j as int);
                    lemma_lookup(graph, parent@);
                    assert(parents.contains(parent@));
                }
                let known = listed(&found, parent);
                proof {
                    let new = parents.take(j as int).filter(keep);
                    lemma_filter_holds(parents.take(j as int), keep);
                    if now.contains(parent@) && !before.contains(parent@) {
                        let k = choose|k: int| 0 <= k < now.len() && now[k] == parent@;
                        if k < before.len() {
                            assert(before[k] == parent@);
                        } else {
                            assert(new[k - before.len()] == parent@);
                            assert(new.contains(parent@));
                            assert(parents.take(j as int).contains(parent@));
                            let m = choose|m: int|
                                0 <= m < j && parents.take(j as int)[m] == parent@;
                            assert(parents[m] == parents[j as int]);
                        }
                    }
                    if before.contains(parent@) {
                        let k = choose|k: int| 0 <= k < before.len() && before[k] == parent@;
                        assert(now[k] == parent@);
                    }
                    assert(known == !keep(parent@));
                }
                if !known {
                    match self.get(parent) {
                        Some(next) => {
                            let ghost views = found@;
                            found.push(next);
                            proof {
                                assert(names_of(ref_views(found@)) =~= now.push(parent@));
                                assert(before + parents.take(j as int).filter(keep).push(parent@)
                                    =~= now.push(parent@));
                                let at = choose|at: int|
                                    0 <= at < graph.len() && graph[at] == next@;
                                assert forall|k: int| 0 <= k < found.len() implies graph.contains(
                                    #[trigger] found@[k]@,
                                ) by {
                                    if k < views.len() {
                                        assert(found@[k] == views[k]);
                                    }
                                }
                            }
                        },
                        None => {
                            assert(false);
                        },
                    }
                }
                j += 1;
            }
            proof {
                lemma_take_all(parents);
                let after = names_of(ref_views(found@));
                assert(after == before + fresh(graph, asked@.name, before));
                distance = lemma_searched_step(graph, scope@, before, distance, i as int);
                lemma_distinct_within(after, names_of(graph));
                assert(after.len() == found.len());
                assert(before.len() <= size);
                assert(outward(graph, before, i as nat) == outward(graph, after, (i + 1) as nat));
            }
            i += 1;
        }
        found
    }
}

/// Whether a list of scopes holds one with a name.
fn listed(scopes: &Vec<&Scope>, name: &str) -> (found: bool)
    ensures
        found == names_of(ref_views(scopes@)).contains(name@),
{
    let mut i: usize = 0;
    while i < scopes.len()
        invariant
            i <= scopes.len(),
            forall|j: int| 0 <= j < i ==> names_of(ref_views(scopes@))[j] != name@,
        decreases scopes.len() - i,
    {
        proof {
            assert(names_of(ref_views(scopes@))[i as int] == scopes@[i as int]@.name);
        }
        if same_text(scopes[i].name.as_str(), name) {
            return true;
        }
        i += 1;
    }
    false
}

/// What is below something is in the graph.
pub proof fn lemma_below_is_in(graph: Seq<ScopeView>, upper: Text, lower: Text)
    requires
        below(graph, upper, lower),
    ensures
        names_of(graph).contains(lower),
{
    let steps = choose|steps: nat| steps > 0 && #[trigger] below_by(graph, upper, lower, steps);
    lemma_below_last(graph, upper, lower, steps);
    let middle = choose|middle: Text| #[trigger]
        below_by(graph, upper, middle, (steps - 1) as nat) && is_parent(graph, middle, lower);
    let i = choose|i: int|
        0 <= i < graph.len() && (#[trigger] graph[i]).name == lower && graph[i].parents.contains(
            middle,
        );
    assert(names_of(graph)[i] == lower);
}

/// Whether the longest path from above down to `scope` has `depth` steps.
pub open spec fn is_depth(graph: Seq<ScopeView>, scope: Text, depth: nat) -> bool {
    &&& exists|upper: Text| #[trigger] below_by(graph, upper, scope, depth)
    &&& forall|upper: Text, steps: nat| #[trigger]
        below_by(graph, upper, scope, steps) ==> steps <= depth
}

/// A scope has one depth only.
pub proof fn law_depth_is_unique(graph: Seq<ScopeView>, scope: Text, one: nat, other: nat)
    requires
        is_depth(graph, scope, one),
        is_depth(graph, scope, other),
    ensures
        one == other,
{
}

/// A rank that grows along every edge of an acyclic graph, by name.
pub open spec fn height(graph: Seq<ScopeView>, name: Text) -> nat {
    let rank = choose|rank: spec_fn(int) -> nat| ranked(graph, rank);
    if names_of(graph).contains(name) {
        rank(index_of(graph, name)) + 1
    } else {
        0
    }
}

proof fn lemma_height(graph: Seq<ScopeView>, upper: Text, lower: Text)
    requires
        graph_wf(graph),
        acyclic(graph),
        is_parent(graph, upper, lower),
    ensures
        height(graph, upper) < height(graph, lower),
        names_of(graph).contains(upper),
        names_of(graph).contains(lower),
{
    let rank = choose|rank: spec_fn(int) -> nat| ranked(graph, rank);
    let l = choose|i: int|
        0 <= i < graph.len() && (#[trigger] graph[i]).name == lower && graph[i].parents.contains(
            upper,
        );
    assert(names_of(graph)[l] == lower);
    let u = choose|u: int| 0 <= u < graph.len() && names_of(graph)[u] == upper;
    lemma_index_of(graph, l);
    lemma_index_of(graph, u);
    assert(edge(graph, u, l));
}

/// No path through an acyclic graph is as long as the graph has scopes.
proof fn lemma_path_bound(graph: Seq<ScopeView>, upper: Text, lower: Text, steps: nat)
    requires
        graph_wf(graph),
        acyclic(graph),
        steps > 0,
        below_by(graph, upper, lower, steps),
    ensures
        steps < graph.len(),
{
    let path = choose|path: Seq<Text>|
        #[trigger] chain(graph, path) && path.len() == steps + 1 && path[0] == upper
            && path.last() == lower;
    assert forall|a: int, b: int| 0 <= a < b < path.len() implies height(graph, path[a]) < height(
        graph,
        path[b],
    ) by {
        lemma_climb(graph, path, a, b);
    }
    assert forall|a: int, b: int|
        0 <= a < path.len() && 0 <= b < path.len() && a != b implies path[a] != path[b] by {
        if a < b {
            assert(height(graph, path[a]) < height(graph, path[b]));
        } else {
            assert(height(graph, path[b]) < height(graph, path[a]));
        }
    }
    assert forall|a: int| 0 <= a < path.len() implies names_of(graph).contains(
        #[trigger] path[a],
    ) by {
        if a + 1 < path.len() {
            assert(is_parent(graph, path[a], path[a + 1]));
            lemma_height(graph, path[a], path[a + 1]);
        } else {
            assert(is_parent(graph, path[a - 1], path[a - 1 + 1]));
            lemma_height(graph, path[a - 1], path[a]);
        }
    }
    lemma_distinct_within(path, names_of(graph));
}

proof fn lemma_climb(graph: Seq<ScopeView>, path: Seq<Text>, a: int, b: int)
    requires
        graph_wf(graph),
        acyclic(graph),
        chain(graph, path),
        0 <= a < b < path.len(),
    ensures
        height(graph, path[a]) < height(graph, path[b]),
    decreases b - a,
{
    assert(is_parent(graph, path[a], path[a + 1]));
    lemma_height(graph, path[a], path[a + 1]);
    if a + 1 < b {
        lemma_climb(graph, path, a + 1, b);
    }
}

/// No scope of an acyclic graph is below itself.
pub proof fn lemma_not_below_itself(graph: Seq<ScopeView>, scope: Text)
    requires
        graph_wf(graph),
        acyclic(graph),
    ensures
        !below(graph, scope, scope),
{
    if below(graph, scope, scope) {
        let steps = choose|steps: nat|
            steps > 0 && #[trigger] below_by(graph, scope, scope, steps);
        let path = choose|path: Seq<Text>|
            #[trigger] chain(graph, path) && path.len() == steps + 1 && path[0] == scope
                && path.last() == scope;
        lemma_climb(graph, path, 0, steps as int);
    }
}

impl ScopeGraph {
    /// How far a scope is from a root, which is the order the DAG reads in.
    pub fn depth(&self, scope: &str) -> (depth: usize)
        ensures
            is_depth(self@, scope@, depth as nat),
        decreases height(self@, scope@),
    {
        let ghost graph = self@;
        let size: usize = self.scopes().len();
        let mut deepest: usize = 0;
        proof {
            lemma_below_self(graph, scope@);
            lemma_lookup(graph, scope@);
        }
        match self.get(scope) {
            None => {
                proof {
                    assert forall|upper: Text, steps: nat| #[trigger]
                        below_by(graph, upper, scope@, steps) implies steps <= 0 by {
                        if steps > 0 {
                            lemma_below_last(graph, upper, scope@, steps);
                            let middle = choose|middle: Text| #[trigger]
                                below_by(graph, upper, middle, (steps - 1) as nat) && is_parent(
                                    graph,
                                    middle,
                                    scope@,
                                );
                            lemma_height(graph, middle, scope@);
                        }
                    }
                }
                0
            },
            Some(found) => {
                let ghost parents = found@.parents;
                proof {
                    lemma_parents_of(graph, scope@);
                }
                let mut i: usize = 0;
                while i < found.parents.len()
                    invariant
                        graph == self@,
                        graph_wf(graph),
                        acyclic(graph),
                        size == graph.len(),
                        i <= found.parents.len(),
                        parents == found@.parents,
                        forall|p: Text| #[trigger]
                            parents.contains(p) <==> is_parent(graph, p, scope@),
                        exists|upper: Text| #[trigger]
                            below_by(graph, upper, scope@, deepest as nat),
                        forall|upper: Text, k: int, steps: nat|
                            0 <= k < i && #[trigger] below_by(
                                graph,
                                upper,
                                #[trigger] parents[k],
                                steps,
                            ) ==> steps + 1 <= deepest,
                    decreases found.parents.len() - i,
                {
                    let parent = found.parents[i].as_str();
                    proof {
                        assert(parents[i as int] == parent@);
                        assert(parents.contains(parent@));
                        lemma_height(graph, parent@, scope@);
                    }
                    let above: usize = self.depth(parent);
                    proof {
                        let upper = choose|upper: Text| #[trigger]
                            below_by(graph, upper, parent@, above as nat);
                        lemma_below_step(graph, upper, parent@, scope@, above as nat);
                        lemma_path_bound(graph, upper, scope@, above as nat + 1);
                    }
                    if above + 1 > deepest {
                        deepest = above + 1;
                    }
                    i += 1;
                }
                proof {
                    assert forall|upper: Text, steps: nat| #[trigger]
                        below_by(graph, upper, scope@, steps) implies steps <= deepest by {
                        if steps > 0 {
                            lemma_below_last(graph, upper, scope@, steps);
                            let middle = choose|middle: Text| #[trigger]
                                below_by(graph, upper, middle, (steps - 1) as nat) && is_parent(
                                    graph,
                                    middle,
                                    scope@,
                                );
                            assert(parents.contains(middle));
                            let k = choose|k: int| 0 <= k < parents.len() && parents[k] == middle;
                            assert(below_by(graph, upper, parents[k], (steps - 1) as nat));
                        }
                    }
                }
                deepest
            },
        }
    }
}

/// Where every scope was created after those it descends from, no scope is
/// above itself.
pub proof fn law_derived_graph_is_acyclic(history: HistoryView, created: spec_fn(Text) -> nat)
    requires
        ascending(bookmark_names(history.bookmarks)),
        forall|i: int, j: int|
            0 <= i < members(history).len() && 0 <= j < members(history).len() && #[trigger] descends(
                history,
                members(history)[i],
                members(history)[j],
            ) ==> created(members(history)[j].name) < created(members(history)[i].name),
    ensures
        acyclic(derived(history)),
{
    let graph = derived(history);
    let inside = members(history);
    let rank = |i: int| created(graph[i].name);
    lemma_derived_wf(history);
    assert forall|upper: int, lower: int|
        0 <= upper < graph.len() && 0 <= lower < graph.len() && #[trigger] edge(
            graph,
            upper,
            lower,
        ) implies rank(upper) < rank(lower) by {
        lemma_hangs(history, lower, upper);
        assert(descends(history, inside[lower], inside[upper]));
    }
    assert(ranked(graph, rank));
}

/// An edge of a derived graph is a scope that hangs off another.
proof fn lemma_hangs(history: HistoryView, lower: int, upper: int)
    requires
        ascending(bookmark_names(history.bookmarks)),
        0 <= upper < members(history).len(),
        0 <= lower < members(history).len(),
    ensures
        edge(derived(history), upper, lower) == hangs_off(
            history,
            members(history)[lower],
            members(history)[upper],
        ),
{
    let inside = members(history);
    let graph = derived(history);
    lemma_derived_wf(history);
    let keep = |other: BookmarkView| hangs_off(history, inside[lower], other);
    let kept = inside.filter(keep);
    lemma_filter_holds(inside, keep);
    lemma_ascending_no_duplicates(names_of(graph));
    assert(graph[lower].parents == bookmark_names(kept));
    if edge(graph, upper, lower) {
        let k = choose|k: int| 0 <= k < kept.len() && bookmark_names(kept)[k] == inside[upper].name;
        assert(kept.contains(kept[k]));
        let m = choose|m: int| 0 <= m < inside.len() && inside[m] == kept[k];
        assert(names_of(graph)[m] == names_of(graph)[upper]);
        assert(keep(inside[upper]));
    }
    if keep(inside[upper]) {
        assert(kept.contains(inside[upper]));
        let k = choose|k: int| 0 <= k < kept.len() && kept[k] == inside[upper];
        assert(bookmark_names(kept)[k] == inside[upper].name);
    }
}

/// Leaving out the edges that a nearer scope covers loses nothing: where every
/// scope was created after those it descends from, each scope is below every
/// scope it descends from.
pub proof fn law_descent_is_kept(
    history: HistoryView,
    created: spec_fn(Text) -> nat,
    lower: int,
    upper: int,
)
    requires
        ascending(bookmark_names(history.bookmarks)),
        forall|i: int, j: int|
            0 <= i < members(history).len() && 0 <= j < members(history).len() && #[trigger] descends(
                history,
                members(history)[i],
                members(history)[j],
            ) ==> created(members(history)[j].name) < created(members(history)[i].name),
        0 <= upper < members(history).len(),
        0 <= lower < members(history).len(),
        descends(history, members(history)[lower], members(history)[upper]),
    ensures
        below(derived(history), members(history)[upper].name, members(history)[lower].name),
    decreases created(members(history)[lower].name) - created(members(history)[upper].name),
{
    let graph = derived(history);
    let inside = members(history);
    lemma_derived_wf(history);
    if hangs_off(history, inside[lower], inside[upper]) {
        lemma_hangs(history, lower, upper);
        lemma_edge_is_parent(graph, upper, lower);
        lemma_below_self(graph, inside[upper].name);
        lemma_below_step(graph, inside[upper].name, inside[upper].name, inside[lower].name, 0);
    } else {
        let k = choose|k: int|
            0 <= k < inside.len() && descends(history, inside[lower], #[trigger] inside[k])
                && descends(history, inside[k], inside[upper]);
        law_descent_is_kept(history, created, k, upper);
        law_descent_is_kept(history, created, lower, k);
        lemma_below_through(graph, inside[upper].name, inside[k].name, inside[lower].name);
    }
}

/// What is below something below a scope is below the scope.
pub proof fn lemma_below_through(graph: Seq<ScopeView>, upper: Text, middle: Text, lower: Text)
    requires
        below(graph, upper, middle),
        below(graph, middle, lower),
    ensures
        below(graph, upper, lower),
{
    let first = choose|steps: nat| steps > 0 && #[trigger] below_by(graph, upper, middle, steps);
    let second = choose|steps: nat| steps > 0 && #[trigger] below_by(graph, middle, lower, steps);
    lemma_below_join(graph, upper, middle, lower, first, second);
}

proof fn lemma_below_join(
    graph: Seq<ScopeView>,
    upper: Text,
    middle: Text,
    lower: Text,
    first: nat,
    second: nat,
)
    requires
        below_by(graph, upper, middle, first),
        below_by(graph, middle, lower, second),
        first > 0,
    ensures
        below_by(graph, upper, lower, first + second),
        below(graph, upper, lower),
    decreases second,
{
    lemma_below_last(graph, middle, lower, second);
    if second > 0 {
        let last = choose|last: Text| #[trigger]
            below_by(graph, middle, last, (second - 1) as nat) && is_parent(graph, last, lower);
        lemma_below_join(graph, upper, middle, last, first, (second - 1) as nat);
        lemma_below_step(graph, upper, last, lower, (first + second - 1) as nat);
    }
}

} // verus!
