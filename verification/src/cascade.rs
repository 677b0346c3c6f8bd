//! The cascade: a change on one scope, merged into every scope below it.
use vstd::prelude::*;
use vstd::string::*;
use crate::converge::{checkpoint, checkpoint_of, checkpoint_view, is_covering};
use crate::error::{is_not_in_repo, DotsyncError};
use crate::repo::Heads;
use crate::lineage::{lemma_below_is_in, lemma_not_below_itself};
use crate::scope_graph::{
    acyclic, below, below_by, cascade_order, graph_wf, is_parent, lemma_below_last,
    lemma_lookup, lookup, names_of, ref_views, Scope, ScopeGraph, ScopeView,
};
use crate::seqs::{lemma_filter_holds, lemma_filter_step, lemma_take_all};
use crate::text::{cat2, lemma_texts_push, same_text, texts, Text};

verus! {

/// A cascade that is to run: from which scope, and how its merges are described.
pub struct CascadeCommand {
    pub root_scope: String,
    pub description: String,
}

impl CascadeCommand {
    /// The cascade that follows a change on a scope.
    pub fn from_scope(scope: &str) -> (command: CascadeCommand)
        ensures
            command.root_scope@ == scope@,
            command.description@ == "dotsync: cascade from "@ + scope@,
    {
        CascadeCommand {
            root_scope: scope.to_owned(),
            description: cat2("dotsync: cascade from ", scope),
        }
    }
}

/// One merge of a cascade: a scope, and the parents whose heads go into it.
pub struct CascadeStep {
    pub scope: String,
    pub parent_scopes: Vec<String>,
}

/// A step as contracts see it.
pub struct CascadeStepView {
    pub scope: Text,
    pub parent_scopes: Seq<Text>,
}

impl View for CascadeStep {
    type V = CascadeStepView;

    open spec fn view(&self) -> CascadeStepView {
        CascadeStepView { scope: self.scope@, parent_scopes: texts(self.parent_scopes@) }
    }
}

/// The views of some steps.
pub open spec fn step_views(steps: Seq<CascadeStep>) -> Seq<CascadeStepView> {
    steps.map_values(|s: CascadeStep| s@)
}

/// The scopes that have a head, and where it is.
pub struct ScopeHeads {
    pub heads: Vec<(String, String)>,
}

impl View for ScopeHeads {
    type V = Seq<(Text, Text)>;

    open spec fn view(&self) -> Seq<(Text, Text)> {
        checkpoint_view(self.heads@)
    }
}

/// The head of a scope, if it has one.
pub open spec fn id_of(heads: Seq<(Text, Text)>, scope: Text) -> Option<Text>
    decreases heads.len(),
{
    if heads.len() == 0 {
        None
    } else if heads[0].0 == scope {
        Some(heads[0].1)
    } else {
        id_of(heads.skip(1), scope)
    }
}

impl ScopeHeads {
    /// The scopes of a graph whose head is one commit.
    pub fn load_existing(graph: &ScopeGraph, heads: &Heads) -> (found: ScopeHeads)
        ensures
            found@ == checkpoint_of(graph@, heads@),
    {
        ScopeHeads { heads: checkpoint(graph, heads) }
    }

    /// Where a scope stands in the list.
    fn position(&self, scope: &str) -> (found: Option<usize>)
        ensures
            match found {
                Some(i) => i < self.heads@.len() && id_of(self@, scope@) == Some(
                    self.heads@[i as int].1@,
                ) && self.heads@[i as int].0@ == scope@ && forall|j: int|
                    0 <= j < i ==> (#[trigger] self.heads@[j]).0@ != scope@,
                None => id_of(self@, scope@) is None && forall|j: int|
                    0 <= j < self.heads@.len() ==> (#[trigger] self.heads@[j]).0@ != scope@,
            },
    {
        let mut i: usize = 0;
        proof {
            assert(self@.skip(0) =~= self@);
        }
        while i < self.heads.len()
            invariant
                i <= self.heads.len(),
                id_of(self@, scope@) == id_of(self@.skip(i as int), scope@),
                forall|j: int| 0 <= j < i ==> (#[trigger] self.heads@[j]).0@ != scope@,
            decreases self.heads.len() - i,
        {
            proof {
                assert(self@.skip(i as int)[0] == self@[i as int]);
                assert(self@.skip(i as int).skip(1) =~= self@.skip(i + 1));
            }
            if same_text(self.heads[i].0.as_str(), scope) {
                return Some(i);
            }
            i += 1;
        }
        None
    }

    /// Whether a scope has a head.
    pub fn contains(&self, scope: &str) -> (found: bool)
        ensures
            found == (id_of(self@, scope@) is Some),
    {
        self.position(scope).is_some()
    }

    /// The head of a scope that has to have one.
    pub fn require(&self, scope: &str) -> (found: Result<String, DotsyncError>)
        ensures
            match found {
                Ok(id) => id_of(self@, scope@) == Some(id@),
                Err(error) => id_of(self@, scope@) is None && is_not_in_repo(error, scope@),
            },
    {
        match self.position(scope) {
            Some(i) => Ok(self.heads[i].1.clone()),
            None => Err(DotsyncError::ScopeNotInRepo { scope: scope.to_owned() }),
        }
    }

    /// Moves the head of a scope.
    pub fn update(&mut self, scope: String, id: String)
        ensures
            forall|s: Text| #[trigger]
                id_of(final(self)@, s) == if s == scope@ {
                    Some(id@)
                } else {
                    id_of(old(self)@, s)
                },
    {
        let ghost before = self@;
        match self.position(scope.as_str()) {
            Some(i) => {
                let ghost entry = (scope@, id@);
                self.heads.set(i, (scope, id));
                proof {
                    assert(self@ =~= before.update(i as int, entry));
                    assert forall|s: Text| #[trigger] id_of(self@, s) == if s == scope@ {
                        Some(id@)
                    } else {
                        id_of(before, s)
                    } by {
                        lemma_updated(before, i as int, entry, s);
                    }
                }
            },
            None => {
                let ghost entry = (scope@, id@);
                self.heads.push((scope, id));
                proof {
                    assert(self@ =~= before.push(entry));
                    assert forall|s: Text| #[trigger] id_of(self@, s) == if s == scope@ {
                        Some(id@)
                    } else {
                        id_of(before, s)
                    } by {
                        lemma_appended(before, entry, s);
                    }
                }
            },
        }
    }
}

proof fn lemma_updated(heads: Seq<(Text, Text)>, at: int, entry: (Text, Text), scope: Text)
    requires
        0 <= at < heads.len(),
        heads[at].0 == entry.0,
        forall|j: int| 0 <= j < at ==> (#[trigger] heads[j]).0 != entry.0,
    ensures
        id_of(heads.update(at, entry), scope) == if scope == entry.0 {
            Some(entry.1)
        } else {
            id_of(heads, scope)
        },
    decreases at,
{
    let after = heads.update(at, entry);
    if at == 0 {
        assert(after.skip(1) =~= heads.skip(1));
    } else {
        assert(after.skip(1) =~= heads.skip(1).update(at - 1, entry));
        assert(after[0] == heads[0]);
        assert forall|j: int| 0 <= j < at - 1 implies (#[trigger] heads.skip(1)[j]).0 != entry.0 by {
            assert(heads.skip(1)[j] == heads[j + 1]);
        }
        lemma_updated(heads.skip(1), at - 1, entry, scope);
    }
}

proof fn lemma_appended(heads: Seq<(Text, Text)>, entry: (Text, Text), scope: Text)
    requires
        forall|j: int| 0 <= j < heads.len() ==> (#[trigger] heads[j]).0 != entry.0,
    ensures
        id_of(heads.push(entry), scope) == if scope == entry.0 {
            Some(entry.1)
        } else {
            id_of(heads, scope)
        },
    decreases heads.len(),
{
    let after = heads.push(entry);
    if heads.len() == 0 {
        assert(after[0] == entry);
        assert(after.skip(1) =~= heads);
    } else {
        assert(after[0] == heads[0]);
        assert(after.skip(1) =~= heads.skip(1).push(entry));
        assert forall|j: int| 0 <= j < heads.skip(1).len() implies (#[trigger] heads.skip(1)[j]).0
            != entry.0 by {
            assert(heads.skip(1)[j] == heads[j + 1]);
        }
        lemma_appended(heads.skip(1), entry, scope);
    }
}

/// The parents of a scope that have a head.
pub open spec fn headed_parents(
    graph: Seq<ScopeView>,
    heads: Seq<(Text, Text)>,
    scope: Text,
) -> Seq<Text> {
    match lookup(graph, scope) {
        Some(found) => found.parents.filter(|p: Text| id_of(heads, p) is Some),
        None => Seq::empty(),
    }
}

/// Whether a cascade merges anything into a scope.
pub open spec fn is_cascaded(
    graph: Seq<ScopeView>,
    heads: Seq<(Text, Text)>,
    scope: Text,
) -> bool {
    id_of(heads, scope) is Some && headed_parents(graph, heads, scope).len() > 0
}

/// The merges of a cascade through scopes in order.
pub open spec fn planned(
    graph: Seq<ScopeView>,
    heads: Seq<(Text, Text)>,
    order: Seq<Text>,
) -> Seq<CascadeStepView> {
    order.filter(|s: Text| is_cascaded(graph, heads, s)).map_values(
        |s: Text|
            CascadeStepView { scope: s, parent_scopes: headed_parents(graph, heads, s) },
    )
}

/// Whether an order is that of everything below a scope, as a cascade runs.
pub open spec fn is_descent(graph: Seq<ScopeView>, scope: Text, order: Seq<Text>) -> bool {
    &&& cascade_order(graph, order)
    &&& forall|n: Text| #[trigger] order.contains(n) <==> below(graph, scope, n)
}

fn parents_with_heads(scope: &Scope, heads: &ScopeHeads) -> (parents: Vec<String>)
    ensures
        texts(parents@) == scope@.parents.filter(|p: Text| id_of(heads@, p) is Some),
{
    let ghost all = scope@.parents;
    let ghost keep = |p: Text| id_of(heads@, p) is Some;
    let mut parents: Vec<String> = Vec::new();
    let mut i: usize = 0;
    proof {
        lemma_take_all(all);
        reveal(Seq::filter);
        assert(texts(parents@) =~= Seq::<Text>::empty());
    }
    while i < scope.parents.len()
        invariant
            i <= scope.parents.len(),
            all == scope@.parents,
            keep == |p: Text| id_of(heads@, p) is Some,
            texts(parents@) == all.take(i as int).filter(keep),
        decreases scope.parents.len() - i,
    {
        proof {
            lemma_filter_step(all, keep, i as int);
            assert(all[i as int] == scope.parents@[i as int]@);
        }
        if heads.contains(scope.parents[i].as_str()) {
            let ghost before = parents@;
            parents.push(scope.parents[i].clone());
            proof {
                lemma_texts_push(before, parents@.last());
            }
        }
        i += 1;
    }
    proof {
        lemma_take_all(all);
    }
    parents
}

/// Whether some merges are those that a change on a scope cascades through.
pub open spec fn is_plan(
    graph: Seq<ScopeView>,
    heads: Seq<(Text, Text)>,
    scope: Text,
    steps: Seq<CascadeStepView>,
) -> bool {
    exists|order: Seq<Text>|
        is_descent(graph, scope, order) && steps == #[trigger] planned(graph, heads, order)
}

/// The merges that a change on a scope cascades through: every scope below it
/// that has a head and a parent with one, parents before children.
pub fn build_cascade_plan(
    graph: &ScopeGraph,
    heads: &ScopeHeads,
    command: &CascadeCommand,
) -> (steps: Vec<CascadeStep>)
    ensures
        is_plan(graph@, heads@, command.root_scope@, step_views(steps@)),
{
    let scopes = graph.descendants_in_cascade_order(command.root_scope.as_str());
    let whole = graph.scopes();
    let ghost order = names_of(ref_views(scopes@));
    let ghost keep = |s: Text| is_cascaded(graph@, heads@, s);
    let ghost shown = |s: Text| step_of(graph@, heads@, s);
    let mut steps: Vec<CascadeStep> = Vec::new();
    let mut i: usize = 0;
    proof {
        lemma_take_all(order);
        reveal(Seq::filter);
        assert(step_views(steps@) =~= order.take(0).filter(keep).map_values(shown));
    }
    while i < scopes.len()
        invariant
            i <= scopes.len(),
            graph_wf(graph@),
            order == names_of(ref_views(scopes@)),
            forall|k: int| 0 <= k < scopes.len() ==> graph@.contains(#[trigger] scopes@[k]@),
            keep == |s: Text| is_cascaded(graph@, heads@, s),
            shown == |s: Text| step_of(graph@, heads@, s),
            step_views(steps@) == order.take(i as int).filter(keep).map_values(shown),
        decreases scopes.len() - i,
    {
        let scope: &Scope = scopes[i];
        proof {
            lemma_filter_step(order, keep, i as int);
            assert(order[i as int] == scope@.name);
            lemma_lookup(graph@, scope@.name);
            assert(graph@.contains(scopes@[i as int]@));
            let at = choose|at: int| 0 <= at < graph@.len() && graph@[at] == scope@;
            assert(graph@[at].name == scope@.name);
            assert(lookup(graph@, scope@.name) == Some(scope@));
        }
        if heads.contains(scope.name.as_str()) {
            let parent_scopes = parents_with_heads(scope, heads);
            proof {
                assert(texts(parent_scopes@).len() == parent_scopes.len());
            }
            if !parent_scopes.is_empty() {
                let ghost before = steps@;
                steps.push(CascadeStep { scope: scope.name.clone(), parent_scopes });
                proof {
                    assert(step_views(steps@) =~= step_views(before).push(shown(scope@.name)));
                    assert(order.take(i + 1).filter(keep).map_values(shown) =~= order.take(
                        i as int,
                    ).filter(keep).map_values(shown).push(shown(scope@.name)));
                }
            }
        }
        i += 1;
    }
    proof {
        lemma_take_all(order);
        assert(planned(graph@, heads@, order) =~= order.filter(keep).map_values(shown));
        assert(is_descent(graph@, command.root_scope@, order));
    }
    steps
}

/// The merge of a cascade into a scope.
pub open spec fn step_of(
    graph: Seq<ScopeView>,
    heads: Seq<(Text, Text)>,
    scope: Text,
) -> CascadeStepView {
    CascadeStepView { scope, parent_scopes: headed_parents(graph, heads, scope) }
}

/// A change on a scope has one plan only.
pub proof fn law_plan_is_unique(
    graph: Seq<ScopeView>,
    heads: Seq<(Text, Text)>,
    scope: Text,
    one: Seq<Text>,
    other: Seq<Text>,
)
    requires
        is_descent(graph, scope, one),
        is_descent(graph, scope, other),
    ensures
        planned(graph, heads, one) == planned(graph, heads, other),
{
    crate::scope_graph::law_cascade_order_is_unique(graph, one, other);
}

proof fn lemma_all_kept<A>(items: Seq<A>, keep: spec_fn(A) -> bool)
    requires
        forall|i: int| 0 <= i < items.len() ==> keep(#[trigger] items[i]),
    ensures
        items.filter(keep) == items,
    decreases items.len(),
{
    reveal(Seq::filter);
    if items.len() > 0 {
        let front = items.drop_last();
        assert forall|i: int| 0 <= i < front.len() implies keep(#[trigger] front[i]) by {
            assert(front[i] == items[i]);
        }
        lemma_all_kept(front, keep);
        assert(keep(items[items.len() - 1]));
    }
    assert(items.filter(keep) =~= items);
}

/// A change on a scope reaches every scope below it: where every scope has a
/// head, the plan merges into each of them, and what it merges there is the
/// changed scope itself or a scope that an earlier merge carried the change
/// into.
pub proof fn law_a_change_reaches_every_descendant(
    graph: Seq<ScopeView>,
    heads: Seq<(Text, Text)>,
    scope: Text,
    order: Seq<Text>,
    lower: Text,
)
    requires
        graph_wf(graph),
        is_descent(graph, scope, order),
        below(graph, scope, lower),
        forall|n: Text| #[trigger] names_of(graph).contains(n) ==> id_of(heads, n) is Some,
    ensures
        exists|k: int, upper: Text|
            0 <= k < planned(graph, heads, order).len() && (#[trigger] planned(
                graph,
                heads,
                order,
            )[k]).scope == lower && #[trigger] planned(graph, heads, order)[k].parent_scopes.contains(
                upper,
            ) && (upper == scope || exists|i: int|
                0 <= i < k && (#[trigger] planned(graph, heads, order)[i]).scope == upper),
{
    let keep = |s: Text| is_cascaded(graph, heads, s);
    assert forall|i: int| 0 <= i < order.len() implies keep(#[trigger] order[i]) by {
        assert(order.contains(order[i]));
        lemma_has_a_headed_parent(graph, heads, scope, order[i]);
    }
    lemma_all_kept(order, keep);
    let steps = planned(graph, heads, order);
    assert(order.contains(lower));
    let k = choose|k: int| 0 <= k < order.len() && order[k] == lower;
    assert(steps[k].scope == lower);
    lemma_has_a_headed_parent(graph, heads, scope, lower);
    let upper = choose|upper: Text|
        #[trigger] headed_parents(graph, heads, lower).contains(upper) && is_parent(
            graph,
            upper,
            lower,
        ) && (upper == scope || below(graph, scope, upper));
    assert(steps[k].parent_scopes.contains(upper));
    if upper != scope {
        assert(order.contains(upper));
        let i = choose|i: int| 0 <= i < order.len() && order[i] == upper;
        crate::scope_graph::law_parents_before_children(graph, order);
        assert(is_parent(graph, order[i], order[k]));
        assert(steps[i].scope == upper);
    }
}

proof fn lemma_has_a_headed_parent(
    graph: Seq<ScopeView>,
    heads: Seq<(Text, Text)>,
    scope: Text,
    lower: Text,
)
    requires
        graph_wf(graph),
        below(graph, scope, lower),
        forall|n: Text| #[trigger] names_of(graph).contains(n) ==> id_of(heads, n) is Some,
    ensures
        is_cascaded(graph, heads, lower),
        exists|upper: Text|
            #[trigger] headed_parents(graph, heads, lower).contains(upper) && is_parent(
                graph,
                upper,
                lower,
            ) && (upper == scope || below(graph, scope, upper)),
{
    let steps = choose|steps: nat| steps > 0 && #[trigger] below_by(graph, scope, lower, steps);
    lemma_below_last(graph, scope, lower, steps);
    let upper = choose|middle: Text| #[trigger]
        below_by(graph, scope, middle, (steps - 1) as nat) && is_parent(graph, middle, lower);
    lemma_below_last(graph, scope, upper, (steps - 1) as nat);
    let at = choose|at: int|
        0 <= at < graph.len() && (#[trigger] graph[at]).name == lower && graph[at].parents.contains(
            upper,
        );
    lemma_lookup(graph, lower);
    lemma_below_is_in(graph, scope, lower);
    assert(graph[at].parents.contains(upper));
    let keep = |p: Text| id_of(heads, p) is Some;
    lemma_filter_holds(graph[at].parents, keep);
    assert(headed_parents(graph, heads, lower).contains(upper));
    assert(id_of(heads, lower) is Some);
}

/// Whether a cascade goes through `course`, where the heads stand, as it writes
/// the merges `ids`, one for each step.
pub open spec fn is_cascade(
    steps: Seq<CascadeStepView>,
    course: Seq<Seq<(Text, Text)>>,
    ids: Seq<Text>,
) -> bool {
    &&& ids.len() == steps.len()
    &&& course.len() == steps.len() + 1
    &&& forall|i: int, s: Text|
        0 <= i < steps.len() ==> #[trigger] id_of(course[i + 1], s) == if s == steps[i].scope {
            Some(ids[i])
        } else {
            id_of(course[i], s)
        }
}

/// Whether each merge covers what it merged.
pub open spec fn merges_cover(
    covers: spec_fn(Text, Text) -> bool,
    steps: Seq<CascadeStepView>,
    course: Seq<Seq<(Text, Text)>>,
    ids: Seq<Text>,
) -> bool {
    forall|i: int, s: Text|
        0 <= i < steps.len() && #[trigger] merged_scopes(steps[i]).contains(s) && id_of(
            course[i],
            s,
        ) is Some ==> covers(ids[i], id_of(course[i], s)->0)
}

/// A commit on a scope reaches every scope below it: once the cascade is through,
/// the head of each of them covers the commit. No other scope has moved.
pub proof fn law_a_cascade_carries_the_commit(
    graph: Seq<ScopeView>,
    covers: spec_fn(Text, Text) -> bool,
    scope: Text,
    commit: Text,
    order: Seq<Text>,
    course: Seq<Seq<(Text, Text)>>,
    ids: Seq<Text>,
    other: Text,
)
    requires
        graph_wf(graph),
        acyclic(graph),
        is_covering(covers),
        is_descent(graph, scope, order),
        forall|n: Text| #[trigger] names_of(graph).contains(n) ==> id_of(course[0], n) is Some,
        id_of(course[0], scope) == Some(commit),
        is_cascade(planned(graph, course[0], order), course, ids),
        merges_cover(covers, planned(graph, course[0], order), course, ids),
    ensures
        below(graph, scope, other) ==> id_of(course.last(), other) is Some && covers(
            id_of(course.last(), other)->0,
            commit,
        ),
        !below(graph, scope, other) ==> id_of(course.last(), other) == id_of(course[0], other),
{
    let steps = planned(graph, course[0], order);
    lemma_all_planned(graph, course[0], scope, order);
    lemma_carried(graph, covers, scope, commit, order, course, ids, steps.len() as int);
    if below(graph, scope, other) {
        assert(order.contains(other));
        let k = choose|k: int| 0 <= k < order.len() && order[k] == other;
        assert(steps[k].scope == other);
    } else {
        assert(!order.contains(other));
    }
}

proof fn lemma_all_planned(
    graph: Seq<ScopeView>,
    heads: Seq<(Text, Text)>,
    scope: Text,
    order: Seq<Text>,
)
    requires
        graph_wf(graph),
        is_descent(graph, scope, order),
        forall|n: Text| #[trigger] names_of(graph).contains(n) ==> id_of(heads, n) is Some,
    ensures
        planned(graph, heads, order).len() == order.len(),
        forall|k: int|
            0 <= k < order.len() ==> (#[trigger] planned(graph, heads, order)[k]) == step_of(
                graph,
                heads,
                order[k],
            ),
{
    let keep = |s: Text| is_cascaded(graph, heads, s);
    assert forall|i: int| 0 <= i < order.len() implies keep(#[trigger] order[i]) by {
        assert(order.contains(order[i]));
        lemma_has_a_headed_parent(graph, heads, scope, order[i]);
    }
    lemma_all_kept(order, keep);
}

proof fn lemma_carried(
    graph: Seq<ScopeView>,
    covers: spec_fn(Text, Text) -> bool,
    scope: Text,
    commit: Text,
    order: Seq<Text>,
    course: Seq<Seq<(Text, Text)>>,
    ids: Seq<Text>,
    count: int,
)
    requires
        graph_wf(graph),
        acyclic(graph),
        is_covering(covers),
        is_descent(graph, scope, order),
        forall|n: Text| #[trigger] names_of(graph).contains(n) ==> id_of(course[0], n) is Some,
        id_of(course[0], scope) == Some(commit),
        is_cascade(planned(graph, course[0], order), course, ids),
        merges_cover(covers, planned(graph, course[0], order), course, ids),
        0 <= count <= order.len(),
    ensures
        id_of(course[count], scope) == Some(commit),
        forall|k: int|
            0 <= k < count ==> id_of(course[count], #[trigger] order[k]) is Some && covers(
                id_of(course[count], order[k])->0,
                commit,
            ),
        forall|s: Text|
            !order.contains(s) ==> #[trigger] id_of(course[count], s) == id_of(course[0], s),
    decreases count,
{
    lemma_not_below_itself(graph, scope);
    assert(!order.contains(scope));
    if count > 0 {
        let i = count - 1;
        let steps = planned(graph, course[0], order);
        lemma_carried(graph, covers, scope, commit, order, course, ids, i);
        lemma_all_planned(graph, course[0], scope, order);
        crate::scope_graph::law_parents_before_children(graph, order);
        let lower = order[i];
        assert(steps[i] == step_of(graph, course[0], lower));
        assert(order.contains(lower));
        lemma_has_a_headed_parent(graph, course[0], scope, lower);
        let upper = choose|upper: Text|
            #[trigger] headed_parents(graph, course[0], lower).contains(upper) && is_parent(
                graph,
                upper,
                lower,
            ) && (upper == scope || below(graph, scope, upper));
        let parents = steps[i].parent_scopes;
        let at = choose|at: int| 0 <= at < parents.len() && parents[at] == upper;
        assert(merged_scopes(steps[i])[at + 1] == upper);
        assert(merged_scopes(steps[i]).contains(upper));
        if upper != scope {
            assert(order.contains(upper));
            let k = choose|k: int| 0 <= k < order.len() && order[k] == upper;
            assert(is_parent(graph, order[k], order[i]));
            assert(id_of(course[i], order[k]) is Some);
        }
        let above = id_of(course[i], upper)->0;
        assert(covers(above, commit));
        assert(covers(ids[i], above));
        assert(covers(ids[i], commit));
        assert forall|k: int| 0 <= k < count implies id_of(course[count], #[trigger] order[k]) is Some
            && covers(id_of(course[count], order[k])->0, commit) by {
            assert(id_of(course[i + 1], order[k]) == if order[k] == steps[i].scope {
                Some(ids[i])
            } else {
                id_of(course[i], order[k])
            });
        }
        assert forall|s: Text| !order.contains(s) implies #[trigger] id_of(course[count], s)
            == id_of(course[0], s) by {
            assert(id_of(course[i + 1], s) == if s == steps[i].scope {
                Some(ids[i])
            } else {
                id_of(course[i], s)
            });
        }
        assert(id_of(course[i + 1], scope) == id_of(course[count], scope));
    }
}

/// The scopes whose heads a step merges: its own first, then its parents.
pub open spec fn merged_scopes(step: CascadeStepView) -> Seq<Text> {
    seq![step.scope] + step.parent_scopes
}

/// The commits that a step merges.
pub open spec fn merge_parents(
    heads: Seq<(Text, Text)>,
    step: CascadeStepView,
) -> Seq<Option<Text>> {
    merged_scopes(step).map_values(|s: Text| id_of(heads, s))
}

/// Whether an error says that the first scope of a step without a head is not in
/// the repo.
pub open spec fn names_first_headless(
    error: DotsyncError,
    heads: Seq<(Text, Text)>,
    step: CascadeStepView,
) -> bool {
    exists|k: int|
        0 <= k < merged_scopes(step).len() && id_of(
            heads,
            #[trigger] merged_scopes(step)[k],
        ) is None && is_not_in_repo(error, merged_scopes(step)[k]) && forall|j: int|
            0 <= j < k ==> id_of(heads, #[trigger] merged_scopes(step)[j]) is Some
}

/// The step a cascade comes to from a given one: steps that merge nothing into a
/// scope with a head are passed over.
pub open spec fn step_reached(
    steps: Seq<CascadeStepView>,
    heads: Seq<(Text, Text)>,
    from: nat,
) -> nat
    decreases steps.len() - from,
{
    if from < steps.len() && steps[from as int].parent_scopes.len() == 0 && id_of(
        heads,
        steps[from as int].scope,
    ) is Some {
        step_reached(steps, heads, from + 1)
    } else {
        from
    }
}

proof fn lemma_merge_parents(heads: Seq<(Text, Text)>, step: CascadeStepView)
    ensures
        merge_parents(heads, step).len() == 1 + step.parent_scopes.len(),
        merge_parents(heads, step)[0] == id_of(heads, step.scope),
        merged_scopes(step)[0] == step.scope,
        merged_scopes(step).len() == 1 + step.parent_scopes.len(),
{
}

/// The commits that a step merges, or the first scope among them that has no
/// head.
pub fn parent_commit_ids(heads: &ScopeHeads, step: &CascadeStep) -> (found: Result<
    Vec<String>,
    DotsyncError,
>)
    ensures
        match found {
            Ok(ids) => texts(ids@).map_values(|id: Text| Some(id)) == merge_parents(heads@, step@),
            Err(error) => names_first_headless(error, heads@, step@),
        },
{
    let ghost scopes = merged_scopes(step@);
    let mut ids: Vec<String> = Vec::new();
    match heads.require(step.scope.as_str()) {
        Ok(id) => {
            ids.push(id);
        },
        Err(error) => {
            proof {
                assert(scopes[0] == step@.scope);
            }
            return Err(error);
        },
    }
    let mut i: usize = 0;
    while i < step.parent_scopes.len()
        invariant
            i <= step.parent_scopes.len(),
            scopes == merged_scopes(step@),
            ids.len() == i + 1,
            forall|k: int|
                0 <= k <= i ==> id_of(heads@, #[trigger] scopes[k]) == Some(ids@[k]@),
        decreases step.parent_scopes.len() - i,
    {
        let parent = step.parent_scopes[i].as_str();
        proof {
            assert(scopes[i + 1] == step@.parent_scopes[i as int]);
            assert(step@.parent_scopes[i as int] == parent@);
        }
        match heads.require(parent) {
            Ok(id) => {
                ids.push(id);
            },
            Err(error) => {
                proof {
                    assert(id_of(heads@, scopes[i + 1]) is None);
                    assert forall|j: int| 0 <= j < i + 1 implies id_of(
                        heads@,
                        #[trigger] scopes[j],
                    ) is Some by {}
                }
                return Err(error);
            },
        }
        i += 1;
    }
    proof {
        let shown = texts(ids@).map_values(|id: Text| Some(id));
        let wanted = merge_parents(heads@, step@);
        assert forall|k: int| 0 <= k < wanted.len() implies shown[k] == wanted[k] by {
            assert(id_of(heads@, scopes[k]) == Some(ids@[k]@));
            if k > 0 {
                assert(scopes[k] == step@.parent_scopes[k - 1]);
            }
        }
        assert(shown =~= wanted);
    }
    Ok(ids)
}

/// How a cascade ended.
pub enum CascadeOutcome {
    /// Every merge was written, into these scopes.
    Completed { scopes: Vec<String> },
    /// A merge holds a file that two sides changed differently.
    Paused { scope: String, conflicted_files: Vec<String> },
}

/// A cascade as it runs: the merges, how many of them are done, where the heads
/// are now, and into which scopes a merge was written.
pub struct CascadeRun {
    pub steps: Vec<CascadeStep>,
    pub next: usize,
    pub heads: ScopeHeads,
    pub completed: Vec<String>,
}

/// What a cascade has to do next.
pub enum CascadeMerge {
    /// Merge these commits into a scope.
    Merge { scope: String, parents: Vec<String> },
    /// Nothing: every merge is done.
    Finished,
}

/// What a cascade comes to from one of its steps: the step it reaches, and what
/// is to be done there.
pub open spec fn comes_to(
    steps: Seq<CascadeStepView>,
    heads: Seq<(Text, Text)>,
    from: nat,
    at: nat,
    merge: Result<CascadeMerge, DotsyncError>,
) -> bool {
    &&& at == step_reached(steps, heads, from)
    &&& match merge {
        Ok(CascadeMerge::Finished) => at == steps.len(),
        Ok(CascadeMerge::Merge { scope, parents }) => {
            &&& at < steps.len()
            &&& steps[at as int].parent_scopes.len() > 0
            &&& scope@ == steps[at as int].scope
            &&& texts(parents@).map_values(|id: Text| Some(id)) == merge_parents(
                heads,
                steps[at as int],
            )
        },
        Err(error) => at < steps.len() && names_first_headless(error, heads, steps[at as int]),
    }
}

impl CascadeRun {
    /// A cascade that has done nothing yet.
    pub fn start(steps: Vec<CascadeStep>, heads: ScopeHeads) -> (run: CascadeRun)
        ensures
            run.steps == steps,
            run.heads == heads,
            run.next == 0,
            run.completed@.len() == 0,
    {
        CascadeRun { steps, next: 0, heads, completed: Vec::new() }
    }

    /// What the cascade has to do next. A step that no other scope goes into is
    /// passed over, once its own scope is known to have a head.
    pub fn next_merge(&mut self) -> (merge: Result<CascadeMerge, DotsyncError>)
        requires
            old(self).next <= old(self).steps@.len(),
        ensures
            final(self).steps == old(self).steps,
            final(self).heads == old(self).heads,
            final(self).completed == old(self).completed,
            comes_to(
                step_views(old(self).steps@),
                old(self).heads@,
                old(self).next as nat,
                final(self).next as nat,
                merge,
            ),
    {
        let ghost before = *self;
        let ghost views = step_views(self.steps@);
        while self.next < self.steps.len()
            invariant
                before == *old(self),
                self.steps == before.steps,
                self.heads == before.heads,
                self.completed == before.completed,
                views == step_views(before.steps@),
                before.next <= self.next <= self.steps@.len(),
                step_reached(views, before.heads@, before.next as nat) == step_reached(
                    views,
                    before.heads@,
                    self.next as nat,
                ),
            decreases self.steps.len() - self.next,
        {
            let step = &self.steps[self.next];
            assert(views[self.next as int] == step@);
            let found = parent_commit_ids(&self.heads, step);
            proof {
                lemma_merge_parents(self.heads@, step@);
            }
            match found {
                Ok(parents) => {
                    if parents.len() > 1 {
                        let scope = step.scope.clone();
                        return Ok(CascadeMerge::Merge { scope, parents });
                    }
                    proof {
                        assert(texts(parents@).map_values(|id: Text| Some(id))[0] is Some);
                    }
                },
                Err(error) => {
                    return Err(error);
                },
            }
            self.next = self.next + 1;
        }
        Ok(CascadeMerge::Finished)
    }

    /// Takes note of the merge that was written.
    pub fn wrote(&mut self, id: String)
        requires
            old(self).next < old(self).steps@.len(),
        ensures
            final(self).steps == old(self).steps,
            final(self).next == old(self).next + 1,
            texts(final(self).completed@) == texts(old(self).completed@).push(
                old(self).steps@[old(self).next as int].scope@,
            ),
            forall|s: Text| #[trigger]
                id_of(final(self).heads@, s) == if s == old(self).steps@[old(
                    self,
                ).next as int].scope@ {
                    Some(id@)
                } else {
                    id_of(old(self).heads@, s)
                },
    {
        assert(self.next < self.steps.len());
        let scope = self.steps[self.next].scope.clone();
        self.heads.update(scope.clone(), id);
        self.completed.push(scope);
        self.next = self.next + 1;
        proof {
            lemma_texts_push(old(self).completed@, scope);
        }
    }
}

} // verus!
