//! How far a change goes, said of the graph it goes through: what a cascade
//! merges into which scope, what a pass accounts for, and what a run remembers.
use vstd::prelude::*;
use vstd::string::*;
use crate::bootstrap::{has_scope, stands_at};
use crate::cascade::{
    comes_to, headed_parents, id_of, is_cascaded, is_descent, is_plan, merge_parents,
    merged_scopes, planned, step_reached, CascadeMerge, CascadeStepView,
};
use crate::converge::{
    candidates_of, checkpoint_of, graph_parents, input_ids, input_views, is_side,
    law_every_side_is_accounted_for, merge_step, InputView,
};
use crate::error::{is_not_in_repo, DotsyncError};
use crate::pass::{
    after_outcome, head_in, is_action, is_over, lemma_with_head, passes_to, OutcomeView,
    PassAction, PassEvent, PassPhase, PassRun, PassView,
};
use crate::repo::{
    head_of, law_the_head_of_a_scope_is_the_one_listed, one_commit, Head, HeadView,
};
use crate::scope_graph::{
    below, cascade_order, graph_wf, is_parent, law_parents_before_children, lemma_lookup, lookup,
    names_of, ScopeView,
};
use crate::seqs::lemma_filter_holds;
use crate::text::{texts, Text};

verus! {

/// Whether what is first listed for a scope is this commit.
pub open spec fn listed_at(heads: Seq<(Text, Text)>, scope: Text, id: Text) -> bool {
    exists|k: int|
        0 <= k < heads.len() && (#[trigger] heads[k]).0 == scope && heads[k].1 == id && forall|
            m: int,
        |
            0 <= m < k ==> (#[trigger] heads[m]).0 != scope
}

/// Whether anything is listed for a scope.
pub open spec fn is_listed(heads: Seq<(Text, Text)>, scope: Text) -> bool {
    exists|k: int| 0 <= k < heads.len() && (#[trigger] heads[k]).0 == scope
}

/// The head of a scope is the first that is listed for it, and it has none where
/// none is listed.
pub proof fn law_a_head_is_the_first_listed(heads: Seq<(Text, Text)>, scope: Text)
    ensures
        id_of(heads, scope) is Some <==> is_listed(heads, scope),
        id_of(heads, scope) matches Some(id) ==> listed_at(heads, scope, id),
    decreases heads.len(),
{
    if heads.len() > 0 {
        if heads[0].0 == scope {
            assert(heads[0].1 == id_of(heads, scope)->0);
        } else {
            let rest = heads.skip(1);
            law_a_head_is_the_first_listed(rest, scope);
            if is_listed(heads, scope) {
                let k = choose|k: int| 0 <= k < heads.len() && (#[trigger] heads[k]).0 == scope;
                assert(rest[k - 1] == heads[k]);
            }
            if is_listed(rest, scope) {
                let k = choose|k: int| 0 <= k < rest.len() && (#[trigger] rest[k]).0 == scope;
                assert(heads[k + 1] == rest[k]);
            }
            if let Some(id) = id_of(rest, scope) {
                let k = choose|k: int|
                    0 <= k < rest.len() && (#[trigger] rest[k]).0 == scope && rest[k].1 == id
                        && forall|m: int| 0 <= m < k ==> (#[trigger] rest[m]).0 != scope;
                assert(heads[k + 1] == rest[k]);
                assert forall|m: int| 0 <= m < k + 1 implies (#[trigger] heads[m]).0 != scope by {
                    if m > 0 {
                        assert(rest[m - 1] == heads[m]);
                    }
                }
            }
        }
    }
}

proof fn lemma_headed_parents(
    graph: Seq<ScopeView>,
    heads: Seq<(Text, Text)>,
    scope: Text,
    upper: Text,
)
    requires
        graph_wf(graph),
    ensures
        headed_parents(graph, heads, scope).contains(upper) <==> is_parent(graph, upper, scope)
            && is_listed(heads, upper),
{
    law_a_head_is_the_first_listed(heads, upper);
    lemma_lookup(graph, scope);
    match lookup(graph, scope) {
        Some(found) => {
            lemma_filter_holds(found.parents, |p: Text| id_of(heads, p) is Some);
            let j = choose|j: int| 0 <= j < graph.len() && graph[j] == found;
            assert(graph[j].name == scope);
            if is_parent(graph, upper, scope) {
                let i = choose|i: int|
                    0 <= i < graph.len() && (#[trigger] graph[i]).name == scope
                        && graph[i].parents.contains(upper);
                assert(lookup(graph, scope) == Some(graph[i]));
            }
        },
        None => {
            if is_parent(graph, upper, scope) {
                let i = choose|i: int|
                    0 <= i < graph.len() && (#[trigger] graph[i]).name == scope
                        && graph[i].parents.contains(upper);
                assert(names_of(graph)[i] == scope);
            }
        },
    }
}

/// A cascade merges into exactly the scopes below the changed one that have a
/// head and a parent with one, into each once, and what it merges into a scope is
/// the head of every parent that has one, of no other scope.
pub proof fn law_a_cascade_merges_every_parent(
    graph: Seq<ScopeView>,
    heads: Seq<(Text, Text)>,
    root: Text,
    steps: Seq<CascadeStepView>,
)
    requires
        graph_wf(graph),
        is_plan(graph, heads, root, steps),
    ensures
        forall|lower: Text|
            (exists|k: int| 0 <= k < steps.len() && (#[trigger] steps[k]).scope == lower) <==> (
            #[trigger] below(graph, root, lower) && is_listed(heads, lower) && exists|upper: Text|
                #[trigger] is_parent(graph, upper, lower) && is_listed(heads, upper)),
        forall|k: int, upper: Text|
            0 <= k < steps.len() ==> (#[trigger] steps[k].parent_scopes.contains(upper)
                <==> is_parent(graph, upper, steps[k].scope) && is_listed(heads, upper)),
        forall|k: int, m: int|
            0 <= k < steps.len() && 0 <= m < steps.len() && #[trigger] is_parent(
                graph,
                steps[k].scope,
                steps[m].scope,
            ) ==> k < m,
        forall|k: int, m: int|
            0 <= k < m < steps.len() ==> (#[trigger] steps[k]).scope != (#[trigger] steps[m]).scope,
{
    let order = choose|order: Seq<Text>|
        is_descent(graph, root, order) && steps == #[trigger] planned(graph, heads, order);
    let keep = |s: Text| is_cascaded(graph, heads, s);
    let kept = order.filter(keep);
    lemma_filter_holds(order, keep);
    law_parents_before_children(graph, order);
    assert forall|k: int| 0 <= k < steps.len() implies (#[trigger] steps[k]).scope == kept[k]
        && steps[k].parent_scopes == headed_parents(graph, heads, kept[k]) by {}
    assert forall|lower: Text|
        (exists|k: int| 0 <= k < steps.len() && (#[trigger] steps[k]).scope == lower) <==> (
        #[trigger] below(graph, root, lower) && is_listed(heads, lower) && exists|upper: Text|
            #[trigger] is_parent(graph, upper, lower) && is_listed(heads, upper)) by {
        law_a_head_is_the_first_listed(heads, lower);
        let above = headed_parents(graph, heads, lower);
        if exists|k: int| 0 <= k < steps.len() && (#[trigger] steps[k]).scope == lower {
            let k = choose|k: int| 0 <= k < steps.len() && (#[trigger] steps[k]).scope == lower;
            assert(kept.contains(kept[k]));
            assert(order.contains(lower));
            assert(keep(lower));
            assert(above.contains(above[0]));
            lemma_headed_parents(graph, heads, lower, above[0]);
        }
        if below(graph, root, lower) && is_listed(heads, lower) && exists|upper: Text|
            #[trigger] is_parent(graph, upper, lower) && is_listed(heads, upper) {
            let upper = choose|upper: Text|
                #[trigger] is_parent(graph, upper, lower) && is_listed(heads, upper);
            lemma_headed_parents(graph, heads, lower, upper);
            assert(above.contains(upper));
            assert(above.len() > 0);
            assert(order.contains(lower) && keep(lower));
            assert(kept.contains(lower));
            let k = choose|k: int| 0 <= k < kept.len() && kept[k] == lower;
            assert(steps[k].scope == lower);
        }
    }
    assert forall|k: int, upper: Text| 0 <= k < steps.len() implies (
    #[trigger] steps[k].parent_scopes.contains(upper) <==> is_parent(graph, upper, steps[k].scope)
        && is_listed(heads, upper)) by {
        lemma_headed_parents(graph, heads, kept[k], upper);
    }
    let apart = |a: Text, b: Text| a != b && !is_parent(graph, b, a);
    assert forall|i: int, j: int| 0 <= i < j < order.len() implies #[trigger] apart(
        order[i],
        order[j],
    ) by {
        if is_parent(graph, order[j], order[i]) {
            assert(j < i);
        }
    }
    crate::seqs::lemma_filter_keeps_order(order, keep, apart);
    assert forall|k: int, m: int| 0 <= k < m < steps.len() implies (#[trigger] steps[k]).scope != (
    #[trigger] steps[m]).scope by {
        assert(apart(kept[k], kept[m]));
    }
    assert forall|k: int, m: int|
        0 <= k < steps.len() && 0 <= m < steps.len() && #[trigger] is_parent(
            graph,
            steps[k].scope,
            steps[m].scope,
        ) implies k < m by {
        assert(steps[k].scope == kept[k] && steps[m].scope == kept[m]);
        if m < k {
            assert(apart(kept[m], kept[k]));
        }
        if m == k {
            lemma_no_own_parent(graph, order, kept, kept[k]);
        }
    }
}

proof fn lemma_no_own_parent(
    graph: Seq<ScopeView>,
    order: Seq<Text>,
    kept: Seq<Text>,
    scope: Text,
)
    requires
        cascade_order(graph, order),
        kept.contains(scope),
        forall|x: Text| #[trigger] kept.contains(x) ==> order.contains(x),
    ensures
        !is_parent(graph, scope, scope),
{
    law_parents_before_children(graph, order);
    let i = choose|i: int| 0 <= i < order.len() && order[i] == scope;
    if is_parent(graph, scope, scope) {
        assert(is_parent(graph, order[i], order[i]));
    }
}

/// What a cascade writes into a scope is the merge of the scope's own head and
/// of the head of each parent of the step, one for each and in that order. It
/// passes over nothing but steps that merge nothing, and it ends only where no
/// other step is left.
pub proof fn law_a_cascade_step_merges_own_and_parents(
    steps: Seq<CascadeStepView>,
    heads: Seq<(Text, Text)>,
    from: nat,
    at: nat,
    merge: Result<CascadeMerge, DotsyncError>,
)
    requires
        from <= steps.len(),
        comes_to(steps, heads, from, at, merge),
    ensures
        from <= at <= steps.len(),
        forall|k: int| from <= k < at ==> (#[trigger] steps[k]).parent_scopes.len() == 0,
        merge matches Ok(CascadeMerge::Finished) ==> at == steps.len(),
        merge matches Ok(CascadeMerge::Merge { scope, parents }) ==> {
            &&& at < steps.len()
            &&& scope@ == steps[at as int].scope
            &&& steps[at as int].parent_scopes.len() > 0
            &&& parents@.len() == 1 + steps[at as int].parent_scopes.len()
            &&& listed_at(heads, scope@, parents@[0]@)
            &&& forall|p: int|
                0 <= p < steps[at as int].parent_scopes.len() ==> listed_at(
                    heads,
                    #[trigger] steps[at as int].parent_scopes[p],
                    parents@[p + 1]@,
                )
        },
        at < steps.len() && is_listed(heads, steps[at as int].scope) && (forall|p: int|
            0 <= p < steps[at as int].parent_scopes.len() ==> is_listed(
                heads,
                #[trigger] steps[at as int].parent_scopes[p],
            )) ==> (merge matches Ok(done) && done is Merge),
{
    lemma_step_reached(steps, heads, from);
    if at < steps.len() {
        let step = steps[at as int];
        law_a_head_is_the_first_listed(heads, step.scope);
        match merge {
            Ok(CascadeMerge::Merge { scope, parents }) => {
                let wanted = merge_parents(heads, step);
                let given = texts(parents@).map_values(|id: Text| Some(id));
                assert(given.len() == parents@.len());
                assert(given[0] == Some(parents@[0]@));
                assert(merged_scopes(step)[0] == step.scope);
                assert(wanted[0] == id_of(heads, step.scope));
                assert forall|p: int| 0 <= p < step.parent_scopes.len() implies listed_at(
                    heads,
                    #[trigger] step.parent_scopes[p],
                    parents@[p + 1]@,
                ) by {
                    law_a_head_is_the_first_listed(heads, step.parent_scopes[p]);
                    assert(merged_scopes(step)[p + 1] == step.parent_scopes[p]);
                    assert(wanted[p + 1] == id_of(heads, step.parent_scopes[p]));
                    assert(given[p + 1] == Some(parents@[p + 1]@));
                }
            },
            Err(error) => {
                let k = choose|k: int|
                    0 <= k < merged_scopes(step).len() && id_of(
                        heads,
                        #[trigger] merged_scopes(step)[k],
                    ) is None && is_not_in_repo(error, merged_scopes(step)[k]) && forall|j: int|
                        0 <= j < k ==> id_of(heads, #[trigger] merged_scopes(step)[j]) is Some;
                if k > 0 {
                    assert(merged_scopes(step)[k] == step.parent_scopes[k - 1]);
                    law_a_head_is_the_first_listed(heads, step.parent_scopes[k - 1]);
                }
            },
            _ => {},
        }
    }
}

proof fn lemma_step_reached(steps: Seq<CascadeStepView>, heads: Seq<(Text, Text)>, from: nat)
    requires
        from <= steps.len(),
    ensures
        from <= step_reached(steps, heads, from) <= steps.len(),
        forall|k: int|
            from <= k < step_reached(steps, heads, from) ==> (
            #[trigger] steps[k]).parent_scopes.len() == 0,
        step_reached(steps, heads, from) < steps.len() ==> (steps[step_reached(
            steps,
            heads,
            from,
        ) as int].parent_scopes.len() > 0 || id_of(
            heads,
            steps[step_reached(steps, heads, from) as int].scope,
        ) is None),
    decreases steps.len() - from,
{
    if from < steps.len() && steps[from as int].parent_scopes.len() == 0 && id_of(
        heads,
        steps[from as int].scope,
    ) is Some {
        lemma_step_reached(steps, heads, from + 1);
    }
}

/// What a run remembers to go back to is every scope of the graph that stands at
/// one commit, at that commit, and nothing else.
pub proof fn law_a_checkpoint_holds_every_scope_at_one_commit(
    graph: Seq<ScopeView>,
    heads: Seq<(String, Head)>,
    scope: Text,
    id: Text,
)
    ensures
        checkpoint_of(graph, heads).contains((scope, id)) <==> has_scope(graph, scope) && stands_at(
            heads,
            scope,
            id,
        ),
{
    let keep = |n: Text| one_commit(head_of(heads, n)) is Some;
    let kept = names_of(graph).filter(keep);
    let point = checkpoint_of(graph, heads);
    lemma_filter_holds(names_of(graph), keep);
    crate::bootstrap::lemma_has_scope(graph, scope);
    crate::bootstrap::lemma_stands_at(heads, scope);
    if point.contains((scope, id)) {
        let k = choose|k: int| 0 <= k < point.len() && point[k] == (scope, id);
        assert(point[k] == (kept[k], one_commit(head_of(heads, kept[k]))->0));
        assert(kept.contains(kept[k]));
        assert(keep(scope));
    }
    if has_scope(graph, scope) && stands_at(heads, scope, id) {
        assert(kept.contains(scope));
        let k = choose|k: int| 0 <= k < kept.len() && kept[k] == scope;
        assert(point[k] == (scope, id));
    }
}

/// Whether a commit is a side of what is first listed for a scope.
pub open spec fn is_listed_side(heads: Seq<(String, Head)>, scope: Text, id: Text) -> bool {
    exists|k: int, s: int|
        0 <= k < heads.len() && 0 <= s < heads[k].1.sides@.len() && (#[trigger] heads[k]).0@ == scope
            && (#[trigger] heads[k].1.sides@[s])@ == id && forall|m: int|
            0 <= m < k ==> (#[trigger] heads[m]).0@ != scope
}

proof fn lemma_listed_side(heads: Seq<(String, Head)>, scope: Text, id: Text)
    ensures
        is_listed_side(heads, scope, id) <==> head_of(heads, scope).sides.contains(id),
{
    let at = crate::bootstrap::lemma_first_listed(heads, scope);
    law_the_head_of_a_scope_is_the_one_listed(heads, scope, at);
    let sides = head_of(heads, scope).sides;
    if sides.contains(id) {
        let s = choose|s: int| 0 <= s < sides.len() && sides[s] == id;
        assert(heads[at].1.sides@[s]@ == id);
    }
    if is_listed_side(heads, scope, id) {
        let (k, s) = choose|k: int, s: int|
            0 <= k < heads.len() && 0 <= s < heads[k].1.sides@.len() && (
            #[trigger] heads[k]).0@ == scope && (#[trigger] heads[k].1.sides@[s])@ == id && forall|
                m: int,
            |
                0 <= m < k ==> (#[trigger] heads[m]).0@ != scope;
        law_the_head_of_a_scope_is_the_one_listed(heads, scope, k);
        assert(sides[s] == id);
    }
}

/// What a pass has to account for at a scope is every side of the scope's own
/// head and every side of the head of each of its parents in the graph, and
/// nothing else: nobody's work is left out.
pub proof fn law_a_pass_accounts_for_every_parent(
    graph: Seq<ScopeView>,
    heads: Seq<(String, Head)>,
    published: HeadView,
    scope: Text,
    id: Text,
)
    requires
        graph_wf(graph),
    ensures
        input_ids(candidates_of(graph, heads, published, scope)).contains(id) <==> is_listed_side(
            heads,
            scope,
            id,
        ) || exists|upper: Text|
            #[trigger] is_parent(graph, upper, scope) && is_listed_side(heads, upper, id),
{
    law_every_side_is_accounted_for(graph, heads, published, scope, id);
    lemma_listed_side(heads, scope, id);
    lemma_lookup(graph, scope);
    assert forall|upper: Text| graph_parents(graph, scope).contains(upper) <==> #[trigger] is_parent(
        graph,
        upper,
        scope,
    ) by {
        if graph_parents(graph, scope).contains(upper) {
            let found = lookup(graph, scope)->0;
            let j = choose|j: int| 0 <= j < graph.len() && graph[j] == found;
            assert(graph[j].name == scope && graph[j].parents.contains(upper));
        }
        if is_parent(graph, upper, scope) {
            let i = choose|i: int|
                0 <= i < graph.len() && (#[trigger] graph[i]).name == scope
                    && graph[i].parents.contains(upper);
            assert(lookup(graph, scope) == Some(graph[i]));
        }
    }
    if is_side(graph, heads, scope, id) {
        let from = choose|from: Text|
            (from == scope || graph_parents(graph, scope).contains(from)) && #[trigger] head_of(
                heads,
                from,
            ).sides.contains(id);
        lemma_listed_side(heads, from, id);
        if from != scope {
            assert(is_parent(graph, from, scope));
        }
    }
    if exists|upper: Text|
        #[trigger] is_parent(graph, upper, scope) && is_listed_side(heads, upper, id) {
        let upper = choose|upper: Text|
            #[trigger] is_parent(graph, upper, scope) && is_listed_side(heads, upper, id);
        lemma_listed_side(heads, upper, id);
        assert(head_of(heads, upper).sides.contains(id));
    }
    if head_of(heads, scope).sides.contains(id) {
        assert(is_side(graph, heads, scope, id));
    }
}

/// What a pass asks for at a scope is what the scope is due: every candidate is
/// put to the question, a merge takes every input in, one after the other, and
/// the commit that is written has every input as a parent. A head moves onto the
/// very commit that was found for it.
pub proof fn law_a_pass_takes_every_input_in(
    graph: Seq<ScopeView>,
    published: Seq<(String, Head)>,
    run: PassRun,
    action: PassAction,
)
    requires
        graph_wf(graph),
        is_action(graph, published, run, action),
        !is_over(run.pass@),
    ensures
        match action {
            PassAction::Reduce { scope, candidates } => {
                &&& scope@ == run.pass@.order[run.pass@.next as int]
                &&& forall|id: Text|
                    (exists|c: int| 0 <= c < candidates@.len() && (#[trigger] candidates@[c]).id@ == id)
                        <==> (#[trigger] is_listed_side(run.pass.heads@, scope@, id) || exists|
                        upper: Text,
                    |
                        #[trigger] is_parent(graph, upper, scope@) && is_listed_side(
                            run.pass.heads@,
                            upper,
                            id,
                        ))
            },
            PassAction::SetHead { scope, id } => scope@
                == run.pass@.order[run.pass@.next as int] && (run.phase matches PassPhase::Forward {
                id: found,
            } && found@ == id@),
            PassAction::Merge { scope, steps } => scope@
                == run.pass@.order[run.pass@.next as int] && (run.phase matches PassPhase::Merge {
                inputs,
            } && (inputs@.len() > 0 ==> steps@.len() + 1 == inputs@.len() && forall|k: int|
                1 <= k < inputs@.len() ==> {
                    let step = #[trigger] steps@[k - 1];
                    &&& step.with@ == inputs@[k].id@
                    &&& step.merged@.len() == k
                    &&& forall|m: int|
                        0 <= m < k ==> (#[trigger] step.merged@[m])@ == inputs@[m].id@
                })),
            PassAction::LayAnswer { scope } => scope@ == run.pass@.order[run.pass@.next as int]
                && run.phase is Resolve,
            PassAction::Write { scope, parents, description } => scope@
                == run.pass@.order[run.pass@.next as int] && (run.phase matches PassPhase::Write {
                inputs,
            } && parents@.len() == inputs@.len() && forall|k: int|
                0 <= k < inputs@.len() ==> (#[trigger] parents@[k])@ == inputs@[k].id@),
            PassAction::Finish { .. } => false,
        },
{
    let here = run.pass@.order[run.pass@.next as int];
    match action {
        PassAction::Reduce { scope, candidates } => {
            let views = input_views(candidates@);
            let ids = input_ids(views);
            assert forall|id: Text|
                (exists|c: int| 0 <= c < candidates@.len() && (#[trigger] candidates@[c]).id@ == id)
                    <==> (#[trigger] is_listed_side(run.pass.heads@, scope@, id) || exists|
                    upper: Text,
                |
                    #[trigger] is_parent(graph, upper, scope@) && is_listed_side(
                        run.pass.heads@,
                        upper,
                        id,
                    )) by {
                law_a_pass_accounts_for_every_parent(
                    graph,
                    run.pass.heads@,
                    head_of(published, here),
                    here,
                    id,
                );
                if ids.contains(id) {
                    let c = choose|c: int| 0 <= c < ids.len() && ids[c] == id;
                    assert(views[c] == candidates@[c]@);
                    assert(candidates@[c].id@ == id);
                }
                if exists|c: int| 0 <= c < candidates@.len() && (#[trigger] candidates@[c]).id@
                    == id {
                    let c = choose|c: int|
                        0 <= c < candidates@.len() && (#[trigger] candidates@[c]).id@ == id;
                    assert(views[c] == candidates@[c]@);
                    assert(ids[c] == id);
                }
            }
        },
        PassAction::Merge { scope, steps } => {
            let inputs = run.phase->Merge_inputs;
            let views = input_views(inputs@);
            if inputs@.len() > 0 {
                assert forall|k: int| 1 <= k < inputs@.len() implies {
                    let step = #[trigger] steps@[k - 1];
                    &&& step.with@ == inputs@[k].id@
                    &&& step.merged@.len() == k
                    &&& forall|m: int|
                        0 <= m < k ==> (#[trigger] step.merged@[m])@ == inputs@[m].id@
                } by {
                    let step = steps@[k - 1];
                    assert(step@ == merge_step(views, k));
                    assert(views[k] == inputs@[k]@);
                    assert(texts(step.merged@).len() == step.merged@.len());
                    assert forall|m: int| 0 <= m < k implies (#[trigger] step.merged@[m])@
                        == inputs@[m].id@ by {
                        assert(texts(step.merged@)[m] == step.merged@[m]@);
                        assert(views.take(k)[m] == inputs@[m]@);
                    }
                }
            }
        },
        PassAction::Write { scope, parents, description } => {
            let inputs = run.phase->Write_inputs;
            assert(texts(parents@).len() == parents@.len());
            assert forall|k: int| 0 <= k < inputs@.len() implies (#[trigger] parents@[k])@
                == inputs@[k].id@ by {
                assert(texts(parents@)[k] == parents@[k]@);
                assert(input_views(inputs@)[k] == inputs@[k]@);
            }
        },
        _ => {},
    }
}

/// What became of a scope is what a pass goes on with: a head that moved is at
/// that one commit, every other head is where it was, and the pass goes to the
/// next scope, or stays where it stopped.
pub proof fn law_a_pass_goes_on_with_what_became_of_a_scope(
    pass: PassView,
    outcome: OutcomeView,
    other: Text,
)
    requires
        !is_over(pass),
    ensures
        ({
            let scope = pass.order[pass.next as int];
            let after = after_outcome(pass, outcome);
            &&& after.order == pass.order
            &&& match outcome {
                OutcomeView::Kept => after.next == pass.next + 1 && after.heads == pass.heads
                    && after.moved == pass.moved && after.paused is None,
                OutcomeView::Moved(id) => {
                    &&& after.next == pass.next + 1
                    &&& after.moved
                    &&& after.paused is None
                    &&& head_in(after.heads, scope).sides == seq![id]
                    &&& !head_in(after.heads, scope).contested
                    &&& other != scope ==> head_in(after.heads, other) == head_in(
                        pass.heads,
                        other,
                    )
                },
                OutcomeView::Stopped => after.next == pass.next && after.heads == pass.heads
                    && after.moved == pass.moved && after.paused == Some(scope),
            }
        }),
{
    if let OutcomeView::Moved(id) = outcome {
        let scope = pass.order[pass.next as int];
        let head = HeadView { sides: seq![id], contested: false };
        lemma_with_head(pass.heads, scope, head, scope);
        lemma_with_head(pass.heads, scope, head, other);
    }
}

/// Whether a commit is a side of a scope's own head or of the head of one of its
/// parents in the graph.
pub open spec fn is_due(
    graph: Seq<ScopeView>,
    heads: Seq<(String, Head)>,
    scope: Text,
    id: Text,
) -> bool {
    is_listed_side(heads, scope, id) || exists|upper: Text|
        #[trigger] is_parent(graph, upper, scope) && is_listed_side(heads, upper, id)
}

/// A pass leaves a scope alone only where its head stands at the one commit that
/// covers everything it is due, or where it is due nothing; it moves the head
/// onto a commit only where that one alone is left; and otherwise it merges every
/// commit that is left, and none that is not.
pub proof fn law_a_pass_leaves_no_due_commit_out(
    graph: Seq<ScopeView>,
    published: Seq<(String, Head)>,
    before: PassRun,
    uncovered: Vec<String>,
    after: PassRun,
)
    requires
        graph_wf(graph),
        before.phase is Look,
        !is_over(before.pass@),
        passes_to(graph, published, before, (PassEvent::Reduced { uncovered }), after),
    ensures
        ({
            let scope = before.pass@.order[before.pass@.next as int];
            let heads = before.pass.heads@;
            match after.phase {
                PassPhase::Look => {
                    &&& after.pass@.next == before.pass@.next + 1
                    &&& after.pass@.heads == before.pass@.heads
                    &&& after.pass@.moved == before.pass@.moved
                    &&& forall|id: Text|
                        #[trigger] is_due(graph, heads, scope, id) && texts(uncovered@).contains(id)
                            ==> stands_at(heads, scope, id)
                },
                PassPhase::Forward { id } => {
                    &&& after.pass == before.pass
                    &&& is_due(graph, heads, scope, id@)
                    &&& texts(uncovered@).contains(id@)
                    &&& !stands_at(heads, scope, id@)
                    &&& forall|other: Text|
                        #[trigger] is_due(graph, heads, scope, other) && texts(
                            uncovered@,
                        ).contains(other) ==> other == id@
                },
                PassPhase::Merge { inputs } => {
                    &&& after.pass == before.pass
                    &&& inputs@.len() > 1
                    &&& forall|id: Text|
                        (exists|k: int|
                            0 <= k < inputs@.len() && (#[trigger] inputs@[k]).id@ == id) <==> (
                        #[trigger] is_due(graph, heads, scope, id) && texts(uncovered@).contains(
                            id,
                        ))
                },
                _ => false,
            }
        }),
{
    let scope = before.pass@.order[before.pass@.next as int];
    let heads = before.pass.heads@;
    let all = candidates_of(graph, heads, head_of(published, scope), scope);
    let keep = |i: InputView| texts(uncovered@).contains(i.id);
    let left = all.filter(keep);
    let ids = input_ids(left);
    lemma_filter_holds(all, keep);
    crate::bootstrap::lemma_stands_at(heads, scope);
    assert forall|id: Text| ids.contains(id) <==> #[trigger] is_due(graph, heads, scope, id)
        && texts(uncovered@).contains(id) by {
        law_a_pass_accounts_for_every_parent(
            graph,
            heads,
            head_of(published, scope),
            scope,
            id,
        );
        if ids.contains(id) {
            let k = choose|k: int| 0 <= k < ids.len() && ids[k] == id;
            assert(left.contains(left[k]));
            assert(keep(left[k]));
            let c = choose|c: int| 0 <= c < all.len() && all[c] == left[k];
            assert(input_ids(all)[c] == id);
        }
        if input_ids(all).contains(id) && texts(uncovered@).contains(id) {
            let c = choose|c: int| 0 <= c < all.len() && input_ids(all)[c] == id;
            assert(all.contains(all[c]));
            assert(left.contains(all[c]));
            let k = choose|k: int| 0 <= k < left.len() && left[k] == all[c];
            assert(ids[k] == id);
        }
    }
    if left.len() > 0 {
        assert(ids[0] == left[0].id);
        assert(ids.contains(left[0].id));
        assert(is_due(graph, heads, scope, left[0].id));
    }
    if let PassPhase::Merge { inputs } = after.phase {
        assert(input_views(inputs@).len() == inputs@.len());
        assert forall|id: Text|
            (exists|k: int| 0 <= k < inputs@.len() && (#[trigger] inputs@[k]).id@ == id) <==> (
            #[trigger] is_due(graph, heads, scope, id) && texts(uncovered@).contains(id)) by {
            if ids.contains(id) {
                let k = choose|k: int| 0 <= k < ids.len() && ids[k] == id;
                assert(input_views(inputs@)[k] == inputs@[k]@);
                assert(inputs@[k].id@ == id);
            }
            if exists|k: int| 0 <= k < inputs@.len() && (#[trigger] inputs@[k]).id@ == id {
                let k = choose|k: int|
                    0 <= k < inputs@.len() && (#[trigger] inputs@[k]).id@ == id;
                assert(input_views(inputs@)[k] == inputs@[k]@);
                assert(ids[k] == id);
            }
        }
    } else {
        assert forall|id: Text|
            #[trigger] is_due(graph, heads, scope, id) && texts(uncovered@).contains(id) implies id
            == left[0].id by {
            assert(ids.contains(id));
            let k = choose|k: int| 0 <= k < ids.len() && ids[k] == id;
            assert(k == 0);
        }
    }
}

/// A merge that resolves is written, and one that does not stops the pass unless
/// an answer was given for its scope; the answer is laid over it, and what that
/// leaves resolved is written. What was written, or moved, is where the head then
/// stands.
pub proof fn law_a_pass_writes_what_resolves(
    graph: Seq<ScopeView>,
    published: Seq<(String, Head)>,
    before: PassRun,
    event: PassEvent,
    after: PassRun,
)
    requires
        passes_to(graph, published, before, event, after),
        !is_over(before.pass@),
    ensures
        ({
            let scope = before.pass@.order[before.pass@.next as int];
            let answered = before.answered matches Some(of) && of@ == scope;
            &&& before.phase matches PassPhase::Merge { inputs } ==> (event matches PassEvent::Merged {
                conflicted,
            } ==> {
                &&& !conflicted ==> after.phase == (PassPhase::Write { inputs }) && after.pass
                    == before.pass
                &&& conflicted && answered ==> after.phase == (PassPhase::Resolve { inputs })
                    && after.pass == before.pass
                &&& conflicted && !answered ==> after.pass@.paused == Some(scope)
                    && after.pass@.heads == before.pass@.heads
            })
            &&& before.phase matches PassPhase::Resolve { inputs } ==> (event
                matches PassEvent::AnswerLaid { conflicted } ==> {
                &&& !conflicted ==> after.phase == (PassPhase::Write { inputs }) && after.pass
                    == before.pass
                &&& conflicted ==> after.pass@.paused == Some(scope) && after.pass@.heads
                    == before.pass@.heads
            })
            &&& before.phase is Write ==> (event matches PassEvent::Written { id } ==> after.pass@.next
                == before.pass@.next + 1 && head_in(after.pass@.heads, scope).sides == seq![id@]
                && after.pass@.moved)
            &&& before.phase matches PassPhase::Forward { id } ==> (event is HeadSet
                ==> after.pass@.next == before.pass@.next + 1 && head_in(
                after.pass@.heads,
                scope,
            ).sides == seq![id@] && after.pass@.moved)
        }),
{
    let scope = before.pass@.order[before.pass@.next as int];
    match (before.phase, event) {
        (PassPhase::Write { inputs }, PassEvent::Written { id }) => {
            law_a_pass_goes_on_with_what_became_of_a_scope(
                before.pass@,
                OutcomeView::Moved(id@),
                scope,
            );
        },
        (PassPhase::Forward { id }, PassEvent::HeadSet) => {
            law_a_pass_goes_on_with_what_became_of_a_scope(
                before.pass@,
                OutcomeView::Moved(id@),
                scope,
            );
        },
        _ => {},
    }
}

} // verus!
