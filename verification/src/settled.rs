//! What a pass leaves behind: every scope's head accounts for its own and its
//! parents' work, and a pass over such heads moves nothing.
use vstd::prelude::*;
use vstd::string::*;
use crate::converge::{
    are_heads, candidates_of, covered_by, graph_parents, input_ids, input_views, is_covering, is_side,
    law_every_side_is_accounted_for, law_inputs_are_the_uncovered_candidates,
    law_no_commit_is_an_input_twice, InputView,
};
use crate::pass::{
    after_outcome, head_in, heads_view, is_over, lemma_head_in, lemma_with_head, passes_to,
    HeadsView, OutcomeView, PassEvent, PassPhase, PassRun, PassView,
};
use crate::repo::{head_of, one_commit, Head, HeadView};
use crate::scope_graph::{
    cascade_order, graph_wf, is_parent, law_parents_before_children, lemma_lookup, names_of,
    ScopeView,
};
use crate::text::{texts, Text};

verus! {

/// Whether a commit is a side of a scope's own head or of one of its parents'.
pub open spec fn side_in(graph: Seq<ScopeView>, heads: HeadsView, scope: Text, id: Text) -> bool {
    exists|from: Text|
        (from == scope || graph_parents(graph, scope).contains(from)) && #[trigger] head_in(
            heads,
            from,
        ).sides.contains(id)
}

/// Whether a scope's head accounts for everything that is to go into it: it is
/// one commit, which covers every side, or there is nothing to go into it.
pub open spec fn settled_at(
    graph: Seq<ScopeView>,
    covers: spec_fn(Text, Text) -> bool,
    heads: HeadsView,
    scope: Text,
) -> bool {
    let head = one_commit(head_in(heads, scope));
    ||| forall|id: Text| !#[trigger] side_in(graph, heads, scope, id)
    ||| head is Some && forall|id: Text| #[trigger]
        side_in(graph, heads, scope, id) ==> covers(head->0, id)
}

/// Whether every scope's head accounts for everything that is to go into it.
pub open spec fn settled(
    graph: Seq<ScopeView>,
    covers: spec_fn(Text, Text) -> bool,
    heads: HeadsView,
) -> bool {
    forall|n: Text| #[trigger] names_of(graph).contains(n) ==> settled_at(graph, covers, heads, n)
}

/// Whether what a pass is told is so: the commits that no candidate covers are
/// those, and a merge that was written covers what it merged.
pub open spec fn is_true(
    graph: Seq<ScopeView>,
    published: Seq<(String, Head)>,
    covers: spec_fn(Text, Text) -> bool,
    run: PassRun,
    event: PassEvent,
) -> bool {
    match (run.phase, event) {
        (PassPhase::Look, PassEvent::Reduced { uncovered }) => is_over(run.pass@) || {
            let scope = run.pass@.order[run.pass@.next as int];
            are_heads(
                covers,
                input_ids(
                    candidates_of(graph, run.pass.heads@, head_of(published, scope), scope),
                ),
                texts(uncovered@),
            )
        },
        (PassPhase::Write { inputs }, PassEvent::Written { id }) => forall|k: int|
            0 <= k < inputs@.len() ==> covers(id@, (#[trigger] inputs@[k]).id@),
        _ => true,
    }
}

/// Whether a pass goes through `runs` as `events` happen, each of them true.
pub open spec fn is_course(
    graph: Seq<ScopeView>,
    published: Seq<(String, Head)>,
    covers: spec_fn(Text, Text) -> bool,
    runs: Seq<PassRun>,
    events: Seq<PassEvent>,
) -> bool {
    &&& runs.len() == events.len() + 1
    &&& forall|i: int|
        0 <= i < events.len() ==> passes_to(graph, published, runs[i], #[trigger] events[i], runs[i
            + 1]) && is_true(graph, published, covers, runs[i], events[i])
}

/// Whether a pass over a graph has done nothing yet.
pub open spec fn is_fresh(graph: Seq<ScopeView>, run: PassRun) -> bool {
    &&& cascade_order(graph, run.pass@.order)
    &&& forall|n: Text| #[trigger] run.pass@.order.contains(n) <==> names_of(graph).contains(n)
    &&& run.pass@.next == 0
    &&& run.pass@.paused is None
    &&& !run.pass@.moved
    &&& run.phase is Look
}

/// Whether what a pass has chosen for its scope accounts for everything.
spec fn phase_fits(
    graph: Seq<ScopeView>,
    covers: spec_fn(Text, Text) -> bool,
    run: PassRun,
) -> bool {
    let scope = run.pass@.order[run.pass@.next as int];
    match run.phase {
        PassPhase::Look => true,
        PassPhase::Forward { id } => forall|c: Text| #[trigger]
            side_in(graph, run.pass@.heads, scope, c) ==> covers(id@, c),
        PassPhase::Merge { inputs } => inputs_cover(graph, covers, run.pass@, inputs@),
        PassPhase::Resolve { inputs } => inputs_cover(graph, covers, run.pass@, inputs@),
        PassPhase::Write { inputs } => inputs_cover(graph, covers, run.pass@, inputs@),
    }
}

spec fn inputs_cover(
    graph: Seq<ScopeView>,
    covers: spec_fn(Text, Text) -> bool,
    pass: PassView,
    inputs: Seq<crate::converge::Input>,
) -> bool {
    forall|c: Text| #[trigger]
        side_in(graph, pass.heads, pass.order[pass.next as int], c) ==> exists|k: int|
            0 <= k < inputs.len() && covers((#[trigger] inputs[k]).id@, c)
}

/// What holds all through a pass: the scopes behind it are settled.
spec fn on_course(
    graph: Seq<ScopeView>,
    covers: spec_fn(Text, Text) -> bool,
    run: PassRun,
) -> bool {
    &&& cascade_order(graph, run.pass@.order)
    &&& forall|n: Text| #[trigger] run.pass@.order.contains(n) <==> names_of(graph).contains(n)
    &&& run.pass@.next <= run.pass@.order.len()
    &&& !(run.phase is Look) ==> !is_over(run.pass@)
    &&& !is_over(run.pass@) ==> phase_fits(graph, covers, run)
    &&& forall|k: int|
        0 <= k < run.pass@.next ==> settled_at(
            graph,
            covers,
            run.pass@.heads,
            #[trigger] run.pass@.order[k],
        )
}

proof fn lemma_sides_agree(graph: Seq<ScopeView>, heads: Seq<(String, Head)>, scope: Text, id: Text)
    ensures
        is_side(graph, heads, scope, id) == side_in(graph, heads_view(heads), scope, id),
{
    if is_side(graph, heads, scope, id) {
        let from = choose|from: Text|
            (from == scope || graph_parents(graph, scope).contains(from)) && #[trigger] head_of(
                heads,
                from,
            ).sides.contains(id);
        lemma_head_in(heads, from);
        assert(head_in(heads_view(heads), from).sides.contains(id));
    }
    if side_in(graph, heads_view(heads), scope, id) {
        let from = choose|from: Text|
            (from == scope || graph_parents(graph, scope).contains(from)) && #[trigger] head_in(
                heads_view(heads),
                from,
            ).sides.contains(id);
        lemma_head_in(heads, from);
        assert(head_of(heads, from).sides.contains(id));
    }
}

/// What is left of the candidates of a scope, by what it has to account for.
proof fn lemma_left(
    graph: Seq<ScopeView>,
    heads: Seq<(String, Head)>,
    published: HeadView,
    covers: spec_fn(Text, Text) -> bool,
    scope: Text,
    uncovered: Seq<Text>,
)
    requires
        are_heads(
            covers,
            input_ids(candidates_of(graph, heads, published, scope)),
            uncovered,
        ),
    ensures
        ({
            let left = input_ids(
                candidates_of(graph, heads, published, scope).filter(
                    |i: InputView| uncovered.contains(i.id),
                ),
            );
            &&& left.no_duplicates()
            &&& forall|id: Text| #[trigger] left.contains(id) <==> uncovered.contains(id)
            &&& forall|id: Text| #[trigger]
                left.contains(id) ==> side_in(graph, heads_view(heads), scope, id)
            &&& forall|id: Text|
                side_in(graph, heads_view(heads), scope, id) ==> #[trigger] covered_by(
                    covers,
                    left,
                    id,
                )
            &&& forall|u: Text, v: Text| #[trigger]
                left.contains(u) && #[trigger] left.contains(v) && covers(u, v) ==> u == v
        }),
{
    let all = candidates_of(graph, heads, published, scope);
    let left = input_ids(all.filter(|i: InputView| uncovered.contains(i.id)));
    law_no_commit_is_an_input_twice(graph, heads, published, scope);
    law_inputs_are_the_uncovered_candidates(covers, all, uncovered);
    assert forall|id: Text| #[trigger] left.contains(id) implies side_in(
        graph,
        heads_view(heads),
        scope,
        id,
    ) by {
        law_every_side_is_accounted_for(graph, heads, published, scope, id);
        lemma_sides_agree(graph, heads, scope, id);
    }
    assert forall|id: Text|
        side_in(graph, heads_view(heads), scope, id) implies #[trigger] covered_by(
        covers,
        left,
        id,
    ) by {
        lemma_sides_agree(graph, heads, scope, id);
        law_every_side_is_accounted_for(graph, heads, published, scope, id);
        assert(input_ids(all).contains(id));
    }
}

/// Moving the head of a scope that a pass has come to leaves what goes into the
/// scopes behind it as it is.
proof fn lemma_behind_is_kept(
    graph: Seq<ScopeView>,
    covers: spec_fn(Text, Text) -> bool,
    pass: PassView,
    head: HeadView,
    k: int,
)
    requires
        graph_wf(graph),
        cascade_order(graph, pass.order),
        forall|n: Text| #[trigger] pass.order.contains(n) <==> names_of(graph).contains(n),
        0 <= k < pass.next < pass.order.len(),
        settled_at(graph, covers, pass.heads, pass.order[k]),
    ensures
        settled_at(
            graph,
            covers,
            crate::pass::with_head(pass.heads, pass.order[pass.next as int], head),
            pass.order[k],
        ),
{
    let moved = pass.order[pass.next as int];
    let after = crate::pass::with_head(pass.heads, moved, head);
    let scope = pass.order[k];
    law_parents_before_children(graph, pass.order);
    assert forall|from: Text|
        from == scope || graph_parents(graph, scope).contains(from) implies #[trigger] head_in(
        after,
        from,
    ) == head_in(pass.heads, from) by {
        if from != scope {
            lemma_parent_is_in(graph, from, scope);
            assert(pass.order.contains(from));
            let at = choose|at: int| 0 <= at < pass.order.len() && pass.order[at] == from;
            assert(is_parent(graph, pass.order[at], pass.order[k]));
            assert(at < k);
        }
        lemma_with_head(pass.heads, moved, head, from);
    }
    assert(head_in(after, scope) == head_in(pass.heads, scope));
    assert forall|id: Text| #[trigger] side_in(graph, after, scope, id) == side_in(
        graph,
        pass.heads,
        scope,
        id,
    ) by {
        lemma_same_sides(graph, pass.heads, after, scope, id);
    }
    if forall|id: Text| !#[trigger] side_in(graph, pass.heads, scope, id) {
        assert forall|id: Text| !#[trigger] side_in(graph, after, scope, id) by {
            assert(!side_in(graph, pass.heads, scope, id));
        }
    } else {
        assert forall|id: Text| #[trigger] side_in(graph, after, scope, id) implies covers(
            one_commit(head_in(after, scope))->0,
            id,
        ) by {
            assert(side_in(graph, pass.heads, scope, id));
        }
    }
}

proof fn lemma_same_sides(
    graph: Seq<ScopeView>,
    one: HeadsView,
    other: HeadsView,
    scope: Text,
    id: Text,
)
    requires
        forall|from: Text|
            from == scope || graph_parents(graph, scope).contains(from) ==> #[trigger] head_in(
                other,
                from,
            ) == head_in(one, from),
    ensures
        side_in(graph, other, scope, id) == side_in(graph, one, scope, id),
{
    if side_in(graph, one, scope, id) {
        let from = choose|from: Text|
            (from == scope || graph_parents(graph, scope).contains(from)) && #[trigger] head_in(
                one,
                from,
            ).sides.contains(id);
        assert(head_in(other, from).sides.contains(id));
    }
    if side_in(graph, other, scope, id) {
        let from = choose|from: Text|
            (from == scope || graph_parents(graph, scope).contains(from)) && #[trigger] head_in(
                other,
                from,
            ).sides.contains(id);
        assert(head_in(one, from).sides.contains(id));
    }
}

proof fn lemma_parent_is_in(graph: Seq<ScopeView>, parent: Text, scope: Text)
    requires
        graph_wf(graph),
        graph_parents(graph, scope).contains(parent),
    ensures
        is_parent(graph, parent, scope),
        names_of(graph).contains(parent),
{
    lemma_lookup(graph, scope);
    let found = crate::scope_graph::lookup(graph, scope)->0;
    let i = choose|i: int| 0 <= i < graph.len() && graph[i] == found;
    assert(graph[i].name == scope && graph[i].parents.contains(parent));
}

/// A head that covers what goes into its scope settles it.
proof fn lemma_moved_is_settled(
    graph: Seq<ScopeView>,
    covers: spec_fn(Text, Text) -> bool,
    pass: PassView,
    id: Text,
)
    requires
        graph_wf(graph),
        cascade_order(graph, pass.order),
        forall|n: Text| #[trigger] pass.order.contains(n) <==> names_of(graph).contains(n),
        pass.next < pass.order.len(),
        is_covering(covers),
        forall|c: Text| #[trigger]
            side_in(graph, pass.heads, pass.order[pass.next as int], c) ==> covers(id, c),
    ensures
        settled_at(
            graph,
            covers,
            crate::pass::with_head(
                pass.heads,
                pass.order[pass.next as int],
                (HeadView { sides: seq![id], contested: false }),
            ),
            pass.order[pass.next as int],
        ),
{
    let scope = pass.order[pass.next as int];
    let head = HeadView { sides: seq![id], contested: false };
    let after = crate::pass::with_head(pass.heads, scope, head);
    law_parents_before_children(graph, pass.order);
    lemma_with_head(pass.heads, scope, head, scope);
    assert(one_commit(head_in(after, scope)) == Some(id));
    assert forall|c: Text| #[trigger] side_in(graph, after, scope, c) implies covers(id, c) by {
        let from = choose|from: Text|
            (from == scope || graph_parents(graph, scope).contains(from)) && #[trigger] head_in(
                after,
                from,
            ).sides.contains(c);
        if from == scope {
            let k = choose|k: int| 0 <= k < head.sides.len() && head.sides[k] == c;
            assert(c == id);
        } else {
            lemma_with_head(pass.heads, scope, head, from);
            assert(head_in(pass.heads, from).sides.contains(c));
            assert(side_in(graph, pass.heads, scope, c));
        }
    }
}

proof fn lemma_moves(
    graph: Seq<ScopeView>,
    covers: spec_fn(Text, Text) -> bool,
    before: PassRun,
    after: PassRun,
    id: Text,
)
    requires
        graph_wf(graph),
        is_covering(covers),
        on_course(graph, covers, before),
        !is_over(before.pass@),
        after.phase is Look,
        after.pass@ == after_outcome(before.pass@, OutcomeView::Moved(id)),
        forall|c: Text| #[trigger]
            side_in(
                graph,
                before.pass@.heads,
                before.pass@.order[before.pass@.next as int],
                c,
            ) ==> covers(id, c),
    ensures
        on_course(graph, covers, after),
{
    let pass = before.pass@;
    let head = HeadView { sides: seq![id], contested: false };
    lemma_moved_is_settled(graph, covers, pass, id);
    assert forall|k: int| 0 <= k < after.pass@.next implies settled_at(
        graph,
        covers,
        after.pass@.heads,
        #[trigger] after.pass@.order[k],
    ) by {
        if k < pass.next {
            assert(settled_at(graph, covers, pass.heads, pass.order[k]));
            lemma_behind_is_kept(graph, covers, pass, head, k);
        }
    }
}

proof fn lemma_stays_on_course(
    graph: Seq<ScopeView>,
    published: Seq<(String, Head)>,
    covers: spec_fn(Text, Text) -> bool,
    before: PassRun,
    event: PassEvent,
    after: PassRun,
)
    requires
        graph_wf(graph),
        is_covering(covers),
        on_course(graph, covers, before),
        passes_to(graph, published, before, event, after),
        is_true(graph, published, covers, before, event),
    ensures
        on_course(graph, covers, after),
{
    let pass = before.pass@;
    let scope = pass.order[pass.next as int];
    match (before.phase, event) {
        (PassPhase::Look, PassEvent::Reduced { uncovered }) => {
            if !is_over(pass) {
                let heads = before.pass.heads@;
                let known = head_of(published, scope);
                let left = candidates_of(graph, heads, known, scope).filter(
                    |i: InputView| texts(uncovered@).contains(i.id),
                );
                lemma_left(graph, heads, known, covers, scope, texts(uncovered@));
                lemma_head_in(heads, scope);
                let ids = input_ids(left);
                assert(ids.len() == left.len());
                if left.len() <= 1 && after.phase is Look {
                    assert forall|k: int| 0 <= k < after.pass@.next implies settled_at(
                        graph,
                        covers,
                        after.pass@.heads,
                        #[trigger] after.pass@.order[k],
                    ) by {
                        if k == pass.next {
                            assert forall|c: Text| #[trigger]
                                side_in(graph, pass.heads, scope, c) implies left.len() == 1
                                && covers(left[0].id, c) by {
                                assert(covered_by(covers, ids, c));
                                let m = choose|m: int|
                                    0 <= m < ids.len() && covers(#[trigger] ids[m], c);
                                assert(ids[0] == left[0].id);
                            }
                        } else {
                            assert(settled_at(graph, covers, pass.heads, pass.order[k]));
                        }
                    }
                } else if left.len() == 1 {
                    assert forall|c: Text| #[trigger]
                        side_in(graph, pass.heads, scope, c) implies covers(left[0].id, c) by {
                        assert(covered_by(covers, ids, c));
                        let m = choose|m: int|
                            0 <= m < ids.len() && covers(#[trigger] ids[m], c);
                        assert(ids[0] == left[0].id);
                    }
                } else if let PassPhase::Merge { inputs } = after.phase {
                    assert forall|c: Text| #[trigger]
                        side_in(graph, pass.heads, scope, c) implies exists|k: int|
                        0 <= k < inputs@.len() && covers((#[trigger] inputs@[k]).id@, c) by {
                        assert(covered_by(covers, ids, c));
                        let m = choose|m: int|
                            0 <= m < ids.len() && covers(#[trigger] ids[m], c);
                        assert(input_views(inputs@)[m] == inputs@[m]@);
                        assert(covers(inputs@[m].id@, c));
                    }
                }
            }
        },
        (PassPhase::Forward { id }, PassEvent::HeadSet) => {
            lemma_moves(graph, covers, before, after, id@);
        },
        (PassPhase::Write { inputs }, PassEvent::Written { id }) => {
            assert forall|c: Text| #[trigger] side_in(graph, pass.heads, scope, c) implies covers(
                id@,
                c,
            ) by {
                let k = choose|k: int| 0 <= k < inputs@.len() && covers((#[trigger] inputs@[k]).id@, c);
                assert(covers(id@, inputs@[k].id@));
            }
            lemma_moves(graph, covers, before, after, id@);
        },
        _ => {},
    }
}

proof fn lemma_whole_course(
    graph: Seq<ScopeView>,
    published: Seq<(String, Head)>,
    covers: spec_fn(Text, Text) -> bool,
    runs: Seq<PassRun>,
    events: Seq<PassEvent>,
    i: int,
)
    requires
        graph_wf(graph),
        is_covering(covers),
        is_course(graph, published, covers, runs, events),
        is_fresh(graph, runs[0]),
        0 <= i < runs.len(),
    ensures
        on_course(graph, covers, runs[i]),
    decreases i,
{
    if i > 0 {
        lemma_whole_course(graph, published, covers, runs, events, i - 1);
        assert(passes_to(graph, published, runs[i - 1], events[i - 1], runs[i - 1 + 1]));
        lemma_stays_on_course(graph, published, covers, runs[i - 1], events[i - 1], runs[i]);
    }
}

/// A pass that ran to its end leaves every scope settled: its head is one commit
/// that accounts for the scope's own work and for what its parents hold.
pub proof fn law_a_finished_pass_leaves_every_scope_settled(
    graph: Seq<ScopeView>,
    published: Seq<(String, Head)>,
    covers: spec_fn(Text, Text) -> bool,
    runs: Seq<PassRun>,
    events: Seq<PassEvent>,
)
    requires
        graph_wf(graph),
        is_covering(covers),
        is_course(graph, published, covers, runs, events),
        is_fresh(graph, runs[0]),
        is_over(runs.last().pass@),
        runs.last().pass@.paused is None,
    ensures
        settled(graph, covers, runs.last().pass@.heads),
{
    lemma_whole_course(graph, published, covers, runs, events, runs.len() - 1);
    let pass = runs.last().pass@;
    assert forall|n: Text| #[trigger] names_of(graph).contains(n) implies settled_at(
        graph,
        covers,
        pass.heads,
        n,
    ) by {
        assert(pass.order.contains(n));
        let k = choose|k: int| 0 <= k < pass.order.len() && pass.order[k] == n;
        assert(settled_at(graph, covers, pass.heads, pass.order[k]));
    }
}

/// A head that accounts for everything is kept: the pass asks for no merge and
/// moves nothing.
pub proof fn law_a_head_that_covers_all_is_kept(
    graph: Seq<ScopeView>,
    published: Seq<(String, Head)>,
    covers: spec_fn(Text, Text) -> bool,
    before: PassRun,
    event: PassEvent,
    after: PassRun,
)
    requires
        is_covering(covers),
        passes_to(graph, published, before, event, after),
        is_true(graph, published, covers, before, event),
        before.phase is Look,
        !is_over(before.pass@),
        event is Reduced,
        settled_at(
            graph,
            covers,
            before.pass@.heads,
            before.pass@.order[before.pass@.next as int],
        ),
    ensures
        after.phase is Look,
        after.pass@ == after_outcome(before.pass@, OutcomeView::Kept),
        after.pass@.moved == before.pass@.moved,
        after.pass@.heads == before.pass@.heads,
{
    let pass = before.pass@;
    let scope = pass.order[pass.next as int];
    let heads = before.pass.heads@;
    let known = head_of(published, scope);
    if let PassEvent::Reduced { uncovered } = event {
        let left = candidates_of(graph, heads, known, scope).filter(
            |i: InputView| texts(uncovered@).contains(i.id),
        );
        let ids = input_ids(left);
        lemma_left(graph, heads, known, covers, scope, texts(uncovered@));
        lemma_head_in(heads, scope);
        assert(ids.len() == left.len());
        if ids.len() > 0 {
            assert(ids.contains(ids[0]));
            assert(side_in(graph, pass.heads, scope, ids[0]));
            let head = one_commit(head_in(pass.heads, scope))->0;
            assert(head_in(pass.heads, scope).sides[0] == head);
            assert(head_in(pass.heads, scope).sides.contains(head));
            assert(side_in(graph, pass.heads, scope, head));
            assert(covered_by(covers, ids, head));
            let m = choose|m: int| 0 <= m < ids.len() && covers(#[trigger] ids[m], head);
            assert(ids.contains(ids[m]));
            assert(side_in(graph, pass.heads, scope, ids[m]));
            assert(covers(head, ids[m]));
            assert(ids[m] == head);
            assert forall|k: int| 0 <= k < ids.len() implies ids[k] == head by {
                assert(ids.contains(ids[k]));
                assert(side_in(graph, pass.heads, scope, ids[k]));
                assert(covers(head, ids[k]));
            }
            if ids.len() > 1 {
                assert(ids[0] == ids[1]);
            }
            assert(left[0].id == ids[0]);
        }
    }
}

/// A pass over settled scopes leaves them as they are: at every point of it no
/// head has moved, nothing is paused, and it is looking, not merging or writing.
pub proof fn law_a_settled_repo_is_left_alone(
    graph: Seq<ScopeView>,
    published: Seq<(String, Head)>,
    covers: spec_fn(Text, Text) -> bool,
    runs: Seq<PassRun>,
    events: Seq<PassEvent>,
    i: int,
)
    requires
        is_covering(covers),
        is_course(graph, published, covers, runs, events),
        is_fresh(graph, runs[0]),
        settled(graph, covers, runs[0].pass@.heads),
        0 <= i < runs.len(),
    ensures
        runs[i].pass@.heads == runs[0].pass@.heads,
        runs[i].pass@.order == runs[0].pass@.order,
        !runs[i].pass@.moved,
        runs[i].pass@.paused is None,
        runs[i].phase is Look,
    decreases i,
{
    if i > 0 {
        law_a_settled_repo_is_left_alone(graph, published, covers, runs, events, i - 1);
        let before = runs[i - 1];
        let event = events[i - 1];
        assert(passes_to(graph, published, runs[i - 1], events[i - 1], runs[i - 1 + 1]));
        if event is Reduced && !is_over(before.pass@) {
            let scope = before.pass@.order[before.pass@.next as int];
            assert(before.pass@.order.contains(scope));
            assert(names_of(graph).contains(scope));
            law_a_head_that_covers_all_is_kept(
                graph,
                published,
                covers,
                before,
                event,
                runs[i],
            );
        }
    }
}

/// A second pass moves nothing: over the heads that a pass left when it ran to
/// its end, it writes nothing and moves no head, whatever is known of the remote
/// by then.
pub proof fn law_a_second_pass_moves_nothing(
    graph: Seq<ScopeView>,
    covers: spec_fn(Text, Text) -> bool,
    published: Seq<(String, Head)>,
    first: Seq<PassRun>,
    first_events: Seq<PassEvent>,
    published_then: Seq<(String, Head)>,
    second: Seq<PassRun>,
    second_events: Seq<PassEvent>,
    i: int,
)
    requires
        graph_wf(graph),
        is_covering(covers),
        is_course(graph, published, covers, first, first_events),
        is_fresh(graph, first[0]),
        is_over(first.last().pass@),
        first.last().pass@.paused is None,
        is_course(graph, published_then, covers, second, second_events),
        is_fresh(graph, second[0]),
        second[0].pass@.heads == first.last().pass@.heads,
        0 <= i < second.len(),
    ensures
        second[i].pass@.heads == first.last().pass@.heads,
        !second[i].pass@.moved,
        second[i].pass@.paused is None,
        second[i].phase is Look,
{
    law_a_finished_pass_leaves_every_scope_settled(graph, published, covers, first, first_events);
    law_a_settled_repo_is_left_alone(graph, published_then, covers, second, second_events, i);
}

} // verus!
