//! The course of a convergence pass: which scope is next, what has moved, and
//! where it stopped. The caller merges and writes; the pass keeps the order.
use vstd::prelude::*;
use vstd::string::*;
use crate::bootstrap::{has_scope, lemma_has_scope};
use crate::converge::{
    after_merge, after_resolution, candidates_of, convergence_candidates, convergence_description,
    convergence_inputs, input_ids, input_views, merge_plan, merge_step, scope_step, AfterMerge, Input,
    InputView, MergeStep, ScopeStep,
};
use crate::repo::{head_of, no_head, one_commit, scope_head, Head, HeadView, Heads};
use crate::scope_graph::{
    below, below_by, cascade_order, is_parent, law_parents_before_children, lemma_below_last,
    names_of, ref_views, ScopeGraph, ScopeView,
};
use crate::text::{opt_text, same_text, texts, Text};

verus! {

/// The heads of scopes as contracts see them.
pub type HeadsView = Seq<(Text, HeadView)>;

/// The heads of scopes as contracts see them.
pub open spec fn heads_view(heads: Seq<(String, Head)>) -> HeadsView {
    heads.map_values(|e: (String, Head)| (e.0@, e.1@))
}

/// The head of a scope: the first one that is listed for it.
pub open spec fn head_in(heads: HeadsView, scope: Text) -> HeadView
    decreases heads.len(),
{
    if heads.len() == 0 {
        no_head()
    } else if heads[0].0 == scope {
        heads[0].1
    } else {
        head_in(heads.skip(1), scope)
    }
}

/// The two ways to look a head up agree.
pub proof fn lemma_head_in(heads: Seq<(String, Head)>, scope: Text)
    ensures
        head_of(heads, scope) == head_in(heads_view(heads), scope),
    decreases heads.len(),
{
    if heads.len() > 0 {
        lemma_head_in(heads.skip(1), scope);
        assert(heads_view(heads).skip(1) =~= heads_view(heads.skip(1)));
    }
}

/// The heads with one of them at another commit.
pub open spec fn with_head(heads: HeadsView, scope: Text, head: HeadView) -> HeadsView
    decreases heads.len(),
{
    if heads.len() == 0 {
        seq![(scope, head)]
    } else if heads[0].0 == scope {
        seq![(scope, head)] + heads.skip(1)
    } else {
        seq![heads[0]] + with_head(heads.skip(1), scope, head)
    }
}

/// Moving one head moves no other.
pub proof fn lemma_with_head(heads: HeadsView, scope: Text, head: HeadView, other: Text)
    ensures
        head_in(with_head(heads, scope, head), other) == if other == scope {
            head
        } else {
            head_in(heads, other)
        },
    decreases heads.len(),
{
    let after = with_head(heads, scope, head);
    if heads.len() == 0 {
        assert(after.skip(1) =~= heads);
        assert(after[0] == (scope, head));
    } else if heads[0].0 == scope {
        assert(after.skip(1) =~= heads.skip(1));
        assert(after[0] == (scope, head));
    } else {
        lemma_with_head(heads.skip(1), scope, head, other);
        assert(after.skip(1) =~= with_head(heads.skip(1), scope, head));
        assert(after[0] == heads[0]);
    }
}

/// Where a pass stands.
pub struct PassView {
    /// The scopes in cascade order.
    pub order: Seq<Text>,
    /// How many of them are done.
    pub next: nat,
    pub heads: HeadsView,
    pub moved: bool,
    pub paused: Option<Text>,
}

/// What became of a scope.
pub enum Outcome {
    /// Its head is where it was.
    Kept,
    /// Its head is at this commit now.
    Moved(String),
    /// Its merge holds a file that two sides changed differently.
    Stopped,
}

/// What became of a scope, as contracts see it.
pub enum OutcomeView {
    Kept,
    Moved(Text),
    Stopped,
}

impl View for Outcome {
    type V = OutcomeView;

    open spec fn view(&self) -> OutcomeView {
        match self {
            Outcome::Kept => OutcomeView::Kept,
            Outcome::Moved(id) => OutcomeView::Moved(id@),
            Outcome::Stopped => OutcomeView::Stopped,
        }
    }
}

/// Whether a pass has no scope left to look at.
pub open spec fn is_over(pass: PassView) -> bool {
    pass.paused is Some || pass.next >= pass.order.len()
}

/// The pass after what became of its scope is known. A pass that is over stays
/// as it is.
pub open spec fn after_outcome(pass: PassView, outcome: OutcomeView) -> PassView {
    if is_over(pass) {
        pass
    } else {
        let scope = pass.order[pass.next as int];
        match outcome {
            OutcomeView::Kept => PassView { next: pass.next + 1, ..pass },
            OutcomeView::Moved(id) => PassView {
                next: pass.next + 1,
                heads: with_head(
                    pass.heads,
                    scope,
                    HeadView { sides: seq![id], contested: false },
                ),
                moved: true,
                ..pass
            },
            OutcomeView::Stopped => PassView { paused: Some(scope), ..pass },
        }
    }
}

/// The pass after what became of several scopes is known.
pub open spec fn after_outcomes(pass: PassView, outcomes: Seq<OutcomeView>) -> PassView
    decreases outcomes.len(),
{
    if outcomes.len() == 0 {
        pass
    } else {
        after_outcome(after_outcomes(pass, outcomes.drop_last()), outcomes.last())
    }
}

/// A pass over a settled machine moves nothing, so it leaves every head where
/// it found it and has nothing to record.
pub proof fn law_settled_pass_moves_nothing(pass: PassView, outcomes: Seq<OutcomeView>)
    requires
        forall|k: int| 0 <= k < outcomes.len() ==> #[trigger] outcomes[k] is Kept,
    ensures
        after_outcomes(pass, outcomes).moved == pass.moved,
        after_outcomes(pass, outcomes).heads == pass.heads,
        after_outcomes(pass, outcomes).paused == pass.paused,
    decreases outcomes.len(),
{
    if outcomes.len() > 0 {
        assert(outcomes.last() is Kept);
        let front = outcomes.drop_last();
        assert forall|k: int| 0 <= k < front.len() implies #[trigger] front[k] is Kept by {
            assert(front[k] == outcomes[k]);
        }
        law_settled_pass_moves_nothing(pass, front);
    }
}

/// A pass ends: with an outcome for each of its scopes it is over. It then has
/// looked at every one of them, or it says at which it stopped.
pub proof fn law_a_pass_looks_at_every_scope(pass: PassView, outcomes: Seq<OutcomeView>)
    requires
        pass.next == 0,
        pass.paused is None,
        outcomes.len() >= pass.order.len(),
    ensures
        is_over(after_outcomes(pass, outcomes)),
        after_outcomes(pass, outcomes).paused is None ==> after_outcomes(pass, outcomes).next
            == pass.order.len(),
        after_outcomes(pass, outcomes).paused matches Some(scope) ==> pass.order.contains(scope),
{
    lemma_progress(pass, outcomes);
}

proof fn lemma_progress(pass: PassView, outcomes: Seq<OutcomeView>)
    requires
        pass.next == 0,
        pass.paused is None,
    ensures
        ({
            let now = after_outcomes(pass, outcomes);
            &&& now.order == pass.order
            &&& now.next <= pass.order.len()
            &&& now.paused is None ==> now.next == if outcomes.len() < pass.order.len() {
                outcomes.len()
            } else {
                pass.order.len()
            }
            &&& now.paused matches Some(scope) ==> pass.order.contains(scope)
        }),
    decreases outcomes.len(),
{
    if outcomes.len() > 0 {
        lemma_progress(pass, outcomes.drop_last());
    }
}

/// A pass that says nothing moved has moved no head, and so has nothing to
/// commit.
pub proof fn law_unmoved_pass_has_the_same_heads(pass: PassView, outcomes: Seq<OutcomeView>)
    requires
        !after_outcomes(pass, outcomes).moved,
    ensures
        after_outcomes(pass, outcomes).heads == pass.heads,
        !pass.moved,
    decreases outcomes.len(),
{
    if outcomes.len() > 0 {
        law_unmoved_pass_has_the_same_heads(pass, outcomes.drop_last());
    }
}

/// What a pass has not come to yet is as it was, and a pass that stopped
/// stopped at the scope it had come to.
pub proof fn lemma_rest_is_untouched(pass: PassView, outcomes: Seq<OutcomeView>)
    requires
        pass.order.no_duplicates(),
        pass.paused is None,
        pass.next <= pass.order.len(),
    ensures
        ({
            let now = after_outcomes(pass, outcomes);
            &&& now.order == pass.order
            &&& pass.next <= now.next <= pass.order.len()
            &&& forall|k: int|
                now.next <= k < pass.order.len() ==> head_in(
                    now.heads,
                    #[trigger] pass.order[k],
                ) == head_in(pass.heads, pass.order[k])
            &&& now.paused matches Some(scope) ==> now.next < pass.order.len() && scope
                == pass.order[now.next as int]
        }),
    decreases outcomes.len(),
{
    if outcomes.len() > 0 {
        let before = after_outcomes(pass, outcomes.drop_last());
        let now = after_outcomes(pass, outcomes);
        lemma_rest_is_untouched(pass, outcomes.drop_last());
        assert forall|k: int| now.next <= k < pass.order.len() implies head_in(
            now.heads,
            #[trigger] pass.order[k],
        ) == head_in(pass.heads, pass.order[k]) by {
            if let OutcomeView::Moved(id) = outcomes.last() {
                if !is_over(before) {
                    let head = HeadView { sides: seq![id], contested: false };
                    let scope = pass.order[before.next as int];
                    lemma_with_head(before.heads, scope, head, pass.order[k]);
                }
            }
        }
    }
}

/// What is below a scope comes after it in a cascade order.
proof fn lemma_below_is_later(
    graph: Seq<ScopeView>,
    order: Seq<Text>,
    upper: int,
    lower: Text,
    steps: nat,
)
    requires
        cascade_order(graph, order),
        forall|n: Text| #[trigger] order.contains(n) <==> names_of(graph).contains(n),
        forall|i: int, p: Text|
            0 <= i < graph.len() && #[trigger] graph[i].parents.contains(p) ==> names_of(
                graph,
            ).contains(p),
        0 <= upper < order.len(),
        below_by(graph, order[upper], lower, steps),
        steps > 0,
    ensures
        exists|k: int| upper < k < order.len() && #[trigger] order[k] == lower,
    decreases steps,
{
    lemma_below_last(graph, order[upper], lower, steps);
    let middle = choose|middle: Text| #[trigger]
        below_by(graph, order[upper], middle, (steps - 1) as nat) && is_parent(
            graph,
            middle,
            lower,
        );
    let i = choose|i: int|
        0 <= i < graph.len() && (#[trigger] graph[i]).name == lower && graph[i].parents.contains(
            middle,
        );
    assert(names_of(graph)[i] == lower);
    assert(order.contains(lower));
    let k = choose|k: int| 0 <= k < order.len() && order[k] == lower;
    law_parents_before_children(graph, order);
    if steps == 1 {
        lemma_below_last(graph, order[upper], middle, 0);
        assert(is_parent(graph, order[upper], order[k]));
    } else {
        lemma_below_is_later(graph, order, upper, middle, (steps - 1) as nat);
        let m = choose|m: int| upper < m < order.len() && #[trigger] order[m] == middle;
        assert(is_parent(graph, order[m], order[k]));
    }
}

proof fn lemma_settled_stays(
    pass: PassView,
    outcomes: Seq<OutcomeView>,
    more: Seq<OutcomeView>,
    at: int,
)
    requires
        pass.order.no_duplicates(),
        pass.paused is None,
        pass.next <= pass.order.len(),
        0 <= at < after_outcomes(pass, outcomes).next,
    ensures
        ({
            let now = after_outcomes(pass, outcomes);
            let later = after_outcomes(pass, outcomes + more);
            &&& now.next <= later.next
            &&& head_in(later.heads, pass.order[at]) == head_in(now.heads, pass.order[at])
        }),
    decreases more.len(),
{
    if more.len() == 0 {
        assert(outcomes + more =~= outcomes);
    } else {
        let front = outcomes + more.drop_last();
        assert((outcomes + more).drop_last() =~= front);
        assert((outcomes + more).last() == more.last());
        lemma_settled_stays(pass, outcomes, more.drop_last(), at);
        let before = after_outcomes(pass, front);
        lemma_rest_is_untouched(pass, outcomes);
        lemma_rest_is_untouched(pass, front);
        if let OutcomeView::Moved(id) = more.last() {
            if !is_over(before) {
                let head = HeadView { sides: seq![id], contested: false };
                let scope = pass.order[before.next as int];
                assert(pass.order[at] != scope);
                lemma_with_head(before.heads, scope, head, pass.order[at]);
            }
        }
    }
}

/// What a scope's parents hold when a pass comes to it is what they hold when
/// the pass ends, so what its merge takes in is never out of date.
pub proof fn law_a_scope_is_merged_with_its_parents_final_heads(
    graph: Seq<ScopeView>,
    pass: PassView,
    outcomes: Seq<OutcomeView>,
    more: Seq<OutcomeView>,
    parent: Text,
)
    requires
        crate::scope_graph::graph_wf(graph),
        cascade_order(graph, pass.order),
        forall|n: Text| #[trigger] pass.order.contains(n) <==> names_of(graph).contains(n),
        pass.next == 0,
        pass.paused is None,
        !is_over(after_outcomes(pass, outcomes)),
        is_parent(
            graph,
            parent,
            pass.order[after_outcomes(pass, outcomes).next as int],
        ),
    ensures
        head_in(after_outcomes(pass, outcomes + more).heads, parent) == head_in(
            after_outcomes(pass, outcomes).heads,
            parent,
        ),
{
    law_parents_before_children(graph, pass.order);
    lemma_rest_is_untouched(pass, outcomes);
    let now = after_outcomes(pass, outcomes);
    let scope = pass.order[now.next as int];
    let i = choose|i: int|
        0 <= i < graph.len() && (#[trigger] graph[i]).name == scope && graph[i].parents.contains(
            parent,
        );
    assert(graph[i].parents.contains(parent));
    assert(names_of(graph).contains(parent));
    assert(pass.order.contains(parent));
    let at = choose|at: int| 0 <= at < pass.order.len() && pass.order[at] == parent;
    assert(is_parent(graph, pass.order[at], pass.order[now.next as int]));
    lemma_settled_stays(pass, outcomes, more, at);
}

/// Where a pass stops, that scope and every scope after it in its order keep
/// their heads.
pub proof fn law_nothing_after_a_pause_moves(
    pass: PassView,
    outcomes: Seq<OutcomeView>,
    at: int,
    k: int,
)
    requires
        pass.order.no_duplicates(),
        pass.next == 0,
        pass.paused is None,
        0 <= at <= k < pass.order.len(),
        after_outcomes(pass, outcomes).paused == Some(pass.order[at]),
    ensures
        head_in(after_outcomes(pass, outcomes).heads, pass.order[k]) == head_in(
            pass.heads,
            pass.order[k],
        ),
{
    lemma_rest_is_untouched(pass, outcomes);
}

/// Where a pass stopped, that scope's head and the head of everything below it
/// are where they were before the pass.
pub proof fn law_nothing_below_a_pause_moves(
    graph: Seq<ScopeView>,
    pass: PassView,
    outcomes: Seq<OutcomeView>,
    scope: Text,
)
    requires
        crate::scope_graph::graph_wf(graph),
        cascade_order(graph, pass.order),
        forall|n: Text| #[trigger] pass.order.contains(n) <==> names_of(graph).contains(n),
        pass.next == 0,
        pass.paused is None,
        after_outcomes(pass, outcomes).paused is Some,
        scope == after_outcomes(pass, outcomes).paused->0 || below(
            graph,
            after_outcomes(pass, outcomes).paused->0,
            scope,
        ),
    ensures
        head_in(after_outcomes(pass, outcomes).heads, scope) == head_in(pass.heads, scope),
{
    law_parents_before_children(graph, pass.order);
    lemma_rest_is_untouched(pass, outcomes);
    let now = after_outcomes(pass, outcomes);
    let stopped = pass.order[now.next as int];
    if scope != stopped {
        let steps = choose|steps: nat| steps > 0 && #[trigger] below_by(graph, stopped, scope, steps);
        lemma_below_is_later(graph, pass.order, now.next as int, scope, steps);
        let k = choose|k: int|
            now.next < k < pass.order.len() && #[trigger] pass.order[k] == scope;
        assert(head_in(now.heads, pass.order[k]) == head_in(pass.heads, pass.order[k]));
    } else {
        assert(head_in(now.heads, pass.order[now.next as int]) == head_in(
            pass.heads,
            pass.order[now.next as int],
        ));
    }
}

/// Whether a pass over a graph is where it starts: before the first scope of all,
/// parents before children, with nothing moved.
pub open spec fn is_start(graph: Seq<ScopeView>, heads: HeadsView, pass: PassView) -> bool {
    &&& cascade_order(graph, pass.order)
    &&& forall|n: Text| #[trigger] pass.order.contains(n) <==> names_of(graph).contains(n)
    &&& pass.next == 0
    &&& pass.heads == heads
    &&& !pass.moved
    &&& pass.paused is None
}

/// A pass comes to every scope of the graph, to each once and to its parents
/// before it.
pub proof fn law_a_pass_comes_to_every_scope_of_the_graph(
    graph: Seq<ScopeView>,
    heads: HeadsView,
    pass: PassView,
)
    requires
        is_start(graph, heads, pass),
    ensures
        forall|j: int|
            0 <= j < graph.len() ==> pass.order.contains((#[trigger] graph[j]).name),
        forall|k: int| 0 <= k < pass.order.len() ==> has_scope(graph, #[trigger] pass.order[k]),
        forall|i: int, k: int|
            0 <= i < k < pass.order.len() ==> #[trigger] pass.order[i] != #[trigger] pass.order[k],
        forall|i: int, k: int|
            0 <= i < pass.order.len() && 0 <= k < pass.order.len() && #[trigger] is_parent(
                graph,
                pass.order[i],
                pass.order[k],
            ) ==> i < k,
        pass.next == 0 && !pass.moved && pass.paused is None && pass.heads == heads,
{
    law_parents_before_children(graph, pass.order);
    assert forall|j: int| 0 <= j < graph.len() implies pass.order.contains(
        (#[trigger] graph[j]).name,
    ) by {
        assert(names_of(graph)[j] == graph[j].name);
        assert(names_of(graph).contains(graph[j].name));
    }
    assert forall|k: int| 0 <= k < pass.order.len() implies has_scope(
        graph,
        #[trigger] pass.order[k],
    ) by {
        assert(pass.order.contains(pass.order[k]));
        lemma_has_scope(graph, pass.order[k]);
    }
}

/// A convergence pass.
pub struct Pass {
    pub order: Vec<String>,
    pub next: usize,
    pub heads: Heads,
    pub moved: bool,
    pub paused: Option<String>,
}

impl View for Pass {
    type V = PassView;

    open spec fn view(&self) -> PassView {
        PassView {
            order: texts(self.order@),
            next: self.next as nat,
            heads: heads_view(self.heads@),
            moved: self.moved,
            paused: opt_text(self.paused),
        }
    }
}

fn set_head(heads: &mut Heads, scope: &str, id: String)
    ensures
        heads_view(final(heads)@) == with_head(
            heads_view(old(heads)@),
            scope@,
            (HeadView { sides: seq![id@], contested: false }),
        ),
{
    let ghost before = heads_view(heads@);
    let ghost head = HeadView { sides: seq![id@], contested: false };
    let mut i: usize = 0;
    proof {
        assert(before.skip(0) =~= before);
        assert(before.take(0) + with_head(before.skip(0), scope@, head) =~= with_head(
            before,
            scope@,
            head,
        ));
    }
    while i < heads.len() && !same_text(heads[i].0.as_str(), scope)
        invariant
            i <= heads.len(),
            *heads == *old(heads),
            before == heads_view(heads@),
            with_head(before, scope@, head) == before.take(i as int) + with_head(
                before.skip(i as int),
                scope@,
                head,
            ),
        decreases heads.len() - i,
    {
        proof {
            let rest = before.skip(i as int);
            assert(rest[0] == before[i as int]);
            assert(before[i as int].0 == heads@[i as int].0@);
            assert(rest.skip(1) =~= before.skip(i + 1));
            assert(before.take(i as int) + (seq![rest[0]] + with_head(
                rest.skip(1),
                scope@,
                head,
            )) =~= before.take(i + 1) + with_head(before.skip(i + 1), scope@, head));
        }
        i += 1;
    }
    let new = (scope.to_owned(), Head::at(id));
    if i < heads.len() {
        proof {
            assert(before.skip(i as int)[0].0 == scope@);
            assert(before.skip(i as int).skip(1) =~= before.skip(i + 1));
        }
        heads.set(i, new);
        proof {
            assert(heads_view(heads@) =~= before.take(i as int) + (seq![(scope@, head)]
                + before.skip(i + 1)));
        }
    } else {
        proof {
            assert(before.take(i as int) =~= before);
        }
        heads.push(new);
        proof {
            assert(heads_view(heads@) =~= before + seq![(scope@, head)]);
        }
    }
}

impl Pass {
    /// A pass over a graph, from where its scopes stand.
    pub fn start(graph: &ScopeGraph, heads: Heads) -> (pass: Pass)
        ensures
            is_start(graph@, heads_view(heads@), pass@),
    {
        let scopes = graph.in_cascade_order();
        let mut order: Vec<String> = Vec::new();
        let mut i: usize = 0;
        while i < scopes.len()
            invariant
                i <= scopes.len(),
                order.len() == i,
                forall|j: int|
                    0 <= j < i ==> (#[trigger] order@[j])@ == names_of(ref_views(scopes@))[j],
            decreases scopes.len() - i,
        {
            proof {
                assert(names_of(ref_views(scopes@))[i as int] == scopes@[i as int]@.name);
            }
            order.push(scopes[i].name.clone());
            i += 1;
        }
        proof {
            assert(texts(order@) =~= names_of(ref_views(scopes@)));
        }
        Pass { order, next: 0, heads, moved: false, paused: None }
    }

    /// The scope to look at, `None` once the pass is over.
    pub fn current(&self) -> (scope: Option<&str>)
        ensures
            match scope {
                Some(scope) => !is_over(self@) && scope@ == self@.order[self@.next as int],
                None => is_over(self@),
            },
    {
        if self.paused.is_some() || self.next >= self.order.len() {
            None
        } else {
            proof {
                assert(self@.order[self.next as int] == self.order@[self.next as int]@);
            }
            Some(self.order[self.next].as_str())
        }
    }

    /// Takes note of what became of the scope that was looked at.
    pub fn settle(&mut self, outcome: Outcome)
        ensures
            final(self)@ == after_outcome(old(self)@, outcome@),
    {
        if self.paused.is_some() || self.next >= self.order.len() {
            return ;
        }
        let scope = self.order[self.next].clone();
        proof {
            assert(self@.order[self.next as int] == scope@);
        }
        match outcome {
            Outcome::Kept => {
                self.next = self.next + 1;
            },
            Outcome::Moved(id) => {
                set_head(&mut self.heads, scope.as_str(), id);
                self.moved = true;
                self.next = self.next + 1;
            },
            Outcome::Stopped => {
                self.paused = Some(scope);
            },
        }
    }
}

/// What the pass is doing about the scope it has come to.
pub enum PassPhase {
    /// Looking at what its new head has to account for.
    Look,
    /// Moving the head onto the one commit that accounts for everything.
    Forward { id: String },
    /// Merging the inputs.
    Merge { inputs: Vec<Input> },
    /// Laying the answer that was given for this scope over the merge.
    Resolve { inputs: Vec<Input> },
    /// Writing the merge, and moving the head onto it.
    Write { inputs: Vec<Input> },
}

/// A pass as it runs.
pub struct PassRun {
    pub pass: Pass,
    /// The scope that an answer was given for.
    pub answered: Option<String>,
    pub phase: PassPhase,
}

/// What the caller has to do.
pub enum PassAction {
    /// Say which of these candidates no other one covers.
    Reduce { scope: String, candidates: Vec<Input> },
    /// Move a scope's head onto a commit.
    SetHead { scope: String, id: String },
    /// Merge, in these steps.
    Merge { scope: String, steps: Vec<MergeStep> },
    /// Lay the answer over the merge.
    LayAnswer { scope: String },
    /// Write the merge on these commits, and move the scope's head onto it.
    Write { scope: String, parents: Vec<String>, description: String },
    /// Nothing: commit what was written if anything moved.
    Finish { moved: bool, paused: Option<String> },
}

/// What happened.
pub enum PassEvent {
    /// Of the candidates, these commits are covered by no other one.
    Reduced { uncovered: Vec<String> },
    HeadSet,
    Merged { conflicted: bool },
    AnswerLaid { conflicted: bool },
    Written { id: String },
}

/// The pass after something happened. An event that does not belong to a phase
/// changes nothing.
pub open spec fn passes_to(
    graph: Seq<ScopeView>,
    published: Seq<(String, Head)>,
    before: PassRun,
    event: PassEvent,
    after: PassRun,
) -> bool {
    &&& after.answered == before.answered
    &&& match (before.phase, event) {
        (PassPhase::Look, PassEvent::Reduced { uncovered }) => if is_over(before.pass@) {
            after == before
        } else {
            let scope = before.pass@.order[before.pass@.next as int];
            let head = head_of(before.pass.heads@, scope);
            let left = candidates_of(
                graph,
                before.pass.heads@,
                head_of(published, scope),
                scope,
            ).filter(|i: InputView| texts(uncovered@).contains(i.id));
            if left.len() == 0 || (left.len() == 1 && one_commit(head) == Some(left[0].id)) {
                after.phase is Look && after.pass@ == after_outcome(
                    before.pass@,
                    OutcomeView::Kept,
                )
            } else if left.len() == 1 {
                after.pass == before.pass && match after.phase {
                    PassPhase::Forward { id } => id@ == left[0].id,
                    _ => false,
                }
            } else {
                after.pass == before.pass && match after.phase {
                    PassPhase::Merge { inputs } => input_views(inputs@) == left,
                    _ => false,
                }
            }
        },
        (PassPhase::Forward { id }, PassEvent::HeadSet) => after.phase is Look && after.pass@
            == after_outcome(before.pass@, OutcomeView::Moved(id@)),
        (PassPhase::Merge { inputs }, PassEvent::Merged { conflicted }) => if is_over(
            before.pass@,
        ) {
            after == before
        } else if !conflicted {
            after.pass == before.pass && after.phase == (PassPhase::Write { inputs })
        } else if opt_text(before.answered) == Some(
            before.pass@.order[before.pass@.next as int],
        ) {
            after.pass == before.pass && after.phase == (PassPhase::Resolve { inputs })
        } else {
            after.phase is Look && after.pass@ == after_outcome(
                before.pass@,
                OutcomeView::Stopped,
            )
        },
        (PassPhase::Resolve { inputs }, PassEvent::AnswerLaid { conflicted }) => if conflicted {
            after.phase is Look && after.pass@ == after_outcome(
                before.pass@,
                OutcomeView::Stopped,
            )
        } else {
            after.pass == before.pass && after.phase == (PassPhase::Write { inputs })
        },
        (PassPhase::Write { inputs }, PassEvent::Written { id }) => after.phase is Look
            && after.pass@ == after_outcome(before.pass@, OutcomeView::Moved(id@)),
        _ => after == before,
    }
}

/// What the caller of a pass has to do.
pub open spec fn is_action(
    graph: Seq<ScopeView>,
    published: Seq<(String, Head)>,
    run: PassRun,
    action: PassAction,
) -> bool {
    if is_over(run.pass@) {
        match action {
            PassAction::Finish { moved, paused } => moved == run.pass.moved && opt_text(paused)
                == opt_text(run.pass.paused),
            _ => false,
        }
    } else {
        let here = run.pass@.order[run.pass@.next as int];
        match (run.phase, action) {
            (PassPhase::Look, PassAction::Reduce { scope, candidates }) => scope@ == here
                && input_views(candidates@) == candidates_of(
                graph,
                run.pass.heads@,
                head_of(published, here),
                here,
            ),
            (PassPhase::Forward { id }, PassAction::SetHead { scope, id: to }) => scope@ == here
                && to@ == id@,
            (PassPhase::Merge { inputs }, PassAction::Merge { scope, steps }) => {
                &&& scope@ == here
                &&& inputs@.len() > 0 ==> steps@.len() == inputs@.len() - 1
                &&& forall|k: int|
                    1 <= k < inputs@.len() ==> (#[trigger] steps@[k - 1])@ == merge_step(
                        input_views(inputs@),
                        k,
                    )
            },
            (PassPhase::Resolve { inputs }, PassAction::LayAnswer { scope }) => scope@ == here,
            (
                PassPhase::Write { inputs },
                PassAction::Write { scope, parents, description },
            ) => scope@ == here && texts(parents@) == input_ids(input_views(inputs@))
                && description@ == "dotsync: converge "@ + here,
            _ => false,
        }
    }
}

/// The commits of some inputs.
pub fn ids_of(inputs: &Vec<Input>) -> (ids: Vec<String>)
    ensures
        texts(ids@) == input_ids(input_views(inputs@)),
{
    let mut ids: Vec<String> = Vec::new();
    let mut i: usize = 0;
    while i < inputs.len()
        invariant
            i <= inputs.len(),
            ids.len() == i,
            forall|j: int| 0 <= j < i ==> (#[trigger] ids@[j])@ == inputs@[j].id@,
        decreases inputs.len() - i,
    {
        ids.push(inputs[i].id.clone());
        i += 1;
    }
    proof {
        assert(texts(ids@) =~= input_ids(input_views(inputs@)));
    }
    ids
}

impl PassRun {
    /// A pass over a graph, with the scope an answer was given for, if one was.
    pub fn start(graph: &ScopeGraph, heads: Heads, answered: Option<String>) -> (run: PassRun)
        ensures
            is_start(graph@, heads_view(heads@), run.pass@),
            run.answered == answered,
            run.phase is Look,
    {
        PassRun { pass: Pass::start(graph, heads), answered, phase: PassPhase::Look }
    }

    /// What the caller has to do.
    pub fn action(&self, graph: &ScopeGraph, published: &Heads) -> (action: PassAction)
        ensures
            is_action(graph@, published@, *self, action),
    {
        let scope = match self.pass.current() {
            None => {
                let paused = match &self.pass.paused {
                    Some(scope) => Some(scope.clone()),
                    None => None,
                };
                return PassAction::Finish { moved: self.pass.moved, paused };
            },
            Some(scope) => scope.to_owned(),
        };
        match &self.phase {
            PassPhase::Look => {
                let remote = scope_head(published, scope.as_str());
                let candidates = convergence_candidates(
                    graph,
                    &self.pass.heads,
                    &remote,
                    scope.as_str(),
                );
                PassAction::Reduce { scope, candidates }
            },
            PassPhase::Forward { id } => PassAction::SetHead { scope, id: id.clone() },
            PassPhase::Merge { inputs } => {
                let steps = if inputs.len() > 0 {
                    merge_plan(inputs)
                } else {
                    Vec::new()
                };
                PassAction::Merge { scope, steps }
            },
            PassPhase::Resolve { inputs } => PassAction::LayAnswer { scope },
            PassPhase::Write { inputs } => {
                let description = convergence_description(scope.as_str());
                PassAction::Write { scope, parents: ids_of(inputs), description }
            },
        }
    }

    /// The pass after something happened.
    pub fn step(self, graph: &ScopeGraph, published: &Heads, event: PassEvent) -> (after: PassRun)
        ensures
            passes_to(graph@, published@, self, event, after),
    {
        let here = match self.pass.current() {
            None => None,
            Some(scope) => Some(scope.to_owned()),
        };
        let mut pass = self.pass;
        let answered = self.answered;
        match (self.phase, event) {
            (PassPhase::Look, PassEvent::Reduced { uncovered }) => match here {
                None => PassRun { pass, answered, phase: PassPhase::Look },
                Some(scope) => {
                    let head = scope_head(&pass.heads, scope.as_str());
                    let remote = scope_head(published, scope.as_str());
                    let candidates = convergence_candidates(
                        graph,
                        &pass.heads,
                        &remote,
                        scope.as_str(),
                    );
                    let inputs = convergence_inputs(candidates, &uncovered);
                    proof {
                        assert(input_views(inputs@).len() == inputs@.len());
                        if inputs@.len() > 0 {
                            assert(input_views(inputs@)[0] == inputs@[0]@);
                        }
                    }
                    match scope_step(&inputs, &head) {
                        ScopeStep::Skip => {
                            pass.settle(Outcome::Kept);
                            PassRun { pass, answered, phase: PassPhase::Look }
                        },
                        ScopeStep::Keep => {
                            pass.settle(Outcome::Kept);
                            PassRun { pass, answered, phase: PassPhase::Look }
                        },
                        ScopeStep::FastForward { id } => PassRun {
                            pass,
                            answered,
                            phase: PassPhase::Forward { id },
                        },
                        ScopeStep::Merge => PassRun {
                            pass,
                            answered,
                            phase: PassPhase::Merge { inputs },
                        },
                    }
                },
            },
            (PassPhase::Forward { id }, PassEvent::HeadSet) => {
                pass.settle(Outcome::Moved(id));
                PassRun { pass, answered, phase: PassPhase::Look }
            },
            (PassPhase::Merge { inputs }, PassEvent::Merged { conflicted }) => match here {
                None => PassRun { pass, answered, phase: PassPhase::Merge { inputs } },
                Some(scope) => match after_merge(scope.as_str(), conflicted, &answered) {
                    AfterMerge::Write => PassRun {
                        pass,
                        answered,
                        phase: PassPhase::Write { inputs },
                    },
                    AfterMerge::Resolve => PassRun {
                        pass,
                        answered,
                        phase: PassPhase::Resolve { inputs },
                    },
                    AfterMerge::Pause => {
                        pass.settle(Outcome::Stopped);
                        PassRun { pass, answered, phase: PassPhase::Look }
                    },
                },
            },
            (PassPhase::Resolve { inputs }, PassEvent::AnswerLaid { conflicted }) => {
                match after_resolution(conflicted) {
                    AfterMerge::Write => PassRun {
                        pass,
                        answered,
                        phase: PassPhase::Write { inputs },
                    },
                    _ => {
                        pass.settle(Outcome::Stopped);
                        PassRun { pass, answered, phase: PassPhase::Look }
                    },
                }
            },
            (PassPhase::Write { inputs }, PassEvent::Written { id }) => {
                pass.settle(Outcome::Moved(id));
                PassRun { pass, answered, phase: PassPhase::Look }
            },
            (phase, _) => PassRun { pass, answered, phase },
        }
    }
}

/// A merge that holds a conflict is never written: a pass writes only once a
/// merge, or the answer laid over it, left nothing in conflict.
pub proof fn law_a_conflict_is_never_written(
    graph: Seq<ScopeView>,
    published: Seq<(String, Head)>,
    before: PassRun,
    event: PassEvent,
    after: PassRun,
)
    requires
        passes_to(graph, published, before, event, after),
        after.phase is Write,
        !(before.phase is Write),
    ensures
        match event {
            PassEvent::Merged { conflicted } => !conflicted,
            PassEvent::AnswerLaid { conflicted } => !conflicted,
            _ => false,
        },
{
}

/// An answer is used for the scope it was given for, and only where its merge
/// stopped.
pub proof fn law_an_answer_is_for_its_scope(
    graph: Seq<ScopeView>,
    published: Seq<(String, Head)>,
    before: PassRun,
    event: PassEvent,
    after: PassRun,
)
    requires
        passes_to(graph, published, before, event, after),
        after.phase is Resolve,
        !(before.phase is Resolve),
    ensures
        event == (PassEvent::Merged { conflicted: true }),
        opt_text(before.answered) == Some(before.pass@.order[before.pass@.next as int]),
{
}

} // verus!
