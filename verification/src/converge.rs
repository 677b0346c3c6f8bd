//! The convergence pass: one operation over the whole scope graph.
//!
//! For each scope in cascade order, the new head is the merge of its own head
//! and its parents' heads as the pass has just left them. Which of the ways a
//! scope can have moved it is in is not a question the pass asks: it builds the
//! input set, drops the inputs that are ancestors of other inputs, and looks at
//! how many are left.
use vstd::prelude::*;
use vstd::string::*;
use crate::repo::{head_of, one_commit, scope_head, Head, HeadView, Heads, PushReport, Rejection};
use crate::scope_graph::{lookup, names_of, ScopeGraph, ScopeView};
use crate::seqs::{lemma_filter_holds, lemma_filter_keeps_order, lemma_filter_step, lemma_take_all};
use crate::text::{
    cat2, cat3, clone_texts, contains_text, lemma_texts_push, same_text, texts, Text,
};

verus! {

/// One thing a scope's new head has to account for, and what to call it when it
/// collides with another.
pub struct Input {
    pub id: String,
    pub label: String,
}

/// An input as contracts see it.
pub struct InputView {
    pub id: Text,
    pub label: Text,
}

impl View for Input {
    type V = InputView;

    open spec fn view(&self) -> InputView {
        InputView { id: self.id@, label: self.label@ }
    }
}

/// The views of some inputs.
pub open spec fn input_views(inputs: Seq<Input>) -> Seq<InputView> {
    inputs.map_values(|i: Input| i@)
}

/// What a side of a scope's own head is called.
pub open spec fn own_label(scope: Text, head: HeadView, published: HeadView, id: Text) -> Text {
    if !head.contested {
        "scope `"@ + scope + "`"@
    } else if published.sides.contains(id) {
        "`"@ + scope + "` as it was published"@
    } else {
        "`"@ + scope + "` as this machine has it"@
    }
}

/// What a scope's own head contributes: each of its sides.
pub open spec fn own_inputs(scope: Text, head: HeadView, published: HeadView) -> Seq<InputView> {
    head.sides.map_values(
        |id: Text| InputView { id, label: own_label(scope, head, published, id) },
    )
}

/// What a parent's head contributes.
pub open spec fn parent_input(parent: Text, head: HeadView) -> Seq<InputView> {
    head.sides.map_values(|id: Text| InputView { id, label: "scope `"@ + parent + "`"@ })
}

/// What the heads of some parents contribute.
pub open spec fn parent_inputs(heads: Seq<(String, Head)>, parents: Seq<Text>) -> Seq<InputView>
    decreases parents.len(),
{
    if parents.len() == 0 {
        Seq::empty()
    } else {
        parent_inputs(heads, parents.drop_last()) + parent_input(
            parents.last(),
            head_of(heads, parents.last()),
        )
    }
}

/// The commits of some inputs.
pub open spec fn input_ids(inputs: Seq<InputView>) -> Seq<Text> {
    inputs.map_values(|i: InputView| i.id)
}

/// Inputs without those that repeat the commit of an earlier one.
pub open spec fn deduped(inputs: Seq<InputView>) -> Seq<InputView>
    decreases inputs.len(),
{
    if inputs.len() == 0 {
        inputs
    } else {
        let front = deduped(inputs.drop_last());
        if input_ids(front).contains(inputs.last().id) {
            front
        } else {
            front.push(inputs.last())
        }
    }
}

/// The parents of a scope in the graph, none where it has no such scope.
pub open spec fn graph_parents(graph: Seq<ScopeView>, scope: Text) -> Seq<Text> {
    match lookup(graph, scope) {
        Some(found) => found.parents,
        None => Seq::empty(),
    }
}

/// Everything a scope's new head has to account for, before what the others
/// cover is dropped.
pub open spec fn candidates_of(
    graph: Seq<ScopeView>,
    heads: Seq<(String, Head)>,
    published: HeadView,
    scope: Text,
) -> Seq<InputView> {
    deduped(
        own_inputs(scope, head_of(heads, scope), published) + parent_inputs(
            heads,
            graph_parents(graph, scope),
        ),
    )
}

/// A commit is among inputs exactly once after those that repeat one are gone,
/// if it was among them at all.
proof fn lemma_deduped(inputs: Seq<InputView>)
    ensures
        input_ids(deduped(inputs)).no_duplicates(),
        forall|id: Text| #[trigger]
            input_ids(deduped(inputs)).contains(id) <==> input_ids(inputs).contains(id),
    decreases inputs.len(),
{
    if inputs.len() > 0 {
        let front = deduped(inputs.drop_last());
        let last = inputs.last();
        lemma_deduped(inputs.drop_last());
        assert(input_ids(inputs) =~= input_ids(inputs.drop_last()).push(last.id));
        lemma_pushed_holds(input_ids(inputs.drop_last()), last.id);
        if !input_ids(front).contains(last.id) {
            assert(input_ids(front.push(last)) =~= input_ids(front).push(last.id));
            lemma_pushed_holds(input_ids(front), last.id);
        }
    }
}

proof fn lemma_pushed_holds(list: Seq<Text>, last: Text)
    ensures
        forall|x: Text| #[trigger] list.push(last).contains(x) <==> list.contains(x) || x == last,
{
    let longer = list.push(last);
    assert forall|x: Text| #[trigger] longer.contains(x) <==> list.contains(x) || x == last by {
        if list.contains(x) {
            let k = choose|k: int| 0 <= k < list.len() && list[k] == x;
            assert(longer[k] == x);
        }
        assert(longer[list.len() as int] == last);
        if longer.contains(x) {
            let k = choose|k: int| 0 <= k < longer.len() && longer[k] == x;
            if k < list.len() {
                assert(list[k] == x);
            }
        }
    }
}

/// No commit is an input twice.
pub proof fn law_no_commit_is_an_input_twice(
    graph: Seq<ScopeView>,
    heads: Seq<(String, Head)>,
    published: HeadView,
    scope: Text,
)
    ensures
        input_ids(candidates_of(graph, heads, published, scope)).no_duplicates(),
{
    lemma_deduped(
        own_inputs(scope, head_of(heads, scope), published) + parent_inputs(
            heads,
            graph_parents(graph, scope),
        ),
    );
}

proof fn lemma_parent_inputs(
    heads: Seq<(String, Head)>,
    parents: Seq<Text>,
    parent: Text,
    id: Text,
) -> (k: int)
    requires
        parents.contains(parent),
        head_of(heads, parent).sides.contains(id),
    ensures
        0 <= k < parent_inputs(heads, parents).len(),
        parent_inputs(heads, parents)[k].id == id,
    decreases parents.len(),
{
    let front = parent_inputs(heads, parents.drop_last());
    let at = choose|at: int| 0 <= at < parents.len() && parents[at] == parent;
    if at < parents.len() - 1 {
        assert(parents.drop_last()[at] == parent);
        lemma_parent_inputs(heads, parents.drop_last(), parent, id)
    } else {
        let sides = head_of(heads, parent).sides;
        let j = choose|j: int| 0 <= j < sides.len() && sides[j] == id;
        assert(parent_input(parent, head_of(heads, parent))[j].id == id);
        front.len() + j
    }
}

proof fn lemma_parent_input_of(
    heads: Seq<(String, Head)>,
    parents: Seq<Text>,
    k: int,
) -> (parent: Text)
    requires
        0 <= k < parent_inputs(heads, parents).len(),
    ensures
        parents.contains(parent),
        head_of(heads, parent).sides.contains(parent_inputs(heads, parents)[k].id),
    decreases parents.len(),
{
    let front = parent_inputs(heads, parents.drop_last());
    if k < front.len() {
        let parent = lemma_parent_input_of(heads, parents.drop_last(), k);
        let at = choose|at: int|
            0 <= at < parents.drop_last().len() && parents.drop_last()[at] == parent;
        assert(parents[at] == parent);
        parent
    } else {
        let parent = parents.last();
        let sides = head_of(heads, parent).sides;
        assert(parents[parents.len() - 1] == parent);
        assert(sides[k - front.len()] == parent_inputs(heads, parents)[k].id);
        parent
    }
}

/// Whether a commit is a side of a scope's own head or of one of its parents'.
pub open spec fn is_side(
    graph: Seq<ScopeView>,
    heads: Seq<(String, Head)>,
    scope: Text,
    id: Text,
) -> bool {
    exists|from: Text|
        (from == scope || graph_parents(graph, scope).contains(from)) && #[trigger] head_of(
            heads,
            from,
        ).sides.contains(id)
}

/// Nobody's work is left out of a convergence, and nothing else comes in: what a
/// scope's new head has to account for is every side of its own head and every
/// side of each of its parents' heads.
pub proof fn law_every_side_is_accounted_for(
    graph: Seq<ScopeView>,
    heads: Seq<(String, Head)>,
    published: HeadView,
    scope: Text,
    id: Text,
)
    ensures
        input_ids(candidates_of(graph, heads, published, scope)).contains(id) <==> is_side(
            graph,
            heads,
            scope,
            id,
        ),
{
    let own = own_inputs(scope, head_of(heads, scope), published);
    let parents = graph_parents(graph, scope);
    let above = parent_inputs(heads, parents);
    let inputs = own + above;
    lemma_deduped(inputs);
    assert(input_ids(deduped(inputs)).contains(id) <==> input_ids(inputs).contains(id));
    if is_side(graph, heads, scope, id) {
        let from = choose|from: Text|
            (from == scope || parents.contains(from)) && #[trigger] head_of(
                heads,
                from,
            ).sides.contains(id);
        let k: int = if from == scope {
            let sides = head_of(heads, scope).sides;
            choose|k: int| 0 <= k < sides.len() && sides[k] == id
        } else {
            own.len() + lemma_parent_inputs(heads, parents, from, id)
        };
        assert(input_ids(inputs)[k] == id);
    }
    if input_ids(inputs).contains(id) {
        let k = choose|k: int| 0 <= k < inputs.len() && input_ids(inputs)[k] == id;
        if k < own.len() {
            assert(head_of(heads, scope).sides[k] == id);
            assert(head_of(heads, scope).sides.contains(id));
        } else {
            assert(above[k - own.len()].id == id);
            let from = lemma_parent_input_of(heads, parents, k - own.len());
            assert(head_of(heads, from).sides.contains(id));
        }
    }
}

/// Whether a relation is one of covering: every commit covers itself, what a
/// covered commit covers is covered, and two commits that cover each other are
/// one.
pub open spec fn is_covering(covers: spec_fn(Text, Text) -> bool) -> bool {
    &&& forall|a: Text| #[trigger] covers(a, a)
    &&& forall|a: Text, b: Text, c: Text| #[trigger]
        covers(a, b) && #[trigger] covers(b, c) ==> covers(a, c)
    &&& forall|a: Text, b: Text| #[trigger] covers(a, b) && covers(b, a) ==> a == b
}

/// Whether a commit is covered by one of some commits.
pub open spec fn covered_by(
    covers: spec_fn(Text, Text) -> bool,
    list: Seq<Text>,
    id: Text,
) -> bool {
    exists|k: int| 0 <= k < list.len() && covers(#[trigger] list[k], id)
}

/// Whether `uncovered` are the commits among `ids` that no other of them covers.
pub open spec fn are_heads(
    covers: spec_fn(Text, Text) -> bool,
    ids: Seq<Text>,
    uncovered: Seq<Text>,
) -> bool {
    &&& forall|u: Text| #[trigger] uncovered.contains(u) ==> ids.contains(u)
    &&& forall|id: Text|
        ids.contains(id) ==> #[trigger] covered_by(covers, uncovered, id)
    &&& forall|u: Text, v: Text| #[trigger]
        uncovered.contains(u) && #[trigger] uncovered.contains(v) && covers(u, v) ==> u == v
}

/// The inputs of a convergence: each is a candidate, every candidate is covered
/// by one of them, none of them covers another, and none comes twice.
pub proof fn law_inputs_are_the_uncovered_candidates(
    covers: spec_fn(Text, Text) -> bool,
    candidates: Seq<InputView>,
    uncovered: Seq<Text>,
)
    requires
        input_ids(candidates).no_duplicates(),
        are_heads(covers, input_ids(candidates), uncovered),
    ensures
        ({
            let inputs = input_ids(
                candidates.filter(|i: InputView| uncovered.contains(i.id)),
            );
            &&& inputs.no_duplicates()
            &&& forall|id: Text| #[trigger] inputs.contains(id) <==> uncovered.contains(id)
            &&& forall|id: Text| #[trigger] inputs.contains(id) ==> input_ids(
                candidates,
            ).contains(id)
            &&& forall|id: Text|
                input_ids(candidates).contains(id) ==> #[trigger] covered_by(covers, inputs, id)
            &&& forall|u: Text, v: Text| #[trigger]
                inputs.contains(u) && #[trigger] inputs.contains(v) && covers(u, v) ==> u == v
        }),
{
    let keep = |i: InputView| uncovered.contains(i.id);
    let kept = candidates.filter(keep);
    let inputs = input_ids(kept);
    lemma_kept_once(candidates, keep);
    lemma_filter_holds(candidates, keep);
    assert forall|id: Text| #[trigger] inputs.contains(id) <==> uncovered.contains(id) by {
        if inputs.contains(id) {
            let k = choose|k: int| 0 <= k < kept.len() && inputs[k] == id;
            assert(kept.contains(kept[k]));
        }
        if uncovered.contains(id) {
            assert(input_ids(candidates).contains(id));
            let k = choose|k: int| 0 <= k < candidates.len() && input_ids(candidates)[k] == id;
            assert(candidates.contains(candidates[k]));
            assert(kept.contains(candidates[k]));
            let m = choose|m: int| 0 <= m < kept.len() && kept[m] == candidates[k];
            assert(inputs[m] == id);
        }
    }
    assert forall|id: Text|
        input_ids(candidates).contains(id) implies #[trigger] covered_by(covers, inputs, id) by {
        assert(covered_by(covers, uncovered, id));
        let k = choose|k: int| 0 <= k < uncovered.len() && covers(#[trigger] uncovered[k], id);
        assert(uncovered.contains(uncovered[k]));
        assert(inputs.contains(uncovered[k]));
        let m = choose|m: int| 0 <= m < inputs.len() && inputs[m] == uncovered[k];
        assert(covers(inputs[m], id));
    }
}

/// What is kept of inputs that no commit is twice among holds none twice either.
proof fn lemma_kept_once(inputs: Seq<InputView>, keep: spec_fn(InputView) -> bool)
    requires
        input_ids(inputs).no_duplicates(),
    ensures
        input_ids(inputs.filter(keep)).no_duplicates(),
{
    let differ = |a: InputView, b: InputView| a.id != b.id;
    assert forall|i: int, j: int| 0 <= i < j < inputs.len() implies #[trigger] differ(
        inputs[i],
        inputs[j],
    ) by {
        assert(input_ids(inputs)[i] != input_ids(inputs)[j]);
    }
    lemma_filter_keeps_order(inputs, keep, differ);
    let kept = inputs.filter(keep);
    assert forall|i: int, j: int|
        0 <= i < input_ids(kept).len() && 0 <= j < input_ids(kept).len() && i != j implies input_ids(
        kept,
    )[i] != input_ids(kept)[j] by {
        if i < j {
            assert(differ(kept[i], kept[j]));
        } else {
            assert(differ(kept[j], kept[i]));
        }
    }
}

fn push_deduped(inputs: &mut Vec<Input>, Ghost(all): Ghost<Seq<InputView>>, next: Input)
    requires
        input_views(old(inputs)@) == deduped(all),
    ensures
        input_views(final(inputs)@) == deduped(all.push(next@)),
{
    proof {
        assert(all.push(next@).drop_last() =~= all);
    }
    let ghost ids = input_ids(input_views(inputs@));
    let mut i: usize = 0;
    while i < inputs.len()
        invariant
            i <= inputs.len(),
            ids == input_ids(input_views(inputs@)),
            ids == input_ids(deduped(all)),
            all.push(next@).drop_last() == all,
            *inputs == *old(inputs),
            input_views(inputs@) == deduped(all),
            forall|k: int| 0 <= k < i ==> ids[k] != next.id@,
        decreases inputs.len() - i,
    {
        proof {
            assert(ids[i as int] == inputs@[i as int].id@);
        }
        if same_text(inputs[i].id.as_str(), next.id.as_str()) {
            proof {
                assert(ids.contains(next.id@));
                assert(all.push(next@).last() == next@);
            }
            return ;
        }
        i += 1;
    }
    proof {
        assert(ids.len() == inputs.len());
        assert(!ids.contains(next.id@));
    }
    inputs.push(next);
    proof {
        assert(input_views(inputs@) =~= input_views(old(inputs)@).push(next@));
    }
}

/// Everything a scope's new head has to account for: its own head, each side
/// of it, and its parents' heads.
pub fn convergence_candidates(
    graph: &ScopeGraph,
    heads: &Heads,
    published: &Head,
    scope: &str,
) -> (candidates: Vec<Input>)
    ensures
        input_views(candidates@) == candidates_of(graph@, heads@, published@, scope@),
        input_ids(input_views(candidates@)).no_duplicates(),
{
    proof {
        law_no_commit_is_an_input_twice(graph@, heads@, published@, scope@);
    }
    let head = scope_head(heads, scope);
    let ghost own = own_inputs(scope@, head@, published@);
    let mut candidates: Vec<Input> = Vec::new();
    let ghost mut all: Seq<InputView> = Seq::empty();
    let mut i: usize = 0;
    proof {
        assert(input_views(candidates@) =~= Seq::<InputView>::empty());
        assert(own.take(0) =~= all);
    }
    while i < head.sides.len()
        invariant
            i <= head.sides.len(),
            own == own_inputs(scope@, head@, published@),
            all == own.take(i as int),
            input_views(candidates@) == deduped(all),
        decreases head.sides.len() - i,
    {
        let id = head.sides[i].clone();
        let label = if !head.contested {
            cat3("scope `", scope, "`")
        } else if contains_text(&published.sides, id.as_str()) {
            cat3("`", scope, "` as it was published")
        } else {
            cat3("`", scope, "` as this machine has it")
        };
        let next = Input { id, label };
        proof {
            assert(head@.sides[i as int] == id@);
            assert(own[i as int] == next@);
        }
        push_deduped(&mut candidates, Ghost(all), next);
        proof {
            assert(own.take(i + 1) =~= all.push(own[i as int]));
            all = own.take(i + 1);
        }
        i += 1;
    }
    proof {
        lemma_take_all(own);
        assert(own + Seq::<InputView>::empty() =~= own);
    }
    match graph.get(scope) {
        None => {},
        Some(found) => {
            let ghost parents = found@.parents;
            let mut k: usize = 0;
            proof {
                lemma_take_all(parents);
            }
            while k < found.parents.len()
                invariant
                    k <= found.parents.len(),
                    parents == found@.parents,
                    all == own + parent_inputs(heads@, parents.take(k as int)),
                    input_views(candidates@) == deduped(all),
                decreases found.parents.len() - k,
            {
                let parent = found.parents[k].as_str();
                let above = scope_head(heads, parent);
                let ghost before = all;
                let ghost more = parent_input(parent@, above@);
                proof {
                    assert(parents[k as int] == parent@);
                    assert(before + more.take(0) =~= before);
                }
                let mut j: usize = 0;
                while j < above.sides.len()
                    invariant
                        j <= above.sides.len(),
                        more == parent_input(parent@, above@),
                        all == before + more.take(j as int),
                        input_views(candidates@) == deduped(all),
                    decreases above.sides.len() - j,
                {
                    let next = Input {
                        id: above.sides[j].clone(),
                        label: cat3("scope `", parent, "`"),
                    };
                    proof {
                        assert(above@.sides[j as int] == next.id@);
                        assert(more[j as int] == next@);
                    }
                    push_deduped(&mut candidates, Ghost(all), next);
                    proof {
                        assert(before + more.take(j + 1) =~= all.push(more[j as int]));
                        all = before + more.take(j + 1);
                    }
                    j += 1;
                }
                proof {
                    lemma_take_all(more);
                    let longer = parents.take(k + 1);
                    assert(longer.drop_last() =~= parents.take(k as int));
                    assert(all =~= own + parent_inputs(heads@, longer));
                }
                k += 1;
            }
            proof {
                lemma_take_all(parents);
            }
        },
    }
    candidates
}

/// The candidates that no other candidate covers, given which commits those
/// are.
pub fn convergence_inputs(candidates: Vec<Input>, uncovered: &Vec<String>) -> (inputs: Vec<Input>)
    ensures
        input_views(inputs@) == input_views(candidates@).filter(
            |i: InputView| texts(uncovered@).contains(i.id),
        ),
        input_ids(input_views(candidates@)).no_duplicates() ==> input_ids(
            input_views(inputs@),
        ).no_duplicates(),
{
    proof {
        if input_ids(input_views(candidates@)).no_duplicates() {
            lemma_kept_once(
                input_views(candidates@),
                |i: InputView| texts(uncovered@).contains(i.id),
            );
        }
    }
    let ghost all = input_views(candidates@);
    let ghost keep = |i: InputView| texts(uncovered@).contains(i.id);
    let mut inputs: Vec<Input> = Vec::new();
    let mut i: usize = 0;
    proof {
        lemma_take_all(all);
        reveal(Seq::filter);
        assert(input_views(inputs@) =~= Seq::<InputView>::empty());
    }
    while i < candidates.len()
        invariant
            i <= candidates.len(),
            all == input_views(candidates@),
            keep == |i: InputView| texts(uncovered@).contains(i.id),
            input_views(inputs@) == all.take(i as int).filter(keep),
        decreases candidates.len() - i,
    {
        proof {
            lemma_filter_step(all, keep, i as int);
            assert(all[i as int] == candidates@[i as int]@);
        }
        if contains_text(uncovered, candidates[i].id.as_str()) {
            let ghost before = inputs@;
            inputs.push(
                Input { id: candidates[i].id.clone(), label: candidates[i].label.clone() },
            );
            proof {
                assert(input_views(inputs@) =~= input_views(before).push(inputs@.last()@));
            }
        }
        i += 1;
    }
    proof {
        lemma_take_all(all);
    }
    inputs
}

/// What the pass does about a scope.
pub enum ScopeStep {
    /// The scope has no head to write to.
    Skip,
    /// Its head already accounts for everything.
    Keep,
    /// One commit accounts for everything, and the head moves onto it.
    FastForward { id: String },
    /// A merge has to be written.
    Merge,
}

/// What the pass does about a scope, from what is left to account for and where
/// the head is.
pub fn scope_step(inputs: &Vec<Input>, head: &Head) -> (step: ScopeStep)
    ensures
        match step {
            ScopeStep::Skip => inputs@.len() == 0,
            ScopeStep::Keep => inputs@.len() == 1 && one_commit(head@) == Some(inputs@[0].id@),
            ScopeStep::FastForward { id } => inputs@.len() == 1 && one_commit(head@) != Some(
                inputs@[0].id@,
            ) && id@ == inputs@[0].id@,
            ScopeStep::Merge => inputs@.len() > 1,
        },
{
    if inputs.is_empty() {
        ScopeStep::Skip
    } else if inputs.len() == 1 {
        let here = match head.as_normal() {
            Some(id) => same_text(id, inputs[0].id.as_str()),
            None => false,
        };
        if here {
            ScopeStep::Keep
        } else {
            ScopeStep::FastForward { id: inputs[0].id.clone() }
        }
    } else {
        ScopeStep::Merge
    }
}

/// What follows a merge.
#[derive(Debug, Clone, Copy, PartialEq, Eq, Structural)]
pub enum AfterMerge {
    /// It is recorded as the scope's head.
    Write,
    /// The answer that was given for this scope is laid over it.
    Resolve,
    /// The pass stops here.
    Pause,
}

/// What follows a merge: an answer applies to the merge it was written for, and
/// only where that merge stopped.
pub fn after_merge(scope: &str, conflicted: bool, answered_scope: &Option<String>) -> (next:
    AfterMerge)
    ensures
        next == if !conflicted {
            AfterMerge::Write
        } else if crate::text::opt_text(*answered_scope) == Some(scope@) {
            AfterMerge::Resolve
        } else {
            AfterMerge::Pause
        },
{
    if !conflicted {
        return AfterMerge::Write;
    }
    let answered = match answered_scope {
        Some(answered) => same_text(answered.as_str(), scope),
        None => false,
    };
    if answered {
        AfterMerge::Resolve
    } else {
        AfterMerge::Pause
    }
}

/// What follows once the answer is laid over a merge: one that does not cover
/// everything leaves it conflicted, and the pass stops as it would have anyway.
pub fn after_resolution(conflicted: bool) -> (next: AfterMerge)
    ensures
        next == if conflicted {
            AfterMerge::Pause
        } else {
            AfterMerge::Write
        },
{
    if conflicted {
        AfterMerge::Pause
    } else {
        AfterMerge::Write
    }
}

/// The description of the merge that a convergence writes on a scope.
pub fn convergence_description(scope: &str) -> (text: String)
    ensures
        text@ == "dotsync: converge "@ + scope@,
{
    cat2("dotsync: converge ", scope)
}

pub const MERGE_BASE_LABEL: &'static str = "the version they last agreed on";

pub const MERGE_SO_FAR_LABEL: &'static str = "the merge so far";

/// One step of a merge of several inputs: everything merged so far, against one
/// input more.
pub struct MergeStep {
    pub merged: Vec<String>,
    pub merged_label: String,
    pub with: String,
    pub with_label: String,
}

/// A step as contracts see it.
pub struct MergeStepView {
    pub merged: Seq<Text>,
    pub merged_label: Text,
    pub with: Text,
    pub with_label: Text,
}

impl View for MergeStep {
    type V = MergeStepView;

    open spec fn view(&self) -> MergeStepView {
        MergeStepView {
            merged: texts(self.merged@),
            merged_label: self.merged_label@,
            with: self.with@,
            with_label: self.with_label@,
        }
    }
}

/// The step that merges input `k` of several.
pub open spec fn merge_step(inputs: Seq<InputView>, k: int) -> MergeStepView {
    MergeStepView {
        merged: input_ids(inputs.take(k)),
        merged_label: if k == 1 {
            inputs[0].label
        } else {
            MERGE_SO_FAR_LABEL@
        },
        with: inputs[k].id,
        with_label: inputs[k].label,
    }
}

/// The merge of every input, one at a time against everything merged so far.
pub fn merge_plan(inputs: &Vec<Input>) -> (steps: Vec<MergeStep>)
    requires
        inputs@.len() > 0,
    ensures
        steps@.len() == inputs@.len() - 1,
        forall|k: int|
            1 <= k < inputs@.len() ==> (#[trigger] steps@[k - 1])@ == merge_step(
                input_views(inputs@),
                k,
            ),
{
    let ghost all = input_views(inputs@);
    let mut steps: Vec<MergeStep> = Vec::new();
    let mut merged: Vec<String> = Vec::new();
    merged.push(inputs[0].id.clone());
    proof {
        assert(all[0] == inputs@[0]@);
        assert(texts(merged@) =~= input_ids(all.take(1)));
    }
    let mut k: usize = 1;
    while k < inputs.len()
        invariant
            1 <= k <= inputs.len(),
            all == input_views(inputs@),
            steps.len() == k - 1,
            texts(merged@) == input_ids(all.take(k as int)),
            forall|m: int| 1 <= m < k ==> (#[trigger] steps@[m - 1])@ == merge_step(all, m),
        decreases inputs.len() - k,
    {
        proof {
            assert(all[0] == inputs@[0]@);
            assert(all[k as int] == inputs@[k as int]@);
        }
        let merged_label = if k == 1 {
            inputs[0].label.clone()
        } else {
            MERGE_SO_FAR_LABEL.to_owned()
        };
        let step = MergeStep {
            merged: clone_texts(&merged),
            merged_label,
            with: inputs[k].id.clone(),
            with_label: inputs[k].label.clone(),
        };
        let ghost before = merged@;
        let ghost earlier = steps@;
        steps.push(step);
        merged.push(inputs[k].id.clone());
        proof {
            lemma_texts_push(before, merged@.last());
            assert(texts(merged@) =~= input_ids(all.take(k + 1)));
            assert forall|m: int| 1 <= m < k + 1 implies (#[trigger] steps@[m - 1])@ == merge_step(
                all,
                m,
            ) by {
                if m < k {
                    assert(steps@[m - 1] == earlier[m - 1]);
                }
            }
        }
        k += 1;
    }
    steps
}

/// Where every scope stood before a run wrote anything: what `abort` returns
/// to. A contested head is no one position to go back to, and a scope with no
/// head has nothing to restore.
pub open spec fn checkpoint_of(
    graph: Seq<ScopeView>,
    heads: Seq<(String, Head)>,
) -> Seq<(Text, Text)> {
    names_of(graph).filter(|n: Text| one_commit(head_of(heads, n)) is Some).map_values(
        |n: Text| (n, one_commit(head_of(heads, n))->0),
    )
}

/// A checkpoint as contracts see it.
pub open spec fn checkpoint_view(checkpoint: Seq<(String, String)>) -> Seq<(Text, Text)> {
    checkpoint.map_values(|e: (String, String)| (e.0@, e.1@))
}

/// Where every scope stands, as far as that is one commit.
pub fn checkpoint(graph: &ScopeGraph, heads: &Heads) -> (found: Vec<(String, String)>)
    ensures
        checkpoint_view(found@) == checkpoint_of(graph@, heads@),
{
    let names = graph.names();
    let ghost all = names_of(graph@);
    let ghost keep = |n: Text| one_commit(head_of(heads@, n)) is Some;
    let ghost shown = |n: Text| (n, one_commit(head_of(heads@, n))->0);
    let mut found: Vec<(String, String)> = Vec::new();
    let mut i: usize = 0;
    proof {
        lemma_take_all(all);
        reveal(Seq::filter);
        assert(checkpoint_view(found@) =~= all.take(0).filter(keep).map_values(shown));
    }
    while i < names.len()
        invariant
            i <= names.len(),
            all == texts(names@),
            keep == |n: Text| one_commit(head_of(heads@, n)) is Some,
            shown == |n: Text| (n, one_commit(head_of(heads@, n))->0),
            checkpoint_view(found@) == all.take(i as int).filter(keep).map_values(shown),
        decreases names.len() - i,
    {
        proof {
            lemma_filter_step(all, keep, i as int);
            assert(all[i as int] == names@[i as int]@);
        }
        let head = scope_head(heads, names[i].as_str());
        match head.as_normal() {
            Some(id) => {
                let ghost before = found@;
                found.push((names[i].clone(), id.to_owned()));
                proof {
                    assert(checkpoint_view(found@) =~= checkpoint_view(before).push(
                        shown(names@[i as int]@),
                    ));
                    assert(all.take(i + 1).filter(keep).map_values(shown) =~= all.take(
                        i as int,
                    ).filter(keep).map_values(shown).push(shown(names@[i as int]@)));
                }
            },
            None => {},
        }
        i += 1;
    }
    proof {
        lemma_take_all(all);
    }
    found
}

/// How many times one run offers its scopes to a remote that keeps moving under
/// it.
pub const PUSH_ATTEMPTS: usize = 3;

/// Whether a push lost a race to another machine, which converging onto what
/// that one published can win the next time.
pub open spec fn lost_a_race(report: PushReport) -> bool {
    match report {
        PushReport::Refused { scopes, rejection: Rejection::RemoteMoved } => true,
        _ => false,
    }
}

/// Whether to fetch, converge and push again after this attempt, the first
/// being number one. A remote that refuses the write itself will refuse it
/// again however many times it is asked.
pub fn push_again(attempt: usize, report: &PushReport) -> (again: bool)
    ensures
        again == (lost_a_race(*report) && attempt < PUSH_ATTEMPTS),
{
    let lost = match report {
        PushReport::Refused { scopes, rejection } => matches!(rejection, Rejection::RemoteMoved),
        _ => false,
    };
    lost && attempt < PUSH_ATTEMPTS
}

/// How many pushes a run makes, given what each would come to.
pub open spec fn pushes_made(reports: Seq<PushReport>, attempt: nat) -> nat
    decreases PUSH_ATTEMPTS - attempt,
{
    if attempt >= PUSH_ATTEMPTS || attempt > reports.len() || !lost_a_race(
        reports[attempt - 1],
    ) {
        attempt
    } else {
        pushes_made(reports, attempt + 1)
    }
}

/// A run offers its scopes a bounded number of times, and stops at the first
/// push that did not lose a race.
pub proof fn law_pushes_are_bounded(reports: Seq<PushReport>, attempt: nat)
    requires
        1 <= attempt <= PUSH_ATTEMPTS,
    ensures
        attempt <= pushes_made(reports, attempt) <= PUSH_ATTEMPTS,
        forall|k: int|
            attempt <= k < pushes_made(reports, attempt) ==> lost_a_race(#[trigger] reports[k - 1]),
    decreases PUSH_ATTEMPTS - attempt,
{
    if attempt < PUSH_ATTEMPTS && attempt <= reports.len() && lost_a_race(reports[attempt - 1]) {
        law_pushes_are_bounded(reports, attempt + 1);
    }
}

/// A merge of several inputs takes in every one of them: each after the first comes
/// in by a step of its own, against all that came before it, and both sides of a
/// step are called by what they are.
pub proof fn law_a_merge_takes_in_every_input(inputs: Seq<InputView>, k: int)
    requires
        1 <= k < inputs.len(),
    ensures
        merge_step(inputs, k).with == inputs[k].id,
        merge_step(inputs, k).with_label == inputs[k].label,
        merge_step(inputs, k).merged.len() == k,
        forall|i: int| 0 <= i < k ==> #[trigger] merge_step(inputs, k).merged[i] == inputs[i].id,
        k == 1 ==> merge_step(inputs, k).merged_label == inputs[0].label,
        k > 1 ==> merge_step(inputs, k).merged_label == "the merge so far"@,
{
}

/// The sides of a contested head are told apart by who published them, and a head
/// that is not contested, like a parent's, is called by its scope.
pub proof fn law_an_input_is_called_by_whose_it_is(
    scope: Text,
    head: HeadView,
    published: HeadView,
    parent: Text,
    above: HeadView,
    k: int,
)
    ensures
        0 <= k < head.sides.len() ==> own_inputs(scope, head, published)[k].id == head.sides[k]
            && own_inputs(scope, head, published)[k].label == if !head.contested {
            "scope `"@ + scope + "`"@
        } else if exists|j: int|
            0 <= j < published.sides.len() && #[trigger] published.sides[j] == head.sides[k] {
            "`"@ + scope + "` as it was published"@
        } else {
            "`"@ + scope + "` as this machine has it"@
        },
        own_inputs(scope, head, published).len() == head.sides.len(),
        parent_input(parent, above).len() == above.sides.len(),
        0 <= k < above.sides.len() ==> parent_input(parent, above)[k].id == above.sides[k]
            && parent_input(parent, above)[k].label == "scope `"@ + parent + "`"@,
{
    if 0 <= k < head.sides.len() && published.sides.contains(head.sides[k]) {
        let j = choose|j: int|
            0 <= j < published.sides.len() && published.sides[j] == head.sides[k];
        assert(published.sides[j] == head.sides[k]);
    }
}

/// Only a push that another machine was faster than is tried again, and no more than
/// three are made.
pub proof fn law_only_a_lost_race_is_tried_again(report: PushReport, reports: Seq<PushReport>)
    ensures
        report is UpToDate ==> !lost_a_race(report),
        report is Unreachable ==> !lost_a_race(report),
        report matches PushReport::Refused { scopes, rejection } ==> (lost_a_race(report)
            <==> rejection is RemoteMoved),
        pushes_made(reports, 1) <= 3,
{
    law_pushes_are_bounded(reports, 1);
}

} // verus!
