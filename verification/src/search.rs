//! The walk through a repo's history that finds the commits which created its
//! scopes. The caller reads the commits; the walk says which one is next.
use std::collections::VecDeque;
use vstd::prelude::*;
use vstd::hash_set::StringHashSet;
use crate::creation::{body_of, created_scope, description_body, scope_created_by};
use crate::scope_graph::{Creation, CreationView};
use crate::text::{clone_opt_text, clone_texts, lemma_texts_push, opt_text, same_text, texts, Text};

verus! {

/// Where a walk stands: the commits still to look at, in order, those handed
/// out already, and what was found so far.
pub struct SearchView {
    pub queue: Seq<Text>,
    pub seen: Set<Text>,
    pub creations: Seq<CreationView>,
}

/// Where in a queue the first commit stands that was not handed out yet.
pub open spec fn first_unseen(queue: Seq<Text>, seen: Set<Text>) -> nat
    decreases queue.len(),
{
    if queue.len() == 0 || !seen.contains(queue[0]) {
        0
    } else {
        1 + first_unseen(queue.skip(1), seen)
    }
}

/// The walk after it has been asked for the next commit, and its answer.
pub open spec fn after_next(search: SearchView) -> (SearchView, Option<Text>) {
    let at = first_unseen(search.queue, search.seen);
    if at >= search.queue.len() {
        (SearchView { queue: Seq::empty(), ..search }, None)
    } else {
        (
            SearchView {
                queue: search.queue.skip(at as int + 1),
                seen: search.seen.insert(search.queue[at as int]),
                creations: search.creations,
            },
            Some(search.queue[at as int]),
        )
    }
}

/// Where in a list of creations a scope's stands; the list's length if nowhere.
pub open spec fn record_index(creations: Seq<CreationView>, scope: Text) -> nat
    decreases creations.len(),
{
    if creations.len() == 0 || creations[0].scope == scope {
        0
    } else {
        1 + record_index(creations.skip(1), scope)
    }
}

/// The creations with what one more commit says. Two machines can create one
/// scope at once, and then it has two creation commits; the description that is
/// read first stands.
pub open spec fn with_commit(
    creations: Seq<CreationView>,
    id: Text,
    description: Text,
) -> Seq<CreationView> {
    match created_scope(description) {
        None => creations,
        Some(scope) => {
            let at = record_index(creations, scope);
            if at >= creations.len() {
                creations.push(
                    CreationView { scope, commits: seq![id], description: body_of(description) },
                )
            } else {
                let known = creations[at as int];
                creations.update(
                    at as int,
                    CreationView {
                        scope: known.scope,
                        commits: known.commits.push(id),
                        description: match known.description {
                            Some(text) => Some(text),
                            None => body_of(description),
                        },
                    },
                )
            }
        },
    }
}

/// The walk after it has been told what a commit says.
pub open spec fn after_record(
    search: SearchView,
    id: Text,
    description: Text,
    parents: Seq<Text>,
) -> SearchView {
    SearchView {
        queue: search.queue + parents,
        seen: search.seen,
        creations: with_commit(search.creations, id, description),
    }
}

proof fn lemma_first_unseen(queue: Seq<Text>, seen: Set<Text>)
    ensures
        first_unseen(queue, seen) <= queue.len(),
        forall|i: int| 0 <= i < first_unseen(queue, seen) ==> seen.contains(#[trigger] queue[i]),
        first_unseen(queue, seen) < queue.len() ==> !seen.contains(
            queue[first_unseen(queue, seen) as int],
        ),
    decreases queue.len(),
{
    if queue.len() > 0 && seen.contains(queue[0]) {
        lemma_first_unseen(queue.skip(1), seen);
        assert forall|i: int| 0 <= i < first_unseen(queue, seen) implies seen.contains(
            #[trigger] queue[i],
        ) by {
            if i > 0 {
                assert(queue.skip(1)[i - 1] == queue[i]);
            }
        }
    }
}

/// Every commit is handed out once, and none is lost: what was to be looked at
/// has been handed out, or is handed out now, or is still to be looked at.
pub proof fn law_search_loses_nothing(search: SearchView, id: Text)
    requires
        search.seen.contains(id) || search.queue.contains(id),
    ensures
        after_next(search).0.seen.contains(id) || after_next(search).0.queue.contains(id),
        after_next(search).1 == Some(id) ==> !search.seen.contains(id),
        after_next(search).1 is None ==> search.seen.contains(id),
{
    lemma_first_unseen(search.queue, search.seen);
    let at = first_unseen(search.queue, search.seen) as int;
    if search.queue.contains(id) && !search.seen.contains(id) {
        let k = choose|k: int| 0 <= k < search.queue.len() && search.queue[k] == id;
        if k < at {
            assert(search.seen.contains(search.queue[k]));
        } else if k > at {
            assert(search.queue.skip(at + 1)[k - at - 1] == id);
        }
    }
}

/// Whether no two records are of one scope.
pub open spec fn one_record_each(creations: Seq<CreationView>) -> bool {
    forall|i: int, j: int|
        0 <= i < j < creations.len() ==> creations[i].scope != creations[j].scope
}

proof fn lemma_record_index(creations: Seq<CreationView>, scope: Text)
    ensures
        record_index(creations, scope) <= creations.len(),
        forall|i: int|
            0 <= i < record_index(creations, scope) ==> (#[trigger] creations[i]).scope != scope,
        record_index(creations, scope) < creations.len() ==> creations[record_index(
            creations,
            scope,
        ) as int].scope == scope,
    decreases creations.len(),
{
    if creations.len() > 0 && creations[0].scope != scope {
        lemma_record_index(creations.skip(1), scope);
        assert forall|i: int| 0 <= i < record_index(creations, scope) implies (
        #[trigger] creations[i]).scope != scope by {
            if i > 0 {
                assert(creations.skip(1)[i - 1] == creations[i]);
            }
        }
    }
}

/// However many commits create a scope, it has one record.
pub proof fn law_one_record_each(creations: Seq<CreationView>, id: Text, description: Text)
    requires
        one_record_each(creations),
    ensures
        one_record_each(with_commit(creations, id, description)),
{
    if let Some(scope) = created_scope(description) {
        lemma_record_index(creations, scope);
    }
}

/// A history as a walk reads it: what each commit says, and its parents.
pub struct CommitLog {
    pub says: spec_fn(Text) -> Text,
    pub parents: spec_fn(Text) -> Seq<Text>,
}

/// Whether `states` is a walk through a history from some heads: each state
/// follows on the one before it by one commit.
pub open spec fn is_walk(log: CommitLog, heads: Seq<Text>, states: Seq<SearchView>) -> bool {
    &&& states.len() > 0
    &&& states[0] == (SearchView { queue: heads, seen: Set::empty(), creations: Seq::empty() })
    &&& forall|i: int|
        0 < i < states.len() ==> follows(log, states[i - 1], #[trigger] states[i])
}

/// Whether one state of a walk follows on another: the next commit was handed
/// out, and what it says was recorded.
pub open spec fn follows(log: CommitLog, before: SearchView, after: SearchView) -> bool {
    match after_next(before) {
        (between, Some(id)) => after == after_record(
            between,
            id,
            (log.says)(id),
            (log.parents)(id),
        ),
        (_, None) => false,
    }
}

/// Whether `line` leads from a head down through parents.
pub open spec fn is_line(log: CommitLog, heads: Seq<Text>, line: Seq<Text>) -> bool {
    &&& line.len() > 0
    &&& heads.contains(line[0])
    &&& forall|i: int|
        0 < i < line.len() ==> (log.parents)(line[i - 1]).contains(#[trigger] line[i])
}

/// Whether a commit is in the history of some heads.
pub open spec fn is_reachable(log: CommitLog, heads: Seq<Text>, id: Text) -> bool {
    exists|line: Seq<Text>| #[trigger] is_line(log, heads, line) && line.last() == id
}

/// Whether some creations say that a commit created a scope.
pub open spec fn is_found(creations: Seq<CreationView>, scope: Text, id: Text) -> bool {
    exists|i: int|
        0 <= i < creations.len() && (#[trigger] creations[i]).scope == scope
            && creations[i].commits.contains(id)
}

/// Whether a commit is known to a walk: handed out, or to be looked at.
pub open spec fn is_known(search: SearchView, id: Text) -> bool {
    search.seen.contains(id) || search.queue.contains(id)
}

/// What holds of every state of a walk.
spec fn keeps_track(log: CommitLog, heads: Seq<Text>, search: SearchView) -> bool {
    &&& forall|id: Text| heads.contains(id) ==> #[trigger] is_known(search, id)
    &&& forall|id: Text, parent: Text|
        search.seen.contains(id) && #[trigger] (log.parents)(id).contains(parent)
            ==> #[trigger] is_known(search, parent)
    &&& forall|id: Text| #[trigger] is_known(search, id) ==> is_reachable(log, heads, id)
    &&& forall|scope: Text, id: Text| #[trigger]
        is_found(search.creations, scope, id) <==> search.seen.contains(id) && created_scope(
            (log.says)(id),
        ) == Some(scope)
}

proof fn lemma_with_commit(
    creations: Seq<CreationView>,
    id: Text,
    description: Text,
    scope: Text,
    other: Text,
)
    ensures
        is_found(with_commit(creations, id, description), scope, other) == (is_found(
            creations,
            scope,
            other,
        ) || (other == id && created_scope(description) == Some(scope))),
{
    if let Some(created) = created_scope(description) {
        lemma_record_index(creations, created);
        let after = with_commit(creations, id, description);
        let at = record_index(creations, created) as int;
        if at >= creations.len() {
            let last = CreationView {
                scope: created,
                commits: seq![id],
                description: body_of(description),
            };
            assert(after[creations.len() as int] == last);
            assert(last.commits[0] == id);
            assert(last.commits.contains(id));
        } else {
            let commits = creations[at].commits;
            assert(after[at].commits == commits.push(id));
            assert(commits.push(id)[commits.len() as int] == id);
            assert(after[at].commits.contains(id));
            if commits.contains(other) {
                let k = choose|k: int| 0 <= k < commits.len() && commits[k] == other;
                assert(commits.push(id)[k] == other);
                assert(after[at].commits.contains(other));
            }
        }
        if is_found(creations, scope, other) {
            let i = choose|i: int|
                0 <= i < creations.len() && (#[trigger] creations[i]).scope == scope
                    && creations[i].commits.contains(other);
            assert(after[i].scope == scope && after[i].commits.contains(other));
        }
        if is_found(after, scope, other) {
            let i = choose|i: int|
                0 <= i < after.len() && (#[trigger] after[i]).scope == scope
                    && after[i].commits.contains(other);
            if i < creations.len() && i != at {
                assert(creations[i] == after[i]);
            }
        }
    }
}

proof fn lemma_longer_line(log: CommitLog, heads: Seq<Text>, id: Text, parent: Text)
    requires
        is_reachable(log, heads, id),
        (log.parents)(id).contains(parent),
    ensures
        is_reachable(log, heads, parent),
{
    let line = choose|line: Seq<Text>| #[trigger]
        is_line(log, heads, line) && line.last() == id;
    let longer = line.push(parent);
    assert forall|i: int| 0 < i < longer.len() implies (log.parents)(
        longer[i - 1],
    ).contains(#[trigger] longer[i]) by {
        if i < line.len() {
            assert(longer[i] == line[i]);
        }
    }
    assert(is_line(log, heads, longer));
    assert(longer.last() == parent);
}

proof fn lemma_walk_starts(log: CommitLog, heads: Seq<Text>)
    ensures
        keeps_track(
            log,
            heads,
            SearchView { queue: heads, seen: Set::empty(), creations: Seq::empty() },
        ),
{
    let search = SearchView { queue: heads, seen: Set::empty(), creations: Seq::empty() };
    assert forall|id: Text| #[trigger] is_known(search, id) implies is_reachable(
        log,
        heads,
        id,
    ) by {
        let line = seq![id];
        assert(is_line(log, heads, line));
        assert(line.last() == id);
    }
}

proof fn lemma_walk_goes_on(
    log: CommitLog,
    heads: Seq<Text>,
    before: SearchView,
    after: SearchView,
)
    requires
        keeps_track(log, heads, before),
        follows(log, before, after),
    ensures
        keeps_track(log, heads, after),
{
    lemma_first_unseen(before.queue, before.seen);
    let at = first_unseen(before.queue, before.seen) as int;
    let id = before.queue[at];
    let between = after_next(before).0;
    let parents = (log.parents)(id);
    assert(before.queue.contains(id));
    assert(is_known(before, id));
    assert forall|other: Text| is_known(before, other) implies #[trigger] is_known(
        after,
        other,
    ) by {
        law_search_loses_nothing(before, other);
        if between.queue.contains(other) {
            let k = choose|k: int| 0 <= k < between.queue.len() && between.queue[k] == other;
            assert(after.queue[k] == other);
        }
    }
    assert forall|parent: Text| parents.contains(parent) implies #[trigger] is_known(
        after,
        parent,
    ) by {
        let k = choose|k: int| 0 <= k < parents.len() && parents[k] == parent;
        assert(after.queue[between.queue.len() + k] == parent);
    }
    assert forall|other: Text, parent: Text|
        after.seen.contains(other) && #[trigger] (log.parents)(other).contains(
            parent,
        ) implies #[trigger] is_known(after, parent) by {
        if other != id {
            assert(is_known(before, parent));
        }
    }
    assert forall|other: Text| #[trigger] is_known(after, other) implies is_reachable(
        log,
        heads,
        other,
    ) by {
        if !is_known(before, other) {
            let k = choose|k: int| 0 <= k < after.queue.len() && after.queue[k] == other;
            if k < between.queue.len() {
                assert(before.queue[at + 1 + k] == other);
            } else {
                assert(parents[k - between.queue.len()] == other);
                lemma_longer_line(log, heads, id, other);
            }
        }
    }
    assert forall|scope: Text, other: Text| #[trigger]
        is_found(after.creations, scope, other) <==> after.seen.contains(other) && created_scope(
            (log.says)(other),
        ) == Some(scope) by {
        lemma_with_commit(before.creations, id, (log.says)(id), scope, other);
        assert(is_found(before.creations, scope, other) <==> before.seen.contains(other)
            && created_scope((log.says)(other)) == Some(scope));
    }
}

proof fn lemma_walk_keeps_track(
    log: CommitLog,
    heads: Seq<Text>,
    states: Seq<SearchView>,
    count: nat,
)
    requires
        is_walk(log, heads, states),
        count < states.len(),
    ensures
        keeps_track(log, heads, states[count as int]),
    decreases count,
{
    if count == 0 {
        lemma_walk_starts(log, heads);
    } else {
        lemma_walk_keeps_track(log, heads, states, (count - 1) as nat);
        assert(follows(log, states[count - 1], states[count as int]));
        lemma_walk_goes_on(log, heads, states[count - 1], states[count as int]);
    }
}

proof fn lemma_line_is_seen(
    log: CommitLog,
    heads: Seq<Text>,
    search: SearchView,
    line: Seq<Text>,
    count: nat,
)
    requires
        keeps_track(log, heads, search),
        after_next(search).1 is None,
        is_line(log, heads, line),
        count < line.len(),
    ensures
        search.seen.contains(line[count as int]),
    decreases count,
{
    if count > 0 {
        lemma_line_is_seen(log, heads, search, line, (count - 1) as nat);
        assert((log.parents)(line[count - 1]).contains(line[count as int]));
    }
    assert(is_known(search, line[count as int]));
    law_search_loses_nothing(search, line[count as int]);
}

/// A walk that has come to its end has found every commit in the history of the
/// heads that created a scope, each for the scope it created, and no others.
pub proof fn law_every_creation_is_found(
    log: CommitLog,
    heads: Seq<Text>,
    states: Seq<SearchView>,
    scope: Text,
    id: Text,
)
    requires
        is_walk(log, heads, states),
        after_next(states.last()).1 is None,
    ensures
        is_found(states.last().creations, scope, id) <==> is_reachable(log, heads, id)
            && created_scope((log.says)(id)) == Some(scope),
        states.last().seen.contains(id) <==> is_reachable(log, heads, id),
        one_record_each(states.last().creations),
{
    let search = states.last();
    lemma_walk_keeps_track(log, heads, states, (states.len() - 1) as nat);
    lemma_walk_has_one_record_each(log, heads, states, (states.len() - 1) as nat);
    if is_reachable(log, heads, id) {
        let line = choose|line: Seq<Text>| #[trigger]
            is_line(log, heads, line) && line.last() == id;
        lemma_line_is_seen(log, heads, search, line, (line.len() - 1) as nat);
    }
    if search.seen.contains(id) {
        assert(is_known(search, id));
    }
}

proof fn lemma_walk_has_one_record_each(
    log: CommitLog,
    heads: Seq<Text>,
    states: Seq<SearchView>,
    count: nat,
)
    requires
        is_walk(log, heads, states),
        count < states.len(),
    ensures
        one_record_each(states[count as int].creations),
    decreases count,
{
    if count > 0 {
        lemma_walk_has_one_record_each(log, heads, states, (count - 1) as nat);
        assert(follows(log, states[count - 1], states[count as int]));
        let id = after_next(states[count - 1]).1->0;
        law_one_record_each(states[count - 1].creations, id, (log.says)(id));
    }
}

/// A walk through the history of a repo, looking for the commits that created
/// its scopes.
pub struct CreationSearch {
    queue: VecDeque<String>,
    seen: StringHashSet,
    creations: Vec<Creation>,
}

impl View for CreationSearch {
    type V = SearchView;

    closed spec fn view(&self) -> SearchView {
        SearchView {
            queue: texts(self.queue@),
            seen: self.seen@,
            creations: self.creations@.map_values(|c: Creation| c@),
        }
    }
}

impl CreationSearch {
    /// A walk that starts from the given commits.
    pub fn start(heads: Vec<String>) -> (search: Self)
        ensures
            search@ == (SearchView {
                queue: texts(heads@),
                seen: Set::empty(),
                creations: Seq::empty(),
            }),
    {
        let mut search = CreationSearch {
            queue: VecDeque::new(),
            seen: StringHashSet::new(),
            creations: Vec::new(),
        };
        search.enqueue(&heads);
        proof {
            assert(search@.queue =~= texts(heads@));
            assert(search@.creations =~= Seq::<CreationView>::empty());
        }
        search
    }

    /// The commit to look at next, `None` once all have been.
    pub fn next_commit(&mut self) -> (id: Option<String>)
        ensures
            (final(self)@, opt_text(id)) == after_next(old(self)@),
    {
        let ghost before = self@;
        loop
            invariant
                before == old(self)@,
                self@.seen == before.seen,
                self@.creations == before.creations,
                after_next(self@) == after_next(before),
            decreases self@.queue.len(),
        {
            let ghost now = self@;
            match self.queue.pop_front() {
                None => {
                    proof {
                        assert(self@.queue =~= Seq::<Text>::empty());
                    }
                    return None;
                },
                Some(id) => {
                    proof {
                        assert(now.queue[0] == id@);
                        assert(self@.queue =~= now.queue.skip(1));
                    }
                    if self.seen.insert(id.clone()) {
                        proof {
                            assert(now.queue.skip(0int + 1) =~= now.queue.skip(1));
                        }
                        return Some(id);
                    }
                    proof {
                        assert(now.seen.insert(id@) =~= now.seen);
                        let at = first_unseen(now.queue, now.seen);
                        lemma_first_unseen(now.queue, now.seen);
                        if at < now.queue.len() {
                            assert(now.queue.skip(1).skip(at as int) =~= now.queue.skip(
                                at as int + 1,
                            ));
                        }
                    }
                },
            }
        }
    }

    fn enqueue(&mut self, ids: &Vec<String>)
        ensures
            final(self)@ == (SearchView {
                queue: old(self)@.queue + texts(ids@),
                ..old(self)@
            }),
    {
        let mut i: usize = 0;
        proof {
            assert(self@.queue =~= old(self)@.queue + texts(ids@).take(0));
        }
        while i < ids.len()
            invariant
                i <= ids.len(),
                self@.seen == old(self)@.seen,
                self@.creations == old(self)@.creations,
                self@.queue == old(self)@.queue + texts(ids@).take(i as int),
            decreases ids.len() - i,
        {
            let ghost before = self.queue@;
            self.queue.push_back(ids[i].clone());
            proof {
                lemma_texts_push(before, ids@[i as int]);
                assert(self@.queue =~= old(self)@.queue + texts(ids@).take(i + 1));
            }
            i += 1;
        }
        proof {
            assert(texts(ids@).take(ids.len() as int) =~= texts(ids@));
        }
    }

    /// Takes note of what a commit says.
    pub fn record(&mut self, id: &str, description: &str, parents: &Vec<String>)
        ensures
            final(self)@ == after_record(old(self)@, id@, description@, texts(parents@)),
    {
        match scope_created_by(description) {
            None => {},
            Some(scope) => {
                self.note(scope, id, description);
            },
        }
        self.enqueue(parents);
    }

    fn note(&mut self, scope: String, id: &str, description: &str)
        requires
            created_scope(description@) == Some(scope@),
        ensures
            final(self)@.queue == old(self)@.queue,
            final(self)@.seen == old(self)@.seen,
            final(self)@.creations == with_commit(old(self)@.creations, id@, description@),
    {
        let ghost views = self@.creations;
        let mut i: usize = 0;
        proof {
            assert(views.skip(0) =~= views);
        }
        while i < self.creations.len() && !same_text(
            self.creations[i].scope.as_str(),
            scope.as_str(),
        )
            invariant
                i <= self.creations.len(),
                *self == *old(self),
                views == self@.creations,
                record_index(views, scope@) == i + record_index(views.skip(i as int), scope@),
            decreases self.creations.len() - i,
        {
            proof {
                assert(views.skip(i as int)[0] == self.creations@[i as int]@);
                assert(views.skip(i as int).skip(1) =~= views.skip(i + 1));
            }
            i += 1;
        }
        proof {
            if i < self.creations.len() {
                assert(views.skip(i as int)[0] == self.creations@[i as int]@);
            }
        }
        if i == self.creations.len() {
            let mut commits: Vec<String> = Vec::new();
            commits.push(id.to_owned());
            let created = Creation { scope, commits, description: description_body(description) };
            self.creations.push(created);
            proof {
                assert(created@.commits =~= seq![id@]);
                assert(self@.creations =~= with_commit(views, id@, description@));
            }
        } else {
            let mut commits = clone_texts(&self.creations[i].commits);
            let ghost known = commits@;
            commits.push(id.to_owned());
            let purpose = match clone_opt_text(&self.creations[i].description) {
                Some(text) => Some(text),
                None => description_body(description),
            };
            let created = Creation { scope, commits, description: purpose };
            proof {
                lemma_texts_push(known, commits@.last());
            }
            self.creations.set(i, created);
            proof {
                assert(self@.creations =~= with_commit(views, id@, description@));
            }
        }
    }

    /// What the walk found.
    pub fn finish(self) -> (creations: Vec<Creation>)
        ensures
            creations@.map_values(|c: Creation| c@) == self@.creations,
    {
        self.creations
    }
}

/// What a commit says changes no record but that of the scope it created. That one
/// names the commit beside those it named before, and keeps what was said first of
/// what the scope is for.
pub proof fn law_the_first_description_stands(
    creations: Seq<CreationView>,
    id: Text,
    description: Text,
)
    ensures
        ({
            let after = with_commit(creations, id, description);
            &&& creations.len() <= after.len() <= creations.len() + 1
            &&& forall|i: int|
                0 <= i < creations.len() ==> {
                    &&& (#[trigger] after[i]).scope == creations[i].scope
                    &&& creations[i].description is Some ==> after[i].description
                        == creations[i].description
                    &&& creations[i].commits.len() <= after[i].commits.len()
                    &&& forall|k: int|
                        0 <= k < creations[i].commits.len() ==> after[i].commits[k]
                            == #[trigger] creations[i].commits[k]
                    &&& created_scope(description) != Some(creations[i].scope) ==> after[i]
                        == creations[i]
                }
            &&& created_scope(description) is None ==> after == creations
            &&& created_scope(description) matches Some(scope) ==> exists|i: int|
                0 <= i < after.len() && (#[trigger] after[i]).scope == scope
                    && after[i].commits.last() == id && (body_of(description) is Some
                    ==> after[i].description is Some)
            &&& created_scope(description) matches Some(scope) ==> ((forall|i: int|
                0 <= i < creations.len() ==> (#[trigger] creations[i]).scope != scope) ==> after
                == creations.push(
                CreationView { scope, commits: seq![id], description: body_of(description) },
            ))
        }),
{
    let after = with_commit(creations, id, description);
    if let Some(scope) = created_scope(description) {
        lemma_record_index(creations, scope);
        let at = record_index(creations, scope) as int;
        assert(after[at].scope == scope);
        assert(after[at].commits.last() == id);
    }
}

} // verus!
