//! What the repo holds, as far as dotsync decides anything by it: the heads of
//! the scopes, what is left to publish, and the entries of a tree.
use vstd::prelude::*;
use vstd::string::*;
use jj_lib::backend::CommitId;
use jj_lib::repo_path::RepoPathBuf;
use crate::drift::{Entries, TreeValue};
use crate::error::{is_internal, is_not_in_repo, jj_error, DotsyncError};
use crate::paths::{
    all_paths, entry_names, first_of, is_component, keys, lemma_sorted_spelled,
    lemma_sorted_value, lemma_spelled, lemma_value_at, path_before, path_text, put, sorted_paths,
    spelled, value_at, Components, FilePath,
};
use crate::scope_graph::{names_of, ScopeGraph, ScopeView};
use crate::seqs::{lemma_filter_holds, lemma_filter_step, lemma_take_all};
use crate::text::{
    begins_with, cat2, cat3, cat4, clone_texts, contains_text, joined, lemma_texts_push, opt_text,
    same_text, strip_prefix, texts, trim, trimmed, Text,
};

verus! {

/// The remote that scopes are shared through.
pub const ORIGIN: &'static str = "origin";

/// Where a scope's head stands: nowhere, at one commit, or contested, where
/// this machine and the remote each hold commits the other does not.
pub struct Head {
    /// The commits it points at.
    pub sides: Vec<String>,
    pub contested: bool,
}

/// A head as contracts see it.
pub struct HeadView {
    pub sides: Seq<Text>,
    pub contested: bool,
}

impl View for Head {
    type V = HeadView;

    open spec fn view(&self) -> HeadView {
        HeadView { sides: texts(self.sides@), contested: self.contested }
    }
}

/// The one commit a head is, if it is one.
pub open spec fn one_commit(head: HeadView) -> Option<Text> {
    if !head.contested && head.sides.len() == 1 {
        Some(head.sides[0])
    } else {
        None
    }
}

/// A head that points at nothing.
pub open spec fn no_head() -> HeadView {
    HeadView { sides: Seq::empty(), contested: false }
}

impl Head {
    /// A head at one commit.
    pub fn at(id: String) -> (head: Head)
        ensures
            head@ == (HeadView { sides: seq![id@], contested: false }),
    {
        let mut sides: Vec<String> = Vec::new();
        sides.push(id);
        proof {
            assert(texts(sides@) =~= seq![id@]);
        }
        Head { sides, contested: false }
    }

    /// The one commit the head is, if it is one.
    pub fn as_normal(&self) -> (id: Option<&str>)
        ensures
            match id {
                Some(id) => one_commit(self@) == Some(id@),
                None => one_commit(self@) is None,
            },
    {
        if !self.contested && self.sides.len() == 1 {
            proof {
                assert(self@.sides[0] == self.sides@[0]@);
            }
            Some(self.sides[0].as_str())
        } else {
            None
        }
    }

    /// Whether the head points at nothing.
    pub fn is_absent(&self) -> (absent: bool)
        ensures
            absent == (!self@.contested && self@.sides.len() == 0),
    {
        !self.contested && self.sides.is_empty()
    }

    /// A copy of the head.
    pub fn copy(&self) -> (copy: Head)
        ensures
            copy@ == self@,
    {
        Head { sides: clone_texts(&self.sides), contested: self.contested }
    }
}

/// The heads of scopes, by name.
pub type Heads = Vec<(String, Head)>;

/// The head of a scope: the first one that is listed for it.
pub open spec fn head_of(heads: Seq<(String, Head)>, scope: Text) -> HeadView
    decreases heads.len(),
{
    if heads.len() == 0 {
        no_head()
    } else if heads[0].0@ == scope {
        heads[0].1@
    } else {
        head_of(heads.skip(1), scope)
    }
}

/// The head of a scope.
pub fn scope_head(heads: &Heads, scope: &str) -> (head: Head)
    ensures
        head@ == head_of(heads@, scope@),
{
    let mut i: usize = 0;
    proof {
        assert(heads@.skip(0) =~= heads@);
    }
    while i < heads.len()
        invariant
            i <= heads.len(),
            head_of(heads@, scope@) == head_of(heads@.skip(i as int), scope@),
        decreases heads.len() - i,
    {
        proof {
            assert(heads@.skip(i as int)[0] == heads@[i as int]);
            assert(heads@.skip(i as int).skip(1) =~= heads@.skip(i + 1));
        }
        if same_text(heads[i].0.as_str(), scope) {
            return heads[i].1.copy();
        }
        i += 1;
    }
    let none = Head { sides: Vec::new(), contested: false };
    proof {
        assert(none@.sides =~= Seq::<Text>::empty());
    }
    none
}

/// The one commit a scope's head is, for the commands that write history onto
/// it.
pub fn scope_head_commit(heads: &Heads, scope: &str) -> (found: Result<String, DotsyncError>)
    ensures
        match found {
            Ok(id) => one_commit(head_of(heads@, scope@)) == Some(id@),
            Err(error) => one_commit(head_of(heads@, scope@)) is None && is_not_in_repo(
                error,
                scope@,
            ),
        },
{
    let head = scope_head(heads, scope);
    match head.as_normal() {
        Some(id) => Ok(id.to_owned()),
        None => Err(DotsyncError::ScopeNotInRepo { scope: scope.to_owned() }),
    }
}

/// Whether some scopes are those whose head is contested, in the order of the
/// graph.
pub open spec fn are_diverged(
    graph: Seq<ScopeView>,
    heads: Seq<(String, Head)>,
    scopes: Seq<Text>,
) -> bool {
    scopes == names_of(graph).filter(|n: Text| head_of(heads, n).contested)
}

/// The scopes whose head is contested.
pub fn diverged_scopes(heads: &Heads, graph: &ScopeGraph) -> (scopes: Vec<String>)
    ensures
        are_diverged(graph@, heads@, texts(scopes@)),
{
    let names = graph.names();
    let ghost all = names_of(graph@);
    let ghost keep = |n: Text| head_of(heads@, n).contested;
    let mut scopes: Vec<String> = Vec::new();
    let mut i: usize = 0;
    proof {
        lemma_take_all(all);
        reveal(Seq::filter);
        assert(texts(scopes@) =~= Seq::<Text>::empty());
    }
    while i < names.len()
        invariant
            i <= names.len(),
            all == texts(names@),
            keep == |n: Text| head_of(heads@, n).contested,
            texts(scopes@) == all.take(i as int).filter(keep),
        decreases names.len() - i,
    {
        proof {
            lemma_filter_step(all, keep, i as int);
            assert(all[i as int] == names@[i as int]@);
        }
        if scope_head(heads, names[i].as_str()).contested {
            let ghost before = scopes@;
            scopes.push(names[i].clone());
            proof {
                lemma_texts_push(before, scopes@.last());
            }
        }
        i += 1;
    }
    proof {
        lemma_take_all(all);
    }
    scopes
}

/// Where one bookmark stands, here and as the remote was last seen.
pub struct RefPair {
    pub name: String,
    pub local: Head,
    pub remote: Head,
}

/// A bookmark pair as contracts see it.
pub struct RefPairView {
    pub name: Text,
    pub local: HeadView,
    pub remote: HeadView,
}

impl View for RefPair {
    type V = RefPairView;

    open spec fn view(&self) -> RefPairView {
        RefPairView { name: self.name@, local: self.local@, remote: self.remote@ }
    }
}

/// What a push offers for one scope: its new position, leased on where the
/// remote was last seen.
pub struct BookmarkUpdate {
    pub name: String,
    pub old_target: Option<String>,
    pub new_target: String,
}

/// An update as contracts see it.
pub struct UpdateView {
    pub name: Text,
    pub old_target: Option<Text>,
    pub new_target: Text,
}

impl View for BookmarkUpdate {
    type V = UpdateView;

    open spec fn view(&self) -> UpdateView {
        UpdateView {
            name: self.name@,
            old_target: opt_text(self.old_target),
            new_target: self.new_target@,
        }
    }
}

/// The update that a bookmark needs, if it is a scope, its head is one commit,
/// and the remote does not have it.
pub open spec fn update_of(graph: Seq<ScopeView>, pair: RefPairView) -> Option<UpdateView> {
    match one_commit(pair.local) {
        Some(local) if names_of(graph).contains(pair.name) && one_commit(pair.remote) != Some(
            local,
        ) => Some(
            UpdateView {
                name: pair.name,
                old_target: one_commit(pair.remote),
                new_target: local,
            },
        ),
        _ => None,
    }
}

/// The updates that the first `count` bookmarks need.
pub open spec fn updates_of(
    graph: Seq<ScopeView>,
    pairs: Seq<RefPair>,
    count: nat,
) -> Seq<UpdateView>
    decreases count,
{
    if count == 0 {
        Seq::empty()
    } else {
        let before = updates_of(graph, pairs, (count - 1) as nat);
        match update_of(graph, pairs[count - 1]@) {
            Some(update) => before.push(update),
            None => before,
        }
    }
}

/// The updates that are pending: those that all bookmarks need.
pub open spec fn pending_updates(graph: Seq<ScopeView>, pairs: Seq<RefPair>) -> Seq<UpdateView> {
    updates_of(graph, pairs, pairs.len())
}

/// The views of some updates.
pub open spec fn update_views(updates: Seq<BookmarkUpdate>) -> Seq<UpdateView> {
    updates.map_values(|u: BookmarkUpdate| u@)
}

/// Scopes whose local head is not where the remote has it. Scopes only: what
/// else is on the remote is somebody else's.
pub fn pending_bookmark_updates(pairs: &Vec<RefPair>, graph: &ScopeGraph) -> (updates: Vec<
    BookmarkUpdate,
>)
    ensures
        update_views(updates@) == pending_updates(graph@, pairs@),
{
    let mut updates: Vec<BookmarkUpdate> = Vec::new();
    let mut i: usize = 0;
    proof {
        assert(update_views(updates@) =~= Seq::<UpdateView>::empty());
    }
    while i < pairs.len()
        invariant
            i <= pairs.len(),
            update_views(updates@) == updates_of(graph@, pairs@, i as nat),
        decreases pairs.len() - i,
    {
        let pair = &pairs[i];
        let ghost before = updates@;
        if graph.contains(pair.name.as_str()) {
            match pair.local.as_normal() {
                Some(local) => {
                    let remote = match pair.remote.as_normal() {
                        Some(remote) => Some(remote.to_owned()),
                        None => None,
                    };
                    let published = match &remote {
                        Some(remote) => same_text(remote.as_str(), local),
                        None => false,
                    };
                    if !published {
                        updates.push(
                            BookmarkUpdate {
                                name: pair.name.clone(),
                                old_target: remote,
                                new_target: local.to_owned(),
                            },
                        );
                        proof {
                            assert(update_views(updates@) =~= update_views(before).push(
                                updates@.last()@,
                            ));
                        }
                    }
                },
                None => {},
            }
        }
        i += 1;
    }
    updates
}

/// The names of some updates.
pub open spec fn update_names(updates: Seq<UpdateView>) -> Seq<Text> {
    updates.map_values(|u: UpdateView| u.name)
}

/// The scopes that some updates are of.
pub fn attempted_scopes(updates: &Vec<BookmarkUpdate>) -> (names: Vec<String>)
    ensures
        texts(names@) == update_names(update_views(updates@)),
{
    let mut names: Vec<String> = Vec::new();
    let mut i: usize = 0;
    while i < updates.len()
        invariant
            i <= updates.len(),
            names.len() == i,
            forall|j: int| 0 <= j < i ==> (#[trigger] names@[j])@ == updates@[j].name@,
        decreases updates.len() - i,
    {
        names.push(updates[i].name.clone());
        i += 1;
    }
    proof {
        assert(texts(names@) =~= update_names(update_views(updates@)));
    }
    names
}

/// The scopes this machine holds a commit for that the remote has never seen:
/// what the next push would offer.
pub fn unpushed_scopes(pairs: &Vec<RefPair>, graph: &ScopeGraph) -> (names: Vec<String>)
    ensures
        texts(names@) == update_names(pending_updates(graph@, pairs@)),
{
    let updates = pending_bookmark_updates(pairs, graph);
    attempted_scopes(&updates)
}

/// A push offers scopes only: nothing else that the repo has a bookmark for.
pub proof fn law_push_offers_scopes_only(graph: Seq<ScopeView>, pairs: Seq<RefPair>, count: nat)
    requires
        count <= pairs.len(),
    ensures
        forall|i: int|
            0 <= i < updates_of(graph, pairs, count).len() ==> names_of(graph).contains(
                (#[trigger] updates_of(graph, pairs, count)[i]).name,
            ),
    decreases count,
{
    if count > 0 {
        law_push_offers_scopes_only(graph, pairs, (count - 1) as nat);
    }
}

/// Whether a bookmark is ahead: here it is at the one commit `local`, and the
/// remote was not last seen at that commit alone.
pub open spec fn is_ahead(pair: RefPair, local: Text) -> bool {
    &&& !pair.local.contested
    &&& pair.local.sides@.len() == 1
    &&& pair.local.sides@[0]@ == local
    &&& pair.remote.contested || pair.remote.sides@.len() != 1 || pair.remote.sides@[0]@ != local
}

/// Whether an update is leased on where the remote was last seen: at one commit,
/// or at none that can be named.
pub open spec fn is_leased(pair: RefPair, lease: Option<Text>) -> bool {
    match lease {
        Some(seen) => !pair.remote.contested && pair.remote.sides@.len() == 1
            && pair.remote.sides@[0]@ == seen,
        None => pair.remote.contested || pair.remote.sides@.len() != 1,
    }
}

proof fn lemma_update_of(graph: Seq<ScopeView>, pair: RefPair)
    ensures
        match update_of(graph, pair@) {
            Some(update) => {
                &&& exists|j: int| 0 <= j < graph.len() && (#[trigger] graph[j]).name == pair.name@
                &&& update.name == pair.name@
                &&& is_ahead(pair, update.new_target)
                &&& is_leased(pair, update.old_target)
            },
            None => !(exists|j: int|
                0 <= j < graph.len() && (#[trigger] graph[j]).name == pair.name@) || forall|
                local: Text,
            |
                !#[trigger] is_ahead(pair, local),
        },
{
    if pair.local.sides@.len() > 0 {
        assert(pair.local@.sides[0] == pair.local.sides@[0]@);
    }
    if pair.remote.sides@.len() > 0 {
        assert(pair.remote@.sides[0] == pair.remote.sides@[0]@);
    }
    if names_of(graph).contains(pair.name@) {
        let j = choose|j: int| 0 <= j < graph.len() && names_of(graph)[j] == pair.name@;
        assert(graph[j].name == pair.name@);
    }
    if exists|j: int| 0 <= j < graph.len() && (#[trigger] graph[j]).name == pair.name@ {
        let j = choose|j: int| 0 <= j < graph.len() && (#[trigger] graph[j]).name == pair.name@;
        assert(names_of(graph)[j] == pair.name@);
        assert(names_of(graph).contains(pair.name@));
    }
}

proof fn lemma_is_offered(
    graph: Seq<ScopeView>,
    pairs: Seq<RefPair>,
    count: nat,
    i: int,
    j: int,
    local: Text,
)
    requires
        count <= pairs.len(),
        0 <= i < count,
        0 <= j < graph.len(),
        graph[j].name == pairs[i].name@,
        is_ahead(pairs[i], local),
    ensures
        exists|k: int|
            0 <= k < updates_of(graph, pairs, count).len() && (#[trigger] updates_of(
                graph,
                pairs,
                count,
            )[k]).name == pairs[i].name@ && updates_of(graph, pairs, count)[k].new_target == local
                && is_leased(pairs[i], updates_of(graph, pairs, count)[k].old_target),
        update_names(updates_of(graph, pairs, count)).contains(pairs[i].name@),
    decreases count,
{
    let whole = updates_of(graph, pairs, count);
    let before = updates_of(graph, pairs, (count - 1) as nat);
    if i == count - 1 {
        lemma_update_of(graph, pairs[i]);
        assert(graph[j].name == pairs[i].name@);
        assert(update_of(graph, pairs[i]@) is Some);
        let k = before.len() as int;
        assert(whole[k] == update_of(graph, pairs[i]@)->0);
        assert(update_names(whole)[k] == pairs[i].name@);
    } else {
        lemma_is_offered(
            graph,
            pairs,
            (count - 1) as nat,
            i,
            j,
            local,
        );
        let k = choose|k: int|
            0 <= k < before.len() && (#[trigger] before[k]).name == pairs[i].name@
                && before[k].new_target == local && is_leased(pairs[i], before[k].old_target);
        assert(whole[k] == before[k]);
        assert(update_names(whole)[k] == pairs[i].name@);
    }
}

proof fn lemma_offer_is_ahead(
    graph: Seq<ScopeView>,
    pairs: Seq<RefPair>,
    count: nat,
    k: int,
)
    requires
        count <= pairs.len(),
        0 <= k < updates_of(graph, pairs, count).len(),
    ensures
        updates_of(graph, pairs, count).len() <= count,
        exists|i: int, j: int|
            0 <= i < count && 0 <= j < graph.len() && (#[trigger] graph[j]).name == (
            #[trigger] pairs[i]).name@ && updates_of(graph, pairs, count)[k].name
                == pairs[i].name@ && is_ahead(
                pairs[i],
                updates_of(graph, pairs, count)[k].new_target,
            ) && is_leased(pairs[i], updates_of(graph, pairs, count)[k].old_target),
    decreases count,
{
    let whole = updates_of(graph, pairs, count);
    let before = updates_of(graph, pairs, (count - 1) as nat);
    lemma_update_of(graph, pairs[count - 1]);
    if before.len() > 0 {
        lemma_offer_is_ahead(
            graph,
            pairs,
            (count - 1) as nat,
            if k < before.len() {
                k
            } else {
                0
            },
        );
    }
    if k < before.len() {
        assert(whole[k] == before[k]);
    } else {
        assert(whole[k] == update_of(graph, pairs[count - 1]@)->0);
        let j = choose|j: int|
            0 <= j < graph.len() && (#[trigger] graph[j]).name == pairs[count - 1].name@;
        assert(graph[j].name == pairs[count - 1].name@);
    }
}

/// A push offers every scope that is ahead, whichever place it has in the graph:
/// to go to where it is here, leased on where the remote was last seen. Its name
/// is among those that are said not to be published.
pub proof fn law_a_push_offers_every_scope_that_is_ahead(
    graph: Seq<ScopeView>,
    pairs: Seq<RefPair>,
    i: int,
    j: int,
    local: Text,
)
    requires
        0 <= i < pairs.len(),
        0 <= j < graph.len(),
        graph[j].name == pairs[i].name@,
        is_ahead(pairs[i], local),
    ensures
        exists|k: int|
            0 <= k < pending_updates(graph, pairs).len() && (#[trigger] pending_updates(graph, pairs)[k]).name
                == pairs[i].name@ && pending_updates(graph, pairs)[k].new_target == local && is_leased(
                pairs[i],
                pending_updates(graph, pairs)[k].old_target,
            ),
        exists|k: int|
            0 <= k < update_names(pending_updates(graph, pairs)).len() && #[trigger] update_names(
                pending_updates(graph, pairs),
            )[k] == pairs[i].name@,
{
    let updates = pending_updates(graph, pairs);
    lemma_is_offered(graph, pairs, pairs.len(), i, j, local);
    let k = choose|k: int|
        0 <= k < updates.len() && (#[trigger] updates[k]).name == pairs[i].name@
            && updates[k].new_target == local && is_leased(pairs[i], updates[k].old_target);
    assert(update_names(updates)[k] == pairs[i].name@);
}

/// A push offers nothing else: every update is of a scope that is ahead, and what
/// is said not to be published is what is offered, one name for each.
pub proof fn law_what_a_push_offers_is_ahead(
    graph: Seq<ScopeView>,
    pairs: Seq<RefPair>,
    k: int,
)
    requires
        0 <= k < pending_updates(graph, pairs).len(),
    ensures
        pending_updates(graph, pairs).len() <= pairs.len(),
        exists|i: int, j: int|
            0 <= i < pairs.len() && 0 <= j < graph.len() && (#[trigger] graph[j]).name == (
            #[trigger] pairs[i]).name@ && pending_updates(graph, pairs)[k].name == pairs[i].name@
                && is_ahead(pairs[i], pending_updates(graph, pairs)[k].new_target) && is_leased(
                pairs[i],
                pending_updates(graph, pairs)[k].old_target,
            ),
        update_names(pending_updates(graph, pairs)).len() == pending_updates(graph, pairs).len(),
        update_names(pending_updates(graph, pairs))[k] == pending_updates(graph, pairs)[k].name,
{
    lemma_offer_is_ahead(graph, pairs, pairs.len(), k);
}

/// A scope's head is the first that is listed for it, and nothing where none is.
pub proof fn law_the_head_of_a_scope_is_the_one_listed(
    heads: Seq<(String, Head)>,
    scope: Text,
    k: int,
)
    requires
        0 <= k <= heads.len(),
        forall|j: int| 0 <= j < k ==> (#[trigger] heads[j]).0@ != scope,
        k < heads.len() ==> heads[k].0@ == scope,
    ensures
        k < heads.len() ==> head_of(heads, scope) == heads[k].1@ && head_of(heads, scope).contested
            == heads[k].1.contested && head_of(heads, scope).sides.len() == heads[k].1.sides@.len()
            && forall|s: int|
            0 <= s < heads[k].1.sides@.len() ==> #[trigger] head_of(heads, scope).sides[s]
                == heads[k].1.sides@[s]@,
        k == heads.len() ==> !head_of(heads, scope).contested && head_of(heads, scope).sides.len()
            == 0,
        one_commit(head_of(heads, scope)) is Some <==> k < heads.len() && !heads[k].1.contested
            && heads[k].1.sides@.len() == 1,
        one_commit(head_of(heads, scope)) matches Some(id) ==> id == heads[k].1.sides@[0]@,
    decreases k,
{
    if k > 0 {
        let rest = heads.skip(1);
        assert(heads[0].0@ != scope);
        assert forall|j: int| 0 <= j < k - 1 implies (#[trigger] rest[j]).0@ != scope by {
            assert(rest[j] == heads[j + 1]);
        }
        law_the_head_of_a_scope_is_the_one_listed(rest, scope, k - 1);
        if k < heads.len() {
            assert(rest[k - 1] == heads[k]);
        }
    }
}

/// The scopes that are named as diverged are those of the graph at whose heads
/// this machine and the remote each hold commits the other does not.
pub proof fn law_every_contested_scope_is_named(
    graph: Seq<ScopeView>,
    heads: Seq<(String, Head)>,
    diverged: Seq<Text>,
    j: int,
    k: int,
)
    requires
        are_diverged(graph, heads, diverged),
        0 <= j < graph.len(),
        0 <= k < heads.len(),
        heads[k].0@ == graph[j].name,
        forall|m: int| 0 <= m < k ==> (#[trigger] heads[m]).0@ != graph[j].name,
    ensures
        diverged.contains(graph[j].name) <==> heads[k].1.contested,
{
    law_the_head_of_a_scope_is_the_one_listed(heads, graph[j].name, k);
    assert(names_of(graph)[j] == graph[j].name);
    lemma_filter_holds(names_of(graph), |n: Text| head_of(heads, n).contested);
}

/// What a run did about publishing local scope commits. Any scope it names is
/// committed on this machine and absent from the remote.
#[derive(Debug, Clone)]
pub enum PushReport {
    /// Nothing is waiting to be published.
    UpToDate,
    /// The remote refused these scopes.
    Refused { scopes: Vec<String>, rejection: Rejection },
    /// The remote could not be reached, so these scopes stay local-ahead.
    Unreachable { scopes: Vec<String>, reason: String },
}

/// Why the remote said no, which decides whether asking again can change the
/// answer.
#[derive(Debug, Clone)]
pub enum Rejection {
    /// The remote moved after this run last looked at it.
    RemoteMoved,
    /// The remote refused the write itself, in its own words.
    RefusedTheWrite { reason: Option<String> },
}

/// A rejection in words.
pub open spec fn rejection_reason(rejection: Rejection) -> Text {
    match rejection {
        Rejection::RemoteMoved => "another machine published to it after this run last looked"@,
        Rejection::RefusedTheWrite { reason: Some(said) } => said@,
        Rejection::RefusedTheWrite { reason: None } => "no reason reported by the remote"@,
    }
}

impl Rejection {
    /// The rejection in words.
    pub fn reason(&self) -> (text: String)
        ensures
            text@ == rejection_reason(*self),
    {
        match self {
            Rejection::RemoteMoved =>
                "another machine published to it after this run last looked".to_owned(),
            Rejection::RefusedTheWrite { reason } => match reason {
                Some(said) => said.clone(),
                None => "no reason reported by the remote".to_owned(),
            },
        }
    }
}

/// The scopes that a report names as not published.
pub open spec fn left_behind(report: PushReport) -> Seq<Text> {
    match report {
        PushReport::UpToDate => Seq::empty(),
        PushReport::Refused { scopes, rejection } => texts(scopes@),
        PushReport::Unreachable { scopes, reason } => texts(scopes@),
    }
}

impl PushReport {
    /// The scopes that are committed here and were not published.
    pub fn unpushed_scopes(&self) -> (scopes: Vec<String>)
        ensures
            texts(scopes@) == left_behind(*self),
    {
        match self {
            PushReport::UpToDate => {
                let none: Vec<String> = Vec::new();
                proof {
                    assert(texts(none@) =~= Seq::<Text>::empty());
                }
                none
            },
            PushReport::Refused { scopes, rejection } => clone_texts(scopes),
            PushReport::Unreachable { scopes, reason } => clone_texts(scopes),
        }
    }
}

/// `text` without every `prefix` that leads it.
pub open spec fn stripped(text: Text, prefix: Text) -> Text
    decreases text.len(),
{
    if prefix.len() > 0 && begins_with(text, prefix) {
        stripped(text.skip(prefix.len() as int), prefix)
    } else {
        text
    }
}

/// `text` without every `prefix` that leads it.
pub fn strip_all(text: &str, prefix: &str) -> (rest: String)
    ensures
        rest@ == stripped(text@, prefix@),
{
    let mut rest = text.to_owned();
    if prefix.is_empty() {
        return rest;
    }
    loop
        invariant
            prefix@.len() > 0,
            stripped(rest@, prefix@) == stripped(text@, prefix@),
        decreases rest@.len(),
    {
        match strip_prefix(rest.as_str(), prefix) {
            None => {
                return rest;
            },
            Some(shorter) => {
                proof {
                    assert(rest@.skip(prefix@.len() as int) =~= shorter@);
                }
                rest = shorter;
            },
        }
    }
}

/// What git said when the remote could not be reached, without the words that
/// wrap it.
pub fn remote_failure_reason(message: &str) -> (reason: String)
    ensures
        reason@ == trimmed(stripped(message@, "External git program failed:"@)),
{
    let rest = strip_all(message, "External git program failed:");
    trim(rest.as_str())
}

/// What a push came to, in plain words: the references the remote took, and the
/// reasons it gave for those whose lease failed and for those it turned down.
pub struct PushStats {
    pub pushed: Vec<String>,
    pub rejected: Vec<Option<String>>,
    pub remote_rejected: Vec<Option<String>>,
}

/// The scopes that the remote took.
pub open spec fn taken(pushed: Seq<String>) -> Seq<Text> {
    pushed.map_values(|reference: String| stripped(reference@, "refs/heads/"@))
}

/// The first reason that is given.
pub open spec fn first_reason(reasons: Seq<Option<String>>) -> Option<Text>
    decreases reasons.len(),
{
    if reasons.len() == 0 {
        None
    } else if reasons[0] is Some {
        opt_text(reasons[0])
    } else {
        first_reason(reasons.skip(1))
    }
}

/// The scopes of a push that the remote did not take.
pub open spec fn not_taken(attempted: Seq<Text>, stats: PushStats) -> Seq<Text> {
    attempted.filter(|scope: Text| !taken(stats.pushed@).contains(scope))
}

fn find_reason(reasons: &Vec<Option<String>>) -> (found: Option<String>)
    ensures
        opt_text(found) == first_reason(reasons@),
{
    let mut i: usize = 0;
    proof {
        assert(reasons@.skip(0) =~= reasons@);
    }
    while i < reasons.len()
        invariant
            i <= reasons.len(),
            first_reason(reasons@) == first_reason(reasons@.skip(i as int)),
        decreases reasons.len() - i,
    {
        proof {
            assert(reasons@.skip(i as int)[0] == reasons@[i as int]);
            assert(reasons@.skip(i as int).skip(1) =~= reasons@.skip(i + 1));
        }
        match &reasons[i] {
            Some(reason) => {
                return Some(reason.clone());
            },
            None => {},
        }
        i += 1;
    }
    None
}

/// Whether `report` says what a push of `attempted` came to. Only a run whose
/// every failure is a failed lease lost a race; anything else is the remote
/// turning the write down.
pub open spec fn came_to(attempted: Seq<Text>, stats: PushStats, report: PushReport) -> bool {
    let refused = not_taken(attempted, stats);
    match report {
        PushReport::UpToDate => refused.len() == 0,
        PushReport::Refused { scopes, rejection } => {
            &&& refused.len() > 0
            &&& texts(scopes@) == refused
            &&& match rejection {
                Rejection::RemoteMoved => stats.remote_rejected@.len() == 0
                    && stats.rejected@.len() > 0,
                Rejection::RefusedTheWrite { reason } => {
                    &&& stats.remote_rejected@.len() > 0 || stats.rejected@.len() == 0
                    &&& opt_text(reason) == match first_reason(stats.remote_rejected@) {
                        Some(said) => Some(said),
                        None => first_reason(stats.rejected@),
                    }
                },
            }
        },
        PushReport::Unreachable { scopes, reason } => false,
    }
}

/// What a push came to.
pub fn push_outcome(attempted: &Vec<String>, stats: &PushStats) -> (report: PushReport)
    ensures
        came_to(texts(attempted@), *stats, report),
{
    let mut pushed: Vec<String> = Vec::new();
    let mut i: usize = 0;
    while i < stats.pushed.len()
        invariant
            i <= stats.pushed.len(),
            pushed.len() == i,
            forall|j: int|
                0 <= j < i ==> (#[trigger] pushed@[j])@ == stripped(
                    stats.pushed@[j]@,
                    "refs/heads/"@,
                ),
        decreases stats.pushed.len() - i,
    {
        pushed.push(strip_all(stats.pushed[i].as_str(), "refs/heads/"));
        i += 1;
    }
    proof {
        assert(texts(pushed@) =~= taken(stats.pushed@));
    }
    let ghost all = texts(attempted@);
    let ghost keep = |scope: Text| !taken(stats.pushed@).contains(scope);
    let mut refused: Vec<String> = Vec::new();
    let mut k: usize = 0;
    proof {
        lemma_take_all(all);
        reveal(Seq::filter);
        assert(texts(refused@) =~= Seq::<Text>::empty());
    }
    while k < attempted.len()
        invariant
            k <= attempted.len(),
            all == texts(attempted@),
            texts(pushed@) == taken(stats.pushed@),
            keep == |scope: Text| !taken(stats.pushed@).contains(scope),
            texts(refused@) == all.take(k as int).filter(keep),
        decreases attempted.len() - k,
    {
        proof {
            lemma_filter_step(all, keep, k as int);
            assert(all[k as int] == attempted@[k as int]@);
        }
        if !contains_text(&pushed, attempted[k].as_str()) {
            let ghost before = refused@;
            refused.push(attempted[k].clone());
            proof {
                lemma_texts_push(before, refused@.last());
            }
        }
        k += 1;
    }
    proof {
        lemma_take_all(all);
        assert(texts(refused@).len() == refused.len());
    }
    if refused.is_empty() {
        return PushReport::UpToDate;
    }
    let rejection = if stats.remote_rejected.is_empty() && !stats.rejected.is_empty() {
        Rejection::RemoteMoved
    } else {
        let reason = match find_reason(&stats.remote_rejected) {
            Some(reason) => Some(reason),
            None => find_reason(&stats.rejected),
        };
        Rejection::RefusedTheWrite { reason }
    };
    PushReport::Refused { scopes: refused, rejection }
}

/// How the attempt to push went.
pub enum PushAttempt {
    /// The remote answered.
    Answered(PushStats),
    /// Git could not be run to its end: the remote was out of reach.
    OutOfReach { message: String },
    /// Anything else.
    Failed { message: String },
}

/// What a run reports of an attempt to publish some scopes.
pub open spec fn reports_push(
    attempted: Seq<Text>,
    attempt: PushAttempt,
    reported: Result<PushReport, DotsyncError>,
) -> bool {
    match (attempt, reported) {
        (PushAttempt::Failed { message }, Err(DotsyncError::Jj { message: said })) =>
            attempted.len() > 0 && said@ == "push branches: "@ + message@,
        (_, Err(_)) => false,
        (_, Ok(report)) if attempted.len() == 0 => report is UpToDate,
        (PushAttempt::Answered(stats), Ok(report)) => came_to(attempted, stats, report),
        (
            PushAttempt::OutOfReach { message },
            Ok(PushReport::Unreachable { scopes, reason }),
        ) => texts(scopes@) == attempted && reason@ == trimmed(
            stripped(message@, "External git program failed:"@),
        ),
        _ => false,
    }
}

/// What a run reports of publishing the pending updates. With none there is
/// nothing to publish, and no attempt is looked at.
pub fn push_report(updates: &Vec<BookmarkUpdate>, attempt: &PushAttempt) -> (reported: Result<
    PushReport,
    DotsyncError,
>)
    ensures
        reports_push(update_names(update_views(updates@)), *attempt, reported),
{
    let attempted = attempted_scopes(updates);
    proof {
        assert(texts(attempted@).len() == attempted.len());
    }
    if attempted.is_empty() {
        return Ok(PushReport::UpToDate);
    }
    match attempt {
        PushAttempt::Answered(stats) => Ok(push_outcome(&attempted, stats)),
        PushAttempt::OutOfReach { message } => Ok(
            PushReport::Unreachable {
                scopes: attempted,
                reason: remote_failure_reason(message.as_str()),
            },
        ),
        PushAttempt::Failed { message } => Err(
            jj_error(cat2("push branches: ", message.as_str())),
        ),
    }
}

/// A report that everything is published means that the remote took every scope
/// that was offered, and a refusal names every scope it did not take.
pub proof fn law_refused_scopes_were_not_taken(
    attempted: Seq<Text>,
    stats: PushStats,
    scope: Text,
)
    requires
        attempted.contains(scope),
    ensures
        not_taken(attempted, stats).contains(scope) <==> !taken(stats.pushed@).contains(scope),
{
    crate::seqs::lemma_filter_holds(
        attempted,
        |scope: Text| !taken(stats.pushed@).contains(scope),
    );
}

proof fn lemma_stripped_name(scope: Text)
    requires
        !begins_with(scope, "refs/heads/"@),
    ensures
        stripped("refs/heads/"@ + scope, "refs/heads/"@) == scope,
{
    let prefix = "refs/heads/"@;
    reveal_strlit("refs/heads/");
    let whole = prefix + scope;
    assert(whole.subrange(0, prefix.len() as int) =~= prefix);
    assert(whole.skip(prefix.len() as int) =~= scope);
    assert(stripped(scope, prefix) == scope);
}

/// A report leaves behind exactly the scopes that were offered and that the
/// remote did not take, and it is up to date only where it took them all. Where
/// the remote is out of reach every scope that was offered is left behind.
pub proof fn law_a_push_leaves_behind_what_was_not_taken(
    attempted: Seq<Text>,
    attempt: PushAttempt,
    report: PushReport,
    scope: Text,
)
    requires
        reports_push(attempted, attempt, Ok::<PushReport, DotsyncError>(report)),
        !begins_with(scope, "refs/heads/"@),
        attempt matches PushAttempt::Answered(stats) ==> forall|i: int|
            0 <= i < stats.pushed@.len() ==> is_reference(#[trigger] stats.pushed@[i]),
    ensures
        left_behind(report).contains(scope) <==> attempted.contains(scope) && match attempt {
            PushAttempt::Answered(stats) => forall|i: int|
                0 <= i < stats.pushed@.len() ==> (#[trigger] stats.pushed@[i])@ != "refs/heads/"@
                    + scope,
            _ => true,
        },
        report is UpToDate ==> left_behind(report).len() == 0,
        !(report is UpToDate) ==> left_behind(report).len() > 0,
        report is Unreachable <==> attempt is OutOfReach && attempted.len() > 0,
        report matches PushReport::Refused { scopes, rejection } ==> (attempt matches PushAttempt::Answered(
            stats,
        ) && (rejection is RemoteMoved <==> stats.rejected@.len() > 0
            && stats.remote_rejected@.len() == 0)),
{
    if let PushAttempt::Answered(stats) = attempt {
        let prefix = "refs/heads/"@;
        let names = taken(stats.pushed@);
        lemma_filter_holds(attempted, |scope: Text| !taken(stats.pushed@).contains(scope));
        lemma_stripped_name(scope);
        if names.contains(scope) {
            let i = choose|i: int| 0 <= i < names.len() && names[i] == scope;
            assert(is_reference(stats.pushed@[i]));
            let name = choose|name: Text|
                !begins_with(name, prefix) && stats.pushed@[i]@ == prefix + name;
            lemma_stripped_name(name);
            assert(stats.pushed@[i]@ == prefix + scope);
        }
        if exists|i: int| 0 <= i < stats.pushed@.len() && (#[trigger] stats.pushed@[i])@ == prefix
            + scope {
            let i = choose|i: int|
                0 <= i < stats.pushed@.len() && (#[trigger] stats.pushed@[i])@ == prefix + scope;
            assert(names[i] == scope);
        }
        if attempted.len() > 0 && report is UpToDate {
            assert(not_taken(attempted, stats) =~= Seq::<Text>::empty());
            assert(!not_taken(attempted, stats).contains(scope));
        }
    }
    if attempted.len() == 0 {
        assert(!attempted.contains(scope));
    }
}

/// Whether a reference is one of a branch.
pub open spec fn is_reference(reference: String) -> bool {
    exists|name: Text|
        !begins_with(name, "refs/heads/"@) && #[trigger] ("refs/heads/"@ + name) == reference@
}

/// A refusal gives a reason that the remote gave, the first of those for turning
/// the write down before any for a lease, and none only where it gave none.
pub proof fn law_a_refusal_gives_the_remotes_reason(
    attempted: Seq<Text>,
    stats: PushStats,
    scopes: Vec<String>,
    reason: Option<String>,
)
    requires
        came_to(
            attempted,
            stats,
            (PushReport::Refused { scopes, rejection: Rejection::RefusedTheWrite { reason } }),
        ),
    ensures
        match reason {
            Some(said) => is_first_given(stats.remote_rejected@, said@) || (none_given(
                stats.remote_rejected@,
            ) && is_first_given(stats.rejected@, said@)),
            None => none_given(stats.remote_rejected@) && none_given(stats.rejected@),
        },
{
    lemma_first_reason(stats.remote_rejected@);
    lemma_first_reason(stats.rejected@);
}

/// Whether no reason is given.
pub open spec fn none_given(reasons: Seq<Option<String>>) -> bool {
    forall|j: int| 0 <= j < reasons.len() ==> #[trigger] reasons[j] is None
}

/// Whether a text is the first reason that is given.
pub open spec fn is_first_given(reasons: Seq<Option<String>>, said: Text) -> bool {
    exists|i: int|
        0 <= i < reasons.len() && #[trigger] reasons[i] is Some && reasons[i]->0@ == said && forall|
            j: int,
        |
            0 <= j < i ==> #[trigger] reasons[j] is None
}

proof fn lemma_first_reason(reasons: Seq<Option<String>>)
    ensures
        first_reason(reasons) is None <==> none_given(reasons),
        first_reason(reasons) matches Some(said) ==> is_first_given(reasons, said),
    decreases reasons.len(),
{
    if reasons.len() > 0 {
        if reasons[0] is Some {
            assert(reasons[0]->0@ == first_reason(reasons)->0);
        } else {
            let rest = reasons.skip(1);
            lemma_first_reason(rest);
            if first_reason(rest) is None {
                assert forall|j: int| 0 <= j < reasons.len() implies #[trigger] reasons[j] is None by {
                    if j > 0 {
                        assert(rest[j - 1] == reasons[j]);
                    }
                }
            } else {
                let said = first_reason(rest)->0;
                let i = choose|i: int|
                    0 <= i < rest.len() && #[trigger] rest[i] is Some && rest[i]->0@ == said
                        && forall|j: int| 0 <= j < i ==> #[trigger] rest[j] is None;
                assert(reasons[i + 1] == rest[i]);
                assert forall|j: int| 0 <= j < i + 1 implies #[trigger] reasons[j] is None by {
                    if j > 0 {
                        assert(rest[j - 1] == reasons[j]);
                    }
                }
            }
        }
    }
}

/// What a merge left at a path of a tree.
pub enum MergedEntry {
    /// Two sides, and no version to choose.
    Conflicted,
    Absent,
    Value(TreeValue),
}

/// What of a tree is managed: everything but the directories, with nothing to
/// say where it is conflicted.
pub open spec fn managed_value(entry: MergedEntry) -> Option<Option<TreeValue>> {
    match entry {
        MergedEntry::Conflicted => Some(None),
        MergedEntry::Absent => None,
        MergedEntry::Value(TreeValue::Tree(_)) => None,
        MergedEntry::Value(value) => Some(Some(value)),
    }
}

/// The managed value of the last entry, among the first `count`, that has one
/// for a path.
pub open spec fn managed_at(
    entries: Seq<(FilePath, MergedEntry)>,
    count: nat,
    path: Components,
) -> Option<Option<TreeValue>>
    decreases count,
{
    if count == 0 {
        None
    } else if entries[count - 1].0@ == path && managed_value(entries[count - 1].1) is Some {
        managed_value(entries[count - 1].1)
    } else {
        managed_at(entries, (count - 1) as nat, path)
    }
}

/// How a tree spells a managed path: as the first entry, among the first `count`,
/// that has a managed value for it.
pub open spec fn managed_spelling(
    entries: Seq<(FilePath, MergedEntry)>,
    count: nat,
    path: Components,
) -> Option<FilePath>
    decreases count,
{
    if count == 0 {
        None
    } else {
        let entry = entries[count - 1];
        first_of(
            managed_spelling(entries, (count - 1) as nat, path),
            if path == entry.0@ && managed_value(entry.1) is Some {
                Some(entry.0)
            } else {
                None
            },
        )
    }
}

/// Every managed path a tree holds, and what is at it: `None` where the tree
/// holds a conflict there.
pub fn managed_tree_entries(entries: &Vec<(FilePath, MergedEntry)>) -> (managed: Vec<
    (FilePath, Option<TreeValue>),
>)
    ensures
        sorted_paths(keys(managed@)),
        forall|p: Components| #[trigger]
            value_at(managed@, p) == managed_at(entries@, entries@.len(), p),
        forall|p: Components| #[trigger]
            spelled(entry_names(managed@), p) == managed_spelling(entries@, entries@.len(), p),
{
    let mut managed: Vec<(FilePath, Option<TreeValue>)> = Vec::new();
    let mut i: usize = 0;
    proof {
        assert forall|p: Components| #[trigger] spelled(entry_names(managed@), p) is None by {
            lemma_spelled(entry_names(managed@), p);
        }
    }
    while i < entries.len()
        invariant
            i <= entries.len(),
            sorted_paths(keys(managed@)),
            forall|p: Components| #[trigger]
                value_at(managed@, p) == managed_at(entries@, i as nat, p),
            forall|p: Components| #[trigger]
                spelled(entry_names(managed@), p) == managed_spelling(entries@, i as nat, p),
        decreases entries.len() - i,
    {
        let path = &entries[i].0;
        match &entries[i].1 {
            MergedEntry::Conflicted => {
                put(&mut managed, path.copy(), None);
            },
            MergedEntry::Absent => {},
            MergedEntry::Value(value) => match value {
                TreeValue::Tree(_) => {},
                _ => {
                    put(&mut managed, path.copy(), Some(value.copy()));
                },
            },
        }
        i += 1;
    }
    managed
}

/// Every file, link and submodule of a tree is managed, under its path, and so is
/// every path that it holds a conflict at; directories and paths that it holds
/// nothing at are not.
pub proof fn law_a_tree_is_managed_whole(
    entries: Seq<(FilePath, MergedEntry)>,
    i: int,
)
    requires
        0 <= i < entries.len(),
        forall|j: int|
            0 <= j < entries.len() && j != i ==> (#[trigger] entries[j]).0@ != entries[i].0@,
    ensures
        match entries[i].1 {
            MergedEntry::Conflicted => managed_at(entries, entries.len(), entries[i].0@) == Some(
                None::<TreeValue>,
            ),
            MergedEntry::Absent => managed_at(entries, entries.len(), entries[i].0@) is None,
            MergedEntry::Value(value) => if value is Tree {
                managed_at(entries, entries.len(), entries[i].0@) is None
            } else {
                managed_at(entries, entries.len(), entries[i].0@) == Some(Some(value))
            },
        },
{
    lemma_managed_at(entries, entries.len(), i);
}

proof fn lemma_managed_at(entries: Seq<(FilePath, MergedEntry)>, count: nat, i: int)
    requires
        0 <= i < entries.len(),
        count <= entries.len(),
        forall|j: int|
            0 <= j < entries.len() && j != i ==> (#[trigger] entries[j]).0@ != entries[i].0@,
    ensures
        managed_at(entries, count, entries[i].0@) == if i < count {
            managed_value(entries[i].1)
        } else {
            None
        },
    decreases count,
{
    if count > 0 {
        lemma_managed_at(entries, (count - 1) as nat, i);
        if count - 1 != i {
            assert(entries[count - 1].0@ != entries[i].0@);
        }
    }
}

/// A tree manages nothing at a path that none of its entries has.
pub proof fn law_nothing_else_is_managed(entries: Seq<(FilePath, MergedEntry)>, path: Components)
    requires
        forall|j: int| 0 <= j < entries.len() ==> (#[trigger] entries[j]).0@ != path,
    ensures
        managed_at(entries, entries.len(), path) is None,
{
    lemma_unmanaged(entries, entries.len(), path);
}

proof fn lemma_unmanaged(entries: Seq<(FilePath, MergedEntry)>, count: nat, path: Components)
    requires
        count <= entries.len(),
        forall|j: int| 0 <= j < entries.len() ==> (#[trigger] entries[j]).0@ != path,
    ensures
        managed_at(entries, count, path) is None,
    decreases count,
{
    if count > 0 {
        assert(entries[count - 1].0@ != path);
        lemma_unmanaged(entries, (count - 1) as nat, path);
    }
}

/// Whether a path is the first that a tree holds a conflict at.
pub open spec fn first_conflict(
    entries: Seq<(FilePath, MergedEntry)>,
    path: Components,
) -> bool {
    &&& managed_at(entries, entries.len(), path) == Some(None::<TreeValue>)
    &&& forall|other: Components|
        #[trigger] managed_at(entries, entries.len(), other) == Some(None::<TreeValue>) ==> other
            == path || path_before(path, other)
}

/// The same, for a caller about to write home or a commit from it: a conflicted
/// entry has no bytes to write, so it is a stop.
pub fn collect_managed_tree_entries(entries: &Vec<(FilePath, MergedEntry)>) -> (found: Result<
    Entries,
    DotsyncError,
>)
    ensures
        match found {
            Ok(found) => {
                &&& sorted_paths(keys(found@))
                &&& forall|p: Components|
                    managed_at(entries@, entries@.len(), p) == match #[trigger] value_at(
                        found@,
                        p,
                    ) {
                        Some(value) => Some(Some(value)),
                        None => None,
                    }
                &&& forall|p: Components| #[trigger]
                    spelled(entry_names(found@), p) == managed_spelling(
                        entries@,
                        entries@.len(),
                        p,
                    )
            },
            Err(error) => exists|path: FilePath|
                first_conflict(entries@, path@) && managed_spelling(
                    entries@,
                    entries@.len(),
                    path@,
                ) == Some(path) && is_internal(
                    error,
                    "tree entry "@ + #[trigger] path.text@ + " is conflicted during sync"@,
                ),
        },
{
    let managed = managed_tree_entries(entries);
    let mut found: Entries = Vec::new();
    let mut i: usize = 0;
    while i < managed.len()
        invariant
            i <= managed.len(),
            sorted_paths(keys(managed@)),
            forall|p: Components| #[trigger]
                value_at(managed@, p) == managed_at(entries@, entries@.len(), p),
            forall|p: Components| #[trigger]
                spelled(entry_names(managed@), p) == managed_spelling(
                    entries@,
                    entries@.len(),
                    p,
                ),
            found.len() == i,
            forall|k: int|
                0 <= k < i ==> (#[trigger] found@[k]).0 == managed@[k].0 && managed@[k].1 == Some(
                    found@[k].1,
                ),
        decreases managed.len() - i,
    {
        match &managed[i].1 {
            None => {
                let message = cat3(
                    "tree entry ",
                    managed[i].0.text.as_str(),
                    " is conflicted during sync",
                );
                proof {
                    let path = managed@[i as int].0;
                    lemma_sorted_value(managed@, i as int);
                    assert(all_paths(entry_names(managed@)) =~= keys(managed@));
                    lemma_sorted_spelled(entry_names(managed@), i as int);
                    assert(spelled(entry_names(managed@), path@) == Some(path));
                    assert forall|other: Components|
                        #[trigger] managed_at(entries@, entries@.len(), other) == Some(
                            None::<TreeValue>,
                        ) implies other == path@ || path_before(path@, other) by {
                        assert(value_at(managed@, other) == Some(None::<TreeValue>));
                        lemma_value_at(managed@, other);
                        let k = choose|k: int|
                            0 <= k < managed.len() && (#[trigger] managed@[k]).0@ == other
                                && managed@[k].1 == None::<TreeValue>;
                        if k < i {
                            assert(found@[k].0 == managed@[k].0);
                        } else if k > i {
                            assert(path_before(keys(managed@)[i as int], keys(managed@)[k]));
                        }
                    }
                    assert(first_conflict(entries@, path@));
                    assert(message@ == "tree entry "@ + path.text@ + " is conflicted during sync"@);
                }
                return Err(jj_error(message));
            },
            Some(value) => {
                found.push((managed[i].0.copy(), value.copy()));
            },
        }
        i += 1;
    }
    proof {
        assert(keys(found@) =~= keys(managed@));
        assert(entry_names(found@) =~= entry_names(managed@));
        assert forall|p: Components|
            managed_at(entries@, entries@.len(), p) == match #[trigger] value_at(found@, p) {
                Some(value) => Some(Some(value)),
                None => None,
            } by {
            lemma_resolved_values(managed@, found@, p);
        }
    }
    Ok(found)
}

proof fn lemma_resolved_values(
    managed: Seq<(FilePath, Option<TreeValue>)>,
    found: Seq<(FilePath, TreeValue)>,
    path: Components,
)
    requires
        managed.len() == found.len(),
        forall|k: int|
            0 <= k < found.len() ==> (#[trigger] found[k]).0 == managed[k].0 && managed[k].1
                == Some(found[k].1),
    ensures
        value_at(managed, path) == match value_at(found, path) {
            Some(value) => Some(Some(value)),
            None => None,
        },
    decreases found.len(),
{
    if found.len() > 0 {
        assert(found[0].0 == managed[0].0 && managed[0].1 == Some(found[0].1));
        assert forall|k: int| 0 <= k < found.skip(1).len() implies (#[trigger] found.skip(1)[k]).0
            == managed.skip(1)[k].0 && managed.skip(1)[k].1 == Some(found.skip(1)[k].1) by {
            assert(found.skip(1)[k] == found[k + 1]);
        }
        lemma_resolved_values(managed.skip(1), found.skip(1), path);
    }
}

/// What has to be read from the store to have the content of an entry.
pub enum StoredContent {
    File(String),
    Symlink(String),
}

/// Where the content of an entry is. A submodule has none that dotsync manages.
pub fn stored_content(path: &FilePath, value: &TreeValue) -> (found: Result<
    StoredContent,
    DotsyncError,
>)
    requires
        !(value is Tree),
    ensures
        match value {
            TreeValue::File { id, executable } => found == Ok::<StoredContent, DotsyncError>(
                StoredContent::File(*id),
            ),
            TreeValue::Symlink(id) => found == Ok::<StoredContent, DotsyncError>(
                StoredContent::Symlink(*id),
            ),
            _ => found matches Err(DotsyncError::GitSubmodule { path: refused }) && refused
                == *path,
        },
{
    match value {
        TreeValue::File { id, executable } => Ok(StoredContent::File(id.clone())),
        TreeValue::Symlink(id) => Ok(StoredContent::Symlink(id.clone())),
        _ => Err(DotsyncError::GitSubmodule { path: path.copy() }),
    }
}

/// Whether a text is a path as the repo writes paths: no component is empty.
pub open spec fn is_repo_path(text: Text) -> bool {
    &&& !(text.len() > 0 && text[0] == '/')
    &&& !(text.len() > 0 && text.last() == '/')
    &&& forall|i: int| 0 <= i < text.len() - 1 ==> !(#[trigger] text[i] == '/' && text[i + 1] == '/')
}

/// Components that are none of `.` and of the root make a path as the repo writes
/// paths.
pub proof fn lemma_components_make_a_repo_path(parts: Components)
    requires
        forall|k: int|
            0 <= k < parts.len() ==> is_component(#[trigger] parts[k]) && !parts[k].contains('/'),
    ensures
        is_repo_path(path_text(parts)),
{
    reveal_strlit("/");
    if parts.len() > 0 {
        assert(!parts[0].contains('/'));
        assert("/"@[0] == '/');
        assert("/"@.contains('/'));
        lemma_joined_is_repo_path(parts);
    }
}

proof fn lemma_joined_is_repo_path(parts: Components)
    requires
        parts.len() > 0,
        forall|k: int|
            0 <= k < parts.len() ==> is_component(#[trigger] parts[k]) && !parts[k].contains('/'),
    ensures
        joined(parts, "/"@).len() > 0,
        is_repo_path(joined(parts, "/"@)),
    decreases parts.len(),
{
    let last = parts.last();
    assert(is_component(parts[parts.len() - 1]));
    assert forall|i: int| 0 <= i < last.len() implies last[i] != '/' by {
        assert(last.contains(last[i]));
    }
    if parts.len() > 1 {
        let front = parts.drop_last();
        assert forall|k: int| 0 <= k < front.len() implies is_component(#[trigger] front[k])
            && !front[k].contains('/') by {
            assert(front[k] == parts[k]);
        }
        lemma_joined_is_repo_path(front);
        reveal_strlit("/");
        let before = joined(front, "/"@);
        let text = before + "/"@ + last;
        assert(text.last() == last.last());
        assert(text[0] == before[0]);
        assert forall|i: int| 0 <= i < text.len() - 1 implies !(#[trigger] text[i] == '/' && text[i
            + 1] == '/') by {
            if i + 1 < before.len() {
                assert(text[i] == before[i] && text[i + 1] == before[i + 1]);
            } else if i < before.len() {
                assert(text[i] == before.last());
            } else if i == before.len() {
                assert(text[i + 1] == last[0]);
            } else {
                assert(text[i] == last[i - before.len() - 1]);
            }
        }
    } else {
        assert forall|i: int| 0 <= i < last.len() - 1 implies !(#[trigger] last[i] == '/' && last[i
            + 1] == '/') by {}
    }
}

/// Wraps `jj_lib::repo_path::RepoPathBuf::from_internal_string`, which takes a
/// text that neither starts nor ends with `/` and holds no `//`, keeps it as it
/// is, and otherwise says that it is no valid input.
#[verifier::external_body]
fn internal_repo_path(text: &str) -> (path: Result<String, String>)
    ensures
        path is Ok <==> is_repo_path(text@),
        path matches Ok(path) ==> path@ == text@,
        path matches Err(said) ==> said@ == "Invalid repo path input \""@ + text@ + "\""@,
{
    match RepoPathBuf::from_internal_string(text) {
        Ok(path) => Ok(path.as_internal_file_string().to_owned()),
        Err(error) => Err(error.to_string()),
    }
}

/// A home-relative path as the repo names it.
pub fn repo_path_of(path: &FilePath) -> (name: Result<String, DotsyncError>)
    ensures
        match name {
            Ok(name) => is_repo_path(path.text@) && name@ == path.text@,
            Err(error) => !is_repo_path(path.text@) && is_internal(
                error,
                "invalid repo path "@ + path.text@ + ": Invalid repo path input \""@ + path.text@
                    + "\""@,
            ),
        },
{
    match internal_repo_path(path.text.as_str()) {
        Ok(name) => Ok(name),
        Err(said) => {
            let message = cat4("invalid repo path ", path.text.as_str(), ": ", said.as_str());
            proof {
                reveal_strlit(": ");
                reveal_strlit("Invalid repo path input \"");
                reveal_strlit(": Invalid repo path input \"");
                assert(": "@ + "Invalid repo path input \""@
                    =~= ": Invalid repo path input \""@);
                assert(message@ =~= "invalid repo path "@ + path.text@
                    + ": Invalid repo path input \""@ + path.text@ + "\""@);
            }
            Err(jj_error(message))
        },
    }
}

/// Whether a character is a hexadecimal digit.
pub open spec fn hex_digit(c: char) -> bool {
    '0' <= c <= '9' || 'a' <= c <= 'f' || 'A' <= c <= 'F'
}

/// Whether a text is the hexadecimal form of some bytes.
pub open spec fn is_hex(text: Text) -> bool {
    text.len() % 2 == 0 && forall|i: int| 0 <= i < text.len() ==> hex_digit(#[trigger] text[i])
}

/// Wraps `jj_lib::backend::CommitId::try_from_hex`, which reads an id from an
/// even number of hexadecimal digits, upper or lower case, and from nothing
/// else.
#[verifier::external_body]
fn reads_as_commit_id(text: &str) -> (valid: bool)
    ensures
        valid == is_hex(text@),
{
    CommitId::try_from_hex(text).is_some()
}

/// The commit id that a record names, if it is one.
pub fn recorded_commit_id(id: &str) -> (checked: Result<String, DotsyncError>)
    ensures
        match checked {
            Ok(checked) => is_hex(id@) && checked@ == id@,
            Err(error) => !is_hex(id@) && is_internal(
                error,
                "paused cascade commit id `"@ + id@ + "` is not valid hex"@,
            ),
        },
{
    if reads_as_commit_id(id) {
        Ok(id.to_owned())
    } else {
        Err(jj_error(cat3("paused cascade commit id `", id, "` is not valid hex")))
    }
}

/// The conflict that a tree is refused for is one that it holds, under the path that
/// it holds it at, and the first of them.
pub proof fn law_the_first_conflict_is_named(
    entries: Seq<(FilePath, MergedEntry)>,
    path: Components,
)
    requires
        first_conflict(entries, path),
        forall|i: int, j: int|
            0 <= i < j < entries.len() ==> (#[trigger] entries[i]).0@ != (#[trigger] entries[j]).0@,
    ensures
        exists|i: int|
            0 <= i < entries.len() && (#[trigger] entries[i]).0@ == path
                && entries[i].1 is Conflicted,
        forall|i: int|
            0 <= i < entries.len() && (#[trigger] entries[i]).1 is Conflicted ==> entries[i].0@
                == path || path_before(path, entries[i].0@),
        forall|i: int|
            0 <= i < entries.len() && (#[trigger] entries[i]).0@ == path ==> managed_spelling(
                entries,
                entries.len(),
                path,
            ) == Some(entries[i].0),
{
    if forall|j: int| 0 <= j < entries.len() ==> (#[trigger] entries[j]).0@ != path {
        law_nothing_else_is_managed(entries, path);
    }
    let i = choose|i: int| 0 <= i < entries.len() && (#[trigger] entries[i]).0@ == path;
    law_a_tree_is_managed_whole(entries, i);
    assert(entries[i].1 is Conflicted);
    assert forall|k: int|
        0 <= k < entries.len() && (#[trigger] entries[k]).1 is Conflicted implies entries[k].0@
        == path || path_before(path, entries[k].0@) by {
        law_a_tree_is_managed_whole(entries, k);
        assert(managed_at(entries, entries.len(), entries[k].0@) == Some(None::<TreeValue>));
    }
    lemma_managed_spelling(entries, entries.len(), i);
}

proof fn lemma_managed_spelling(entries: Seq<(FilePath, MergedEntry)>, count: nat, at: int)
    requires
        0 <= at < entries.len(),
        count <= entries.len(),
        entries[at].1 is Conflicted,
        forall|i: int, j: int|
            0 <= i < j < entries.len() ==> (#[trigger] entries[i]).0@ != (#[trigger] entries[j]).0@,
    ensures
        managed_spelling(entries, count, entries[at].0@) == if at < count {
            Some(entries[at].0)
        } else {
            None
        },
    decreases count,
{
    if count > 0 {
        lemma_managed_spelling(entries, (count - 1) as nat, at);
        if at != count - 1 {
            assert(entries[count - 1].0@ != entries[at].0@);
        }
    }
}

/// A commit id that was written down is one only where all of it is digits of base
/// sixteen, two to a byte.
pub proof fn law_an_id_is_whole_bytes(text: Text)
    ensures
        is_hex(text) ==> text.len() % 2 == 0,
        is_hex(text) <==> text.len() % 2 == 0 && (forall|i: int|
            0 <= i < text.len() ==> "0123456789abcdefABCDEF"@.contains(#[trigger] text[i])),
{
    reveal_strlit("0123456789abcdefABCDEF");
    let digits = "0123456789abcdefABCDEF"@;
    assert forall|c: char| #[trigger] digits.contains(c) <==> hex_digit(c) by {
        if hex_digit(c) {
            let k: int = if '0' <= c <= '9' {
                c as int - '0' as int
            } else if 'a' <= c <= 'f' {
                c as int - 'a' as int + 10
            } else {
                c as int - 'A' as int + 16
            };
            assert(digits[k] == c);
        }
        if digits.contains(c) {
            let k = choose|k: int| 0 <= k < digits.len() && digits[k] == c;
            assert(hex_digit(digits[k]));
        }
    }
    if is_hex(text) {
        assert forall|i: int| 0 <= i < text.len() implies digits.contains(#[trigger] text[i]) by {
            assert(hex_digit(text[i]));
        }
    }
}

} // verus!
