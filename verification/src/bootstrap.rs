//! How a machine joins a fleet, and how scopes come into being.
use vstd::prelude::*;
use vstd::string::*;
use crate::error::{is_not_in_repo, DotsyncError};
use crate::machine::MachineIdentity;
use crate::paths::FilePath;
use crate::order::ascending;
use crate::repo::{
    head_of, law_the_head_of_a_scope_is_the_one_listed, one_commit, scope_head, scope_head_commit,
    Head, Heads, PushReport,
};
use crate::scope_graph::{
    lemma_lookup, lookup, names_of, ScopeGraph, ScopeView, ROOT_SCOPE,
};
use crate::sync::SyncReport;
use crate::text::{clone_texts, texts, Text};

verus! {

/// What `init` did.
#[derive(Debug, Clone)]
pub struct InitReport {
    /// Holds the machine scope this init settled on, as `sync.current_scope`.
    pub sync: SyncReport,
    pub push: PushReport,
}

/// What `create-scope` did.
#[derive(Debug, Clone)]
pub struct CreatedScope {
    pub scope: String,
    pub parents: Vec<String>,
    pub push: PushReport,
}

/// Whether an error says that a named parent is not a scope of the repo.
pub open spec fn is_no_such_parent(
    error: DotsyncError,
    named: Text,
    graph: Seq<ScopeView>,
) -> bool {
    match error {
        DotsyncError::NoSuchParentScope { parent, scopes } => parent@ == named && texts(scopes@)
            == names_of(graph),
        _ => false,
    }
}

/// Whether an error says that a new scope needs a parent.
pub open spec fn is_parent_required(
    error: DotsyncError,
    named: Text,
    graph: Seq<ScopeView>,
) -> bool {
    match error {
        DotsyncError::ParentScopeRequired { scope, scopes } => scope@ == named && texts(scopes@)
            == names_of(graph),
        _ => false,
    }
}

/// Whether a scope can be a parent: it is in the graph, and its head is one
/// commit.
pub open spec fn can_be_parent(
    graph: Seq<ScopeView>,
    heads: Seq<(String, crate::repo::Head)>,
    parent: Text,
) -> bool {
    names_of(graph).contains(parent) && one_commit(head_of(heads, parent)) is Some
}

/// Where the first of some parents stands that cannot be one; their number if
/// all can.
pub open spec fn first_unfit(
    graph: Seq<ScopeView>,
    heads: Seq<(String, crate::repo::Head)>,
    parents: Seq<Text>,
) -> nat
    decreases parents.len(),
{
    if parents.len() == 0 || !can_be_parent(graph, heads, parents[0]) {
        0
    } else {
        1 + first_unfit(graph, heads, parents.skip(1))
    }
}

proof fn lemma_first_unfit(
    graph: Seq<ScopeView>,
    heads: Seq<(String, crate::repo::Head)>,
    parents: Seq<Text>,
    at: int,
)
    requires
        0 <= at <= parents.len(),
        forall|i: int| 0 <= i < at ==> can_be_parent(graph, heads, #[trigger] parents[i]),
        at < parents.len() ==> !can_be_parent(graph, heads, parents[at]),
    ensures
        first_unfit(graph, heads, parents) == at,
    decreases at,
{
    if at > 0 {
        assert(can_be_parent(graph, heads, parents[0]));
        assert forall|i: int| 0 <= i < at - 1 implies can_be_parent(
            graph,
            heads,
            #[trigger] parents.skip(1)[i],
        ) by {
            assert(parents.skip(1)[i] == parents[i + 1]);
        }
        lemma_first_unfit(graph, heads, parents.skip(1), at - 1);
    }
}

/// What the creation of a scope under some parents comes to.
pub open spec fn parents_result(
    graph: Seq<ScopeView>,
    heads: Seq<(String, crate::repo::Head)>,
    scope: Text,
    parents: Seq<Text>,
    result: Result<Vec<String>, DotsyncError>,
) -> bool {
    let at = first_unfit(graph, heads, parents);
    if parents.len() == 0 {
        result matches Err(error) && is_parent_required(error, scope, graph)
    } else if at < parents.len() {
        match result {
            Err(error) => if names_of(graph).contains(parents[at as int]) {
                is_not_in_repo(error, parents[at as int])
            } else {
                is_no_such_parent(error, parents[at as int], graph)
            },
            Ok(_) => false,
        }
    } else {
        match result {
            Ok(ids) => texts(ids@) == parents.map_values(
                |p: Text| one_commit(head_of(heads, p))->0,
            ),
            Err(_) => false,
        }
    }
}

/// The heads a new scope hangs off, refusing anything that is not a scope this
/// repo has.
pub fn parent_commits_for(
    graph: &ScopeGraph,
    heads: &Heads,
    scope: &str,
    parents: &Vec<String>,
) -> (found: Result<Vec<String>, DotsyncError>)
    ensures
        parents_result(graph@, heads@, scope@, texts(parents@), found),
{
    if parents.is_empty() {
        return Err(
            DotsyncError::ParentScopeRequired { scope: scope.to_owned(), scopes: graph.names() },
        );
    }
    let ghost named = texts(parents@);
    let mut ids: Vec<String> = Vec::new();
    let mut i: usize = 0;
    while i < parents.len()
        invariant
            i <= parents.len(),
            parents.len() > 0,
            named == texts(parents@),
            ids.len() == i,
            forall|j: int|
                0 <= j < i ==> can_be_parent(graph@, heads@, #[trigger] named[j]) && ids@[j]@
                    == one_commit(head_of(heads@, named[j]))->0,
        decreases parents.len() - i,
    {
        let parent = parents[i].as_str();
        proof {
            assert(named[i as int] == parent@);
        }
        if !graph.contains(parent) {
            proof {
                lemma_first_unfit(graph@, heads@, named, i as int);
            }
            return Err(
                DotsyncError::NoSuchParentScope {
                    parent: parent.to_owned(),
                    scopes: graph.names(),
                },
            );
        }
        match scope_head_commit(heads, parent) {
            Ok(id) => {
                ids.push(id);
            },
            Err(error) => {
                proof {
                    lemma_first_unfit(graph@, heads@, named, i as int);
                }
                return Err(error);
            },
        }
        i += 1;
    }
    proof {
        lemma_first_unfit(graph@, heads@, named, named.len() as int);
        let wanted = named.map_values(|p: Text| one_commit(head_of(heads@, p))->0);
        assert forall|j: int| 0 <= j < wanted.len() implies texts(ids@)[j] == wanted[j] by {
            assert(can_be_parent(graph@, heads@, named[j]));
        }
        assert(texts(ids@) =~= wanted);
    }
    Ok(ids)
}

/// What `init` has to write.
pub enum InitPlan {
    /// The remote has no scopes: the root, a scope for the OS, and this
    /// machine's own under that, each under the one before.
    StartFleet { chain: Vec<String> },
    /// This machine's scope exists: nothing.
    Adopt,
    /// This machine's scope, on these commits.
    Join { scope: String, parents: Vec<String> },
}

/// Whether a name belongs to something in the repo.
pub open spec fn is_taken(heads: Seq<(String, crate::repo::Head)>, scope: Text) -> bool {
    head_of(heads, scope).contested || head_of(heads, scope).sides.len() > 0
}

/// What `init` comes to.
pub open spec fn init_result(
    graph: Seq<ScopeView>,
    heads: Seq<(String, crate::repo::Head)>,
    identity: MachineIdentity,
    parents: Seq<Text>,
    result: Result<InitPlan, DotsyncError>,
) -> bool {
    let machine = identity.machine_scope@;
    if graph.len() == 0 {
        if parents.len() > 0 {
            result matches Err(error) && is_no_such_parent(error, parents[0], graph)
        } else {
            match result {
                Ok(InitPlan::StartFleet { chain }) => texts(chain@) == seq![
                    ROOT_SCOPE@,
                    identity.os_scope@,
                    machine,
                ],
                _ => false,
            }
        }
    } else {
        match lookup(graph, machine) {
            Some(existing) => if existing.children.len() > 0 {
                match result {
                    Err(DotsyncError::MachineScopeIsShared { scope, children }) => scope@
                        == machine && texts(children@) == existing.children,
                    _ => false,
                }
            } else if parents.len() > 0 {
                match result {
                    Err(DotsyncError::MachineScopeAlreadyPlaced { scope, parents }) => scope@
                        == machine && texts(parents@) == existing.parents,
                    _ => false,
                }
            } else {
                result matches Ok(plan) && plan is Adopt
            },
            None => if is_taken(heads, machine) {
                match result {
                    Err(DotsyncError::ScopeNameTaken { scope }) => scope@ == machine,
                    _ => false,
                }
            } else {
                match result {
                    Ok(InitPlan::Join { scope, parents: ids }) => scope@ == machine
                        && parents_result(
                        graph,
                        heads,
                        machine,
                        parents,
                        Ok::<Vec<String>, DotsyncError>(ids),
                    ),
                    Ok(_) => false,
                    Err(error) => parents_result(
                        graph,
                        heads,
                        machine,
                        parents,
                        Err::<Vec<String>, DotsyncError>(error),
                    ),
                }
            },
        }
    }
}

/// What `init` has to write, or why it refuses to.
pub fn init_plan(
    graph: &ScopeGraph,
    heads: &Heads,
    identity: &MachineIdentity,
    parents: &Vec<String>,
) -> (plan: Result<InitPlan, DotsyncError>)
    ensures
        init_result(graph@, heads@, *identity, texts(parents@), plan),
{
    let machine = identity.machine_scope.as_str();
    let scopes = graph.scopes();
    proof {
        assert(crate::scope_graph::scope_views(scopes@).len() == scopes.len());
    }
    if scopes.is_empty() {
        if parents.len() > 0 {
            let none: Vec<String> = Vec::new();
            proof {
                assert(texts(none@) =~= names_of(graph@));
                assert(texts(parents@)[0] == parents@[0]@);
            }
            return Err(DotsyncError::NoSuchParentScope { parent: parents[0].clone(), scopes: none });
        }
        let chain = crate::text::list3(
            ROOT_SCOPE.to_owned(),
            identity.os_scope.clone(),
            identity.machine_scope.clone(),
        );
        return Ok(InitPlan::StartFleet { chain });
    }
    match graph.get(machine) {
        Some(existing) => {
            if !existing.is_leaf() {
                return Err(
                    DotsyncError::MachineScopeIsShared {
                        scope: existing.name.clone(),
                        children: clone_texts(&existing.children),
                    },
                );
            }
            if !parents.is_empty() {
                return Err(
                    DotsyncError::MachineScopeAlreadyPlaced {
                        scope: existing.name.clone(),
                        parents: clone_texts(&existing.parents),
                    },
                );
            }
            Ok(InitPlan::Adopt)
        },
        None => {
            if !scope_head(heads, machine).is_absent() {
                return Err(DotsyncError::ScopeNameTaken { scope: machine.to_owned() });
            }
            match parent_commits_for(graph, heads, machine, parents) {
                Ok(ids) => Ok(InitPlan::Join { scope: machine.to_owned(), parents: ids }),
                Err(error) => Err(error),
            }
        },
    }
}

/// A machine never adopts a scope that others hang off, so what it commits to
/// its own scope reaches no other machine.
pub proof fn law_an_adopted_scope_is_a_leaf(
    graph: Seq<ScopeView>,
    heads: Seq<(String, crate::repo::Head)>,
    identity: MachineIdentity,
    parents: Seq<Text>,
    plan: InitPlan,
)
    requires
        init_result(graph, heads, identity, parents, Ok::<InitPlan, DotsyncError>(plan)),
        plan is Adopt,
    ensures
        lookup(graph, identity.machine_scope@) matches Some(scope) && scope.children.len() == 0,
{
}

/// What `create-scope` comes to.
pub open spec fn creation_result(
    graph: Seq<ScopeView>,
    heads: Seq<(String, crate::repo::Head)>,
    scope: Text,
    parents: Seq<Text>,
    result: Result<Vec<String>, DotsyncError>,
) -> bool {
    if names_of(graph).contains(scope) || is_taken(heads, scope) {
        match result {
            Err(DotsyncError::ScopeNameTaken { scope: taken }) => taken@ == scope,
            _ => false,
        }
    } else {
        parents_result(graph, heads, scope, parents, result)
    }
}

/// Whether a graph has a scope with a name.
pub open spec fn has_scope(graph: Seq<ScopeView>, name: Text) -> bool {
    exists|j: int| 0 <= j < graph.len() && (#[trigger] graph[j]).name == name
}

/// Whether what is first listed for a scope is a head at the one commit `id`.
pub open spec fn stands_at(heads: Seq<(String, Head)>, scope: Text, id: Text) -> bool {
    exists|k: int|
        0 <= k < heads.len() && (#[trigger] heads[k]).0@ == scope && !heads[k].1.contested
            && heads[k].1.sides@.len() == 1 && heads[k].1.sides@[0]@ == id && forall|m: int|
            0 <= m < k ==> (#[trigger] heads[m]).0@ != scope
}

/// Whether nothing in a repo has a name.
pub open spec fn is_free(graph: Seq<ScopeView>, heads: Seq<(String, Head)>, name: Text) -> bool {
    !has_scope(graph, name) && forall|k: int|
        0 <= k < heads.len() ==> (#[trigger] heads[k]).0@ != name
}

pub proof fn lemma_has_scope(graph: Seq<ScopeView>, name: Text)
    ensures
        has_scope(graph, name) <==> names_of(graph).contains(name),
{
    if has_scope(graph, name) {
        let j = choose|j: int| 0 <= j < graph.len() && (#[trigger] graph[j]).name == name;
        assert(names_of(graph)[j] == name);
    }
    if names_of(graph).contains(name) {
        let j = choose|j: int| 0 <= j < graph.len() && names_of(graph)[j] == name;
        assert(graph[j].name == name);
    }
}

pub proof fn lemma_stands_at(heads: Seq<(String, Head)>, scope: Text)
    ensures
        match one_commit(head_of(heads, scope)) {
            Some(id) => stands_at(heads, scope, id),
            None => forall|id: Text| !#[trigger] stands_at(heads, scope, id),
        },
        forall|id: Text| #[trigger]
            stands_at(heads, scope, id) ==> one_commit(head_of(heads, scope)) == Some(id),
        (forall|k: int| 0 <= k < heads.len() ==> (#[trigger] heads[k]).0@ != scope) ==> !is_taken(
            heads,
            scope,
        ),
{
    let at = lemma_first_listed(heads, scope);
    law_the_head_of_a_scope_is_the_one_listed(heads, scope, at);
    if one_commit(head_of(heads, scope)) is Some {
        assert(heads[at].0@ == scope);
    }
    assert forall|id: Text| #[trigger] stands_at(heads, scope, id) implies one_commit(
        head_of(heads, scope),
    ) == Some(id) by {
        let k = choose|k: int|
            0 <= k < heads.len() && (#[trigger] heads[k]).0@ == scope && !heads[k].1.contested
                && heads[k].1.sides@.len() == 1 && heads[k].1.sides@[0]@ == id && forall|m: int|
                0 <= m < k ==> (#[trigger] heads[m]).0@ != scope;
        law_the_head_of_a_scope_is_the_one_listed(heads, scope, k);
    }
}

pub proof fn lemma_first_listed(heads: Seq<(String, Head)>, scope: Text) -> (at: int)
    ensures
        0 <= at <= heads.len(),
        forall|j: int| 0 <= j < at ==> (#[trigger] heads[j]).0@ != scope,
        at < heads.len() ==> heads[at].0@ == scope,
    decreases heads.len(),
{
    if heads.len() == 0 || heads[0].0@ == scope {
        0
    } else {
        let rest = heads.skip(1);
        let at = lemma_first_listed(rest, scope) + 1;
        assert forall|j: int| 0 <= j < at implies (#[trigger] heads[j]).0@ != scope by {
            if j > 0 {
                assert(rest[j - 1] == heads[j]);
            }
        }
        if at < heads.len() {
            assert(rest[at - 1] == heads[at]);
        }
        at
    }
}

proof fn lemma_parents(
    graph: Seq<ScopeView>,
    heads: Seq<(String, Head)>,
    scope: Text,
    named: Seq<Text>,
    result: Result<Vec<String>, DotsyncError>,
)
    requires
        parents_result(graph, heads, scope, named, result),
    ensures
        result is Ok <==> named.len() > 0 && forall|i: int|
            0 <= i < named.len() ==> has_scope(graph, #[trigger] named[i]) && exists|id: Text|
                stands_at(heads, named[i], id),
        result matches Ok(ids) ==> ids@.len() == named.len() && forall|i: int|
            0 <= i < named.len() ==> stands_at(heads, #[trigger] named[i], ids@[i]@),
{
    lemma_fit(graph, heads, named);
    assert forall|i: int| 0 <= i < named.len() implies (can_be_parent(
        graph,
        heads,
        #[trigger] named[i],
    ) <==> has_scope(graph, named[i]) && exists|id: Text| stands_at(heads, named[i], id)) by {
        lemma_has_scope(graph, named[i]);
        lemma_stands_at(heads, named[i]);
    }
    if let Ok(ids) = result {
        assert(texts(ids@).len() == ids@.len());
        assert forall|i: int| 0 <= i < named.len() implies stands_at(
            heads,
            #[trigger] named[i],
            ids@[i]@,
        ) by {
            assert(can_be_parent(graph, heads, named[i]));
            lemma_stands_at(heads, named[i]);
            assert(texts(ids@)[i] == ids@[i]@);
        }
    }
}

proof fn lemma_fit(graph: Seq<ScopeView>, heads: Seq<(String, Head)>, named: Seq<Text>)
    ensures
        first_unfit(graph, heads, named) <= named.len(),
        first_unfit(graph, heads, named) == named.len() <==> forall|i: int|
            0 <= i < named.len() ==> can_be_parent(graph, heads, #[trigger] named[i]),
    decreases named.len(),
{
    if named.len() > 0 {
        let rest = named.skip(1);
        lemma_fit(graph, heads, rest);
        if can_be_parent(graph, heads, named[0]) {
            if forall|i: int|
                0 <= i < named.len() ==> can_be_parent(graph, heads, #[trigger] named[i]) {
                assert forall|i: int| 0 <= i < rest.len() implies can_be_parent(
                    graph,
                    heads,
                    #[trigger] rest[i],
                ) by {
                    assert(rest[i] == named[i + 1]);
                }
            }
            if forall|i: int|
                0 <= i < rest.len() ==> can_be_parent(graph, heads, #[trigger] rest[i]) {
                assert forall|i: int| 0 <= i < named.len() implies can_be_parent(
                    graph,
                    heads,
                    #[trigger] named[i],
                ) by {
                    if i > 0 {
                        assert(rest[i - 1] == named[i]);
                    }
                }
            }
        } else {
            assert(!can_be_parent(graph, heads, named[0]));
        }
    }
}

/// A machine that joins does so under exactly the parents it named: its scope is
/// created on the heads of all of them, one for each and in their order.
pub proof fn law_a_machine_joins_under_every_parent_it_named(
    graph: Seq<ScopeView>,
    heads: Seq<(String, Head)>,
    identity: MachineIdentity,
    named: Seq<Text>,
    scope: String,
    parents: Vec<String>,
)
    requires
        init_result(
            graph,
            heads,
            identity,
            named,
            Ok::<InitPlan, DotsyncError>(InitPlan::Join { scope, parents }),
        ),
        ascending(names_of(graph)),
    ensures
        scope@ == identity.machine_scope@,
        named.len() > 0,
        parents@.len() == named.len(),
        forall|i: int|
            0 <= i < named.len() ==> has_scope(graph, #[trigger] named[i]) && stands_at(
                heads,
                named[i],
                parents@[i]@,
            ),
        !has_scope(graph, identity.machine_scope@),
{
    let machine = identity.machine_scope@;
    lemma_parents(graph, heads, machine, named, Ok::<Vec<String>, DotsyncError>(parents));
    lemma_lookup(graph, machine);
    lemma_has_scope(graph, machine);
}

/// A machine whose name is free joins wherever it names parents that the fleet
/// has, and is refused where it names none or one that the fleet has not.
pub proof fn law_a_new_machine_joins_where_its_parents_are(
    graph: Seq<ScopeView>,
    heads: Seq<(String, Head)>,
    identity: MachineIdentity,
    named: Seq<Text>,
    result: Result<InitPlan, DotsyncError>,
)
    requires
        init_result(graph, heads, identity, named, result),
        ascending(names_of(graph)),
        graph.len() > 0,
        is_free(graph, heads, identity.machine_scope@),
    ensures
        result is Ok <==> named.len() > 0 && forall|i: int|
            0 <= i < named.len() ==> has_scope(graph, #[trigger] named[i]) && exists|id: Text|
                stands_at(heads, named[i], id),
        result matches Ok(plan) ==> plan is Join,
{
    let machine = identity.machine_scope@;
    lemma_lookup(graph, machine);
    lemma_has_scope(graph, machine);
    lemma_stands_at(heads, machine);
    match result {
        Ok(InitPlan::Join { scope, parents }) => {
            lemma_parents(graph, heads, machine, named, Ok::<Vec<String>, DotsyncError>(parents));
        },
        Ok(_) => {},
        Err(error) => {
            lemma_parents(graph, heads, machine, named, Err::<Vec<String>, DotsyncError>(error));
        },
    }
}

/// The first machine starts the fleet: the root, the scope of its OS and its own,
/// one under the other. No other machine does, and it takes no parents.
pub proof fn law_a_fleet_starts_once(
    graph: Seq<ScopeView>,
    heads: Seq<(String, Head)>,
    identity: MachineIdentity,
    named: Seq<Text>,
    result: Result<InitPlan, DotsyncError>,
)
    requires
        init_result(graph, heads, identity, named, result),
    ensures
        (result matches Ok(plan) && plan is StartFleet) <==> graph.len() == 0 && named.len() == 0,
        result matches Ok(InitPlan::StartFleet { chain }) ==> chain@.len() == 3 && chain@[0]@
            == "all"@ && chain@[1]@ == identity.os_scope@ && chain@[2]@ == identity.machine_scope@,
        graph.len() == 0 && named.len() > 0 ==> result is Err,
{
    if let Ok(InitPlan::StartFleet { chain }) = result {
        assert(texts(chain@).len() == chain@.len());
        assert(texts(chain@)[0] == chain@[0]@);
        assert(texts(chain@)[1] == chain@[1]@);
        assert(texts(chain@)[2] == chain@[2]@);
    }
}

/// A machine whose scope the fleet has takes it up again exactly where it names
/// no parents and nothing hangs off the scope, and is refused otherwise: the
/// scope is where it is.
pub proof fn law_a_machine_takes_up_its_own_leaf(
    graph: Seq<ScopeView>,
    heads: Seq<(String, Head)>,
    identity: MachineIdentity,
    named: Seq<Text>,
    result: Result<InitPlan, DotsyncError>,
    j: int,
)
    requires
        init_result(graph, heads, identity, named, result),
        ascending(names_of(graph)),
        0 <= j < graph.len(),
        graph[j].name == identity.machine_scope@,
    ensures
        result is Ok <==> graph[j].children.len() == 0 && named.len() == 0,
        result matches Ok(plan) ==> plan is Adopt,
        graph[j].children.len() > 0 ==> (result matches Err(
            DotsyncError::MachineScopeIsShared { scope, children },
        ) && scope@ == graph[j].name && texts(children@) == graph[j].children),
        graph[j].children.len() == 0 && named.len() > 0 ==> (result matches Err(
            DotsyncError::MachineScopeAlreadyPlaced { scope, parents },
        ) && scope@ == graph[j].name && texts(parents@) == graph[j].parents),
{
    lemma_lookup(graph, identity.machine_scope@);
}

/// A scope is created on the heads of all the parents it was given, one for each
/// and in their order, wherever its name is free and each of them is a scope that
/// stands at one commit; and nowhere else.
pub proof fn law_a_scope_is_created_on_every_parent(
    graph: Seq<ScopeView>,
    heads: Seq<(String, Head)>,
    scope: Text,
    named: Seq<Text>,
    result: Result<Vec<String>, DotsyncError>,
)
    requires
        creation_result(graph, heads, scope, named, result),
    ensures
        result matches Ok(ids) ==> {
            &&& !has_scope(graph, scope)
            &&& named.len() > 0
            &&& ids@.len() == named.len()
            &&& forall|i: int|
                0 <= i < named.len() ==> has_scope(graph, #[trigger] named[i]) && stands_at(
                    heads,
                    named[i],
                    ids@[i]@,
                )
        },
        is_free(graph, heads, scope) && named.len() > 0 && (forall|i: int|
            0 <= i < named.len() ==> has_scope(graph, #[trigger] named[i]) && exists|id: Text|
                stands_at(heads, named[i], id)) ==> result is Ok,
        has_scope(graph, scope) ==> (result matches Err(DotsyncError::ScopeNameTaken { scope: taken })
            && taken@ == scope),
{
    lemma_has_scope(graph, scope);
    lemma_stands_at(heads, scope);
    if !(names_of(graph).contains(scope) || is_taken(heads, scope)) {
        lemma_parents(graph, heads, scope, named, result);
    }
}

/// The commits a scope is created on, or why it is not created.
pub fn create_scope_plan(
    graph: &ScopeGraph,
    heads: &Heads,
    scope: &str,
    parents: &Vec<String>,
) -> (plan: Result<Vec<String>, DotsyncError>)
    ensures
        creation_result(graph@, heads@, scope@, texts(parents@), plan),
{
    if graph.contains(scope) || !scope_head(heads, scope).is_absent() {
        return Err(DotsyncError::ScopeNameTaken { scope: scope.to_owned() });
    }
    parent_commits_for(graph, heads, scope, parents)
}

/// The stop for a new scope whose parents hold different versions of files.
pub fn creation_conflict(scope: &str, files: Vec<String>) -> (refused: Option<DotsyncError>)
    ensures
        match refused {
            Some(DotsyncError::ScopeCreationConflict { scope: new, files: of }) => new@ == scope@
                && of == files && files@.len() > 0,
            Some(_) => false,
            None => files@.len() == 0,
        },
{
    if files.is_empty() {
        None
    } else {
        Some(DotsyncError::ScopeCreationConflict { scope: scope.to_owned(), files })
    }
}

/// What became of the directory of an `init` that stopped.
pub enum Cleanup {
    Removed,
    /// Nothing was created yet.
    NotThere,
    /// It is still there, and this is what the system said.
    Failed(String),
}

/// The stop of an `init`, with what it could not take with it.
pub fn init_failure(error: DotsyncError, repo_root: &FilePath, cleanup: Cleanup) -> (stop:
    DotsyncError)
    ensures
        match cleanup {
            Cleanup::Failed(said) => match stop {
                DotsyncError::PartialInitLeftBehind { path, source, original } => path
                    == *repo_root && source == said && *original == error,
                _ => false,
            },
            _ => stop == error,
        },
{
    match cleanup {
        Cleanup::Removed => error,
        Cleanup::NotThere => error,
        Cleanup::Failed(said) => DotsyncError::PartialInitLeftBehind {
            path: repo_root.copy(),
            source: said,
            original: Box::new(error),
        },
    }
}

} // verus!
