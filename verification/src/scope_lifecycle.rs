//! Adding a scope to a graph that a config file writes down: under some scopes,
//! and between them and others.
use vstd::prelude::*;
use vstd::string::*;
use crate::commit::CommitReport;
use crate::config::DotsyncConfig;
use crate::error::{is_internal, is_invalid_scope, jj_error, DotsyncError};
use crate::paths::{all_paths, components, FilePath};
use crate::selection::{CommitOptions, ALL_SCOPE, DOTSYNC_CONFIG_RELATIVE_PATH};
use crate::text::{
    cat3, clone_texts, contains_text, lemma_texts_push, same_text, texts, Text,
};

verus! {

/// A scope to add.
#[derive(Debug, Clone)]
pub struct AddScopeOptions {
    pub scope: String,
    pub parents: Vec<String>,
    /// The scopes that hang off it from then on.
    pub children: Vec<String>,
    pub force: bool,
}

/// What adding a scope did.
#[derive(Debug, Clone)]
pub struct AddScopeReport {
    pub scope: String,
    pub commit: CommitReport,
}

/// The parents of each scope, as contracts see them.
pub type ParentTable = Seq<(Text, Seq<Text>)>;

/// The parents of each scope, as contracts see them.
pub open spec fn table_view(table: Seq<(String, Vec<String>)>) -> ParentTable {
    table.map_values(|e: (String, Vec<String>)| (e.0@, texts(e.1@)))
}

/// Where a scope stands in a table; its length if nowhere.
pub open spec fn row_of(table: ParentTable, scope: Text) -> nat
    decreases table.len(),
{
    if table.len() == 0 || table[0].0 == scope {
        0
    } else {
        1 + row_of(table.skip(1), scope)
    }
}

/// Whether a table has a scope.
pub open spec fn has_row(table: ParentTable, scope: Text) -> bool {
    row_of(table, scope) < table.len()
}

/// Some parents with a scope in place of each that it hangs off itself.
pub open spec fn standing_in(parents: Seq<Text>, above: Seq<Text>, scope: Text) -> Seq<Text> {
    parents.map_values(
        |p: Text|
            if above.contains(p) {
                scope
            } else {
                p
            },
    )
}

/// The parents of a child once a scope is put above it: in place of each parent
/// that the scope hangs off itself, and beside the others where there is none.
pub open spec fn adopted(parents: Seq<Text>, above: Seq<Text>, scope: Text) -> Seq<Text> {
    let replaced = standing_in(parents, above, scope);
    let between = exists|i: int| 0 <= i < parents.len() && above.contains(#[trigger] parents[i]);
    if !between && !replaced.contains(scope) {
        replaced.push(scope)
    } else {
        replaced
    }
}

/// The table once a scope is put above the first `count` of some children.
pub open spec fn with_children(
    table: ParentTable,
    above: Seq<Text>,
    scope: Text,
    children: Seq<Text>,
    count: nat,
) -> ParentTable
    decreases count,
{
    if count == 0 {
        table
    } else {
        let before = with_children(table, above, scope, children, (count - 1) as nat);
        let row = row_of(before, children[count - 1]) as int;
        before.update(row, (before[row].0, adopted(before[row].1, above, scope)))
    }
}

/// Where the first of some scopes stands that a table does not have; their
/// number if it has all.
pub open spec fn first_missing(table: ParentTable, scopes: Seq<Text>) -> nat
    decreases scopes.len(),
{
    if scopes.len() == 0 || !has_row(table, scopes[0]) {
        0
    } else {
        1 + first_missing(table, scopes.skip(1))
    }
}

proof fn lemma_row_of(table: ParentTable, scope: Text)
    ensures
        row_of(table, scope) <= table.len(),
        forall|i: int| 0 <= i < row_of(table, scope) ==> (#[trigger] table[i]).0 != scope,
        row_of(table, scope) < table.len() ==> table[row_of(table, scope) as int].0 == scope,
    decreases table.len(),
{
    if table.len() > 0 && table[0].0 != scope {
        lemma_row_of(table.skip(1), scope);
        assert forall|i: int| 0 <= i < row_of(table, scope) implies (#[trigger] table[i]).0
            != scope by {
            if i > 0 {
                assert(table.skip(1)[i - 1] == table[i]);
            }
        }
    }
}

proof fn lemma_same_rows(one: ParentTable, other: ParentTable, scope: Text)
    requires
        one.len() == other.len(),
        forall|i: int| 0 <= i < one.len() ==> (#[trigger] one[i]).0 == other[i].0,
    ensures
        row_of(one, scope) == row_of(other, scope),
    decreases one.len(),
{
    if one.len() > 0 {
        assert(one[0].0 == other[0].0);
        if one[0].0 != scope {
            assert forall|i: int| 0 <= i < one.skip(1).len() implies (#[trigger] one.skip(1)[i]).0
                == other.skip(1)[i].0 by {
                assert(one.skip(1)[i] == one[i + 1]);
            }
            lemma_same_rows(one.skip(1), other.skip(1), scope);
        }
    }
}

proof fn lemma_first_missing(table: ParentTable, scopes: Seq<Text>, at: int)
    requires
        0 <= at <= scopes.len(),
        forall|i: int| 0 <= i < at ==> has_row(table, #[trigger] scopes[i]),
        at < scopes.len() ==> !has_row(table, scopes[at]),
    ensures
        first_missing(table, scopes) == at,
    decreases at,
{
    if at > 0 {
        assert(has_row(table, scopes[0]));
        assert forall|i: int| 0 <= i < at - 1 implies has_row(table, #[trigger] scopes.skip(1)[i]) by {
            assert(scopes.skip(1)[i] == scopes[i + 1]);
        }
        lemma_first_missing(table, scopes.skip(1), at - 1);
    }
}

fn find_row(table: &Vec<(String, Vec<String>)>, scope: &str) -> (row: usize)
    ensures
        row == row_of(table_view(table@), scope@),
        row <= table@.len(),
{
    let ghost all = table_view(table@);
    let mut i: usize = 0;
    proof {
        assert(all.skip(0) =~= all);
        lemma_row_of(all, scope@);
    }
    while i < table.len() && !same_text(table[i].0.as_str(), scope)
        invariant
            i <= table.len(),
            all == table_view(table@),
            row_of(all, scope@) == i + row_of(all.skip(i as int), scope@),
        decreases table.len() - i,
    {
        proof {
            assert(all.skip(i as int)[0] == all[i as int]);
            assert(all.skip(i as int).skip(1) =~= all.skip(i + 1));
        }
        i += 1;
    }
    proof {
        if i < table.len() {
            assert(all.skip(i as int)[0] == all[i as int]);
        }
    }
    i
}

fn adopt(parents: &Vec<String>, above: &Vec<String>, scope: &str) -> (after: Vec<String>)
    ensures
        texts(after@) == adopted(texts(parents@), texts(above@), scope@),
{
    let ghost all = texts(parents@);
    let ghost over = texts(above@);
    let mut after: Vec<String> = Vec::new();
    let mut between = false;
    let mut i: usize = 0;
    while i < parents.len()
        invariant
            i <= parents.len(),
            all == texts(parents@),
            over == texts(above@),
            after.len() == i,
            forall|j: int|
                0 <= j < i ==> (#[trigger] after@[j])@ == if over.contains(all[j]) {
                    scope@
                } else {
                    all[j]
                },
            between == exists|j: int| 0 <= j < i && over.contains(#[trigger] all[j]),
        decreases parents.len() - i,
    {
        proof {
            assert(all[i as int] == parents@[i as int]@);
        }
        if contains_text(above, parents[i].as_str()) {
            after.push(scope.to_owned());
            between = true;
        } else {
            after.push(parents[i].clone());
        }
        i += 1;
    }
    proof {
        assert(texts(after@) =~= all.map_values(
            |p: Text|
                if over.contains(p) {
                    scope@
                } else {
                    p
                },
        ));
    }
    if !between && !contains_text(&after, scope) {
        let ghost before = after@;
        after.push(scope.to_owned());
        proof {
            lemma_texts_push(before, after@.last());
        }
    }
    after
}

/// What adding a scope to a config comes to.
pub open spec fn adds_scope(
    config: DotsyncConfig,
    options: AddScopeOptions,
    added: Result<DotsyncConfig, DotsyncError>,
) -> bool {
    let table = table_view(config.scopes@);
    let above = texts(options.parents@);
    let children = texts(options.children@);
    let new = table.push((options.scope@, above));
    if has_row(table, options.scope@) {
        added matches Err(error) && is_internal(
            error,
            "scope `"@ + options.scope@ + "` already exists"@,
        )
    } else if first_missing(table, above) < above.len() {
        added matches Err(error) && is_invalid_scope(
            error,
            above[first_missing(table, above) as int],
        )
    } else if first_missing(new, children) < children.len() {
        added matches Err(error) && is_invalid_scope(
            error,
            children[first_missing(new, children) as int],
        )
    } else {
        added matches Ok(added) && table_view(added.scopes@) == with_children(
            new,
            above,
            options.scope@,
            children,
            children.len(),
        ) && added.sync_state_relative_path == config.sync_state_relative_path
    }
}

/// The config with a scope added: under its parents, and above its children, in
/// place of the parents it shares with each of them.
pub fn add_scope_to_config(config: DotsyncConfig, options: &AddScopeOptions) -> (added: Result<
    DotsyncConfig,
    DotsyncError,
>)
    ensures
        adds_scope(config, *options, added),
{
    let scope = options.scope.as_str();
    let mut scopes = config.scopes;
    let ghost table = table_view(scopes@);
    let ghost above = texts(options.parents@);
    let ghost children = texts(options.children@);
    if find_row(&scopes, scope) < scopes.len() {
        return Err(jj_error(cat3("scope `", scope, "` already exists")));
    }
    let mut i: usize = 0;
    while i < options.parents.len()
        invariant
            i <= options.parents.len(),
            table == table_view(scopes@),
            table == table_view(config.scopes@),
            !has_row(table, options.scope@),
            above == texts(options.parents@),
            forall|j: int| 0 <= j < i ==> has_row(table, #[trigger] above[j]),
        decreases options.parents.len() - i,
    {
        let parent = options.parents[i].as_str();
        proof {
            assert(above[i as int] == parent@);
        }
        if find_row(&scopes, parent) >= scopes.len() {
            proof {
                lemma_first_missing(table, above, i as int);
            }
            return Err(DotsyncError::InvalidScope { scope: parent.to_owned() });
        }
        i += 1;
    }
    proof {
        lemma_first_missing(table, above, above.len() as int);
    }
    scopes.push((options.scope.clone(), clone_texts(&options.parents)));
    let ghost new = table.push((options.scope@, above));
    proof {
        assert(table_view(scopes@) =~= new);
    }
    let mut k: usize = 0;
    while k < options.children.len()
        invariant
            k <= options.children.len(),
            scope@ == options.scope@,
            table == table_view(config.scopes@),
            !has_row(table, options.scope@),
            first_missing(table, above) == above.len(),
            new == table.push((options.scope@, above)),
            above == texts(options.parents@),
            children == texts(options.children@),
            table_view(scopes@) == with_children(new, above, scope@, children, k as nat),
            scopes@.len() == new.len(),
            forall|m: int| 0 <= m < new.len() ==> (#[trigger] table_view(scopes@)[m]).0 == new[m].0,
            forall|j: int| 0 <= j < k ==> has_row(new, #[trigger] children[j]),
        decreases options.children.len() - k,
    {
        let child = options.children[k].as_str();
        let ghost before = table_view(scopes@);
        proof {
            assert(children[k as int] == child@);
            lemma_same_rows(before, new, child@);
        }
        let row: usize = find_row(&scopes, child);
        if row >= scopes.len() {
            proof {
                lemma_first_missing(new, children, k as int);
            }
            return Err(DotsyncError::InvalidScope { scope: child.to_owned() });
        }
        let name = scopes[row].0.clone();
        let parents = adopt(&scopes[row].1, &options.parents, scope);
        scopes.set(row, (name, parents));
        proof {
            assert(before[row as int] == (name@, before[row as int].1));
            assert(table_view(scopes@) =~= before.update(
                row as int,
                (before[row as int].0, adopted(before[row as int].1, above, scope@)),
            ));
        }
        k += 1;
    }
    proof {
        lemma_first_missing(new, children, children.len() as int);
    }
    Ok(DotsyncConfig { scopes, sync_state_relative_path: config.sync_state_relative_path })
}

proof fn lemma_first_missing_is(table: ParentTable, scopes: Seq<Text>)
    ensures
        first_missing(table, scopes) <= scopes.len(),
        forall|i: int|
            0 <= i < first_missing(table, scopes) ==> has_row(table, #[trigger] scopes[i]),
        first_missing(table, scopes) < scopes.len() ==> !has_row(
            table,
            scopes[first_missing(table, scopes) as int],
        ),
    decreases scopes.len(),
{
    if scopes.len() > 0 && has_row(table, scopes[0]) {
        lemma_first_missing_is(table, scopes.skip(1));
        assert forall|i: int| 0 <= i < first_missing(table, scopes) implies has_row(
            table,
            #[trigger] scopes[i],
        ) by {
            if i > 0 {
                assert(scopes.skip(1)[i - 1] == scopes[i]);
            }
        }
    }
}

/// Whether a config names a scope.
pub open spec fn is_named(config: DotsyncConfig, scope: Text) -> bool {
    exists|i: int| 0 <= i < config.scopes@.len() && (#[trigger] config.scopes@[i]).0@ == scope
}

proof fn lemma_is_named(config: DotsyncConfig, scope: Text)
    ensures
        is_named(config, scope) <==> has_row(table_view(config.scopes@), scope),
{
    let table = table_view(config.scopes@);
    lemma_row_of(table, scope);
    if has_row(table, scope) {
        assert(config.scopes@[row_of(table, scope) as int].0@ == scope);
    }
    if is_named(config, scope) {
        let i = choose|i: int|
            0 <= i < config.scopes@.len() && (#[trigger] config.scopes@[i]).0@ == scope;
        assert(table[i].0 == scope);
    }
}

/// A scope is refused exactly where the config has one of its name, or has not all
/// of the parents it is to hang under, or not all of the children it is to hang
/// over.
pub proof fn law_a_scope_is_added_where_all_is_known(
    config: DotsyncConfig,
    options: AddScopeOptions,
    added: Result<DotsyncConfig, DotsyncError>,
)
    requires
        adds_scope(config, options, added),
    ensures
        added is Ok <==> !is_named(config, options.scope@) && (forall|i: int|
            0 <= i < options.parents@.len() ==> is_named(
                config,
                (#[trigger] options.parents@[i])@,
            )) && (forall|i: int|
            0 <= i < options.children@.len() ==> is_named(
                config,
                (#[trigger] options.children@[i])@,
            ) || options.children@[i]@ == options.scope@),
{
    let table = table_view(config.scopes@);
    let above = texts(options.parents@);
    let children = texts(options.children@);
    let new = table.push((options.scope@, above));
    lemma_first_missing_is(table, above);
    lemma_first_missing_is(new, children);
    lemma_is_named(config, options.scope@);
    assert forall|name: Text| #[trigger] has_row(new, name) <==> has_row(table, name) || name
        == options.scope@ by {
        lemma_row_of(table, name);
        lemma_row_of(new, name);
        if has_row(table, name) {
            assert(new[row_of(table, name) as int].0 == name);
        }
        if name == options.scope@ {
            assert(new[table.len() as int].0 == name);
        }
        if has_row(new, name) && name != options.scope@ {
            assert(table[row_of(new, name) as int].0 == name);
        }
    }
    assert forall|i: int| 0 <= i < options.parents@.len() implies (is_named(
        config,
        (#[trigger] options.parents@[i])@,
    ) <==> has_row(table, above[i])) by {
        lemma_is_named(config, above[i]);
    }
    assert forall|i: int| 0 <= i < options.children@.len() implies ((is_named(
        config,
        (#[trigger] options.children@[i])@,
    ) || options.children@[i]@ == options.scope@) <==> has_row(new, children[i])) by {
        lemma_is_named(config, children[i]);
    }
    if first_missing(table, above) < above.len() {
        let i = first_missing(table, above) as int;
        assert(!is_named(config, options.parents@[i]@));
    }
    if first_missing(new, children) < children.len() {
        let i = first_missing(new, children) as int;
        assert(!has_row(new, children[i]));
        assert(!(is_named(config, options.children@[i]@) || options.children@[i]@
            == options.scope@));
    }
    if added is Ok {
        assert forall|i: int| 0 <= i < options.parents@.len() implies is_named(
            config,
            (#[trigger] options.parents@[i])@,
        ) by {
            assert(has_row(table, above[i]));
        }
        assert forall|i: int| 0 <= i < options.children@.len() implies is_named(
            config,
            (#[trigger] options.children@[i])@,
        ) || options.children@[i]@ == options.scope@ by {
            assert(has_row(new, children[i]));
        }
    }
}

proof fn lemma_adopted(parents: Seq<Text>, above: Seq<Text>, scope: Text)
    requires
        !above.contains(scope),
    ensures
        adopted(parents, above, scope).contains(scope),
        forall|p: Text|
            p != scope ==> (#[trigger] adopted(parents, above, scope).contains(p)
                <==> parents.contains(p) && !above.contains(p)),
        adopted(adopted(parents, above, scope), above, scope) == adopted(parents, above, scope),
{
    let replaced = standing_in(parents, above, scope);
    let after = adopted(parents, above, scope);
    let between = exists|i: int| 0 <= i < parents.len() && above.contains(#[trigger] parents[i]);
    if between {
        let i = choose|i: int| 0 <= i < parents.len() && above.contains(#[trigger] parents[i]);
        assert(replaced[i] == scope);
        assert(after == replaced);
    } else if !replaced.contains(scope) {
        assert(after[replaced.len() as int] == scope);
    }
    assert forall|p: Text| p != scope implies (#[trigger] after.contains(p) <==> parents.contains(p)
        && !above.contains(p)) by {
        if after.contains(p) {
            let k = choose|k: int| 0 <= k < after.len() && after[k] == p;
            assert(k < replaced.len());
            assert(replaced[k] == p);
            assert(parents[k] == p);
        }
        if parents.contains(p) && !above.contains(p) {
            let k = choose|k: int| 0 <= k < parents.len() && parents[k] == p;
            assert(replaced[k] == p);
            assert(after[k] == p);
        }
    }
    assert forall|k: int| 0 <= k < after.len() implies !above.contains(#[trigger] after[k]) by {
        if k < replaced.len() {
            assert(after[k] == replaced[k]);
        }
    }
    let again = standing_in(after, above, scope);
    assert(again =~= after);
}

proof fn lemma_with_children(
    table: ParentTable,
    above: Seq<Text>,
    scope: Text,
    children: Seq<Text>,
    count: nat,
)
    requires
        count <= children.len(),
        !above.contains(scope),
        forall|k: int| 0 <= k < count ==> has_row(table, #[trigger] children[k]),
        forall|i: int, j: int|
            0 <= i < j < table.len() ==> (#[trigger] table[i]).0 != (#[trigger] table[j]).0,
    ensures
        with_children(table, above, scope, children, count).len() == table.len(),
        forall|r: int|
            0 <= r < table.len() ==> #[trigger] with_children(
                table,
                above,
                scope,
                children,
                count,
            )[r] == if children.take(count as int).contains(table[r].0) {
                (table[r].0, adopted(table[r].1, above, scope))
            } else {
                table[r]
            },
    decreases count,
{
    let after = with_children(table, above, scope, children, count);
    if count > 0 {
        let before = with_children(table, above, scope, children, (count - 1) as nat);
        lemma_with_children(table, above, scope, children, (count - 1) as nat);
        let child = children[count - 1];
        let earlier = children.take(count - 1);
        let taken = children.take(count as int);
        assert forall|i: int| 0 <= i < before.len() implies (#[trigger] before[i]).0
            == table[i].0 by {}
        lemma_same_rows(before, table, child);
        lemma_row_of(table, child);
        assert(has_row(table, child));
        let row = row_of(before, child) as int;
        assert(taken =~= earlier.push(child));
        assert forall|r: int| 0 <= r < table.len() implies #[trigger] after[r] == if taken.contains(
            table[r].0,
        ) {
            (table[r].0, adopted(table[r].1, above, scope))
        } else {
            table[r]
        } by {
            lemma_adopted(table[r].1, above, scope);
            if r == row {
                assert(taken[count - 1] == child);
                assert(taken.contains(table[r].0));
            } else {
                assert(table[r].0 != child);
                assert(after[r] == before[r]);
                if earlier.contains(table[r].0) {
                    let k = choose|k: int| 0 <= k < earlier.len() && earlier[k] == table[r].0;
                    assert(taken[k] == table[r].0);
                }
                if taken.contains(table[r].0) {
                    let k = choose|k: int| 0 <= k < taken.len() && taken[k] == table[r].0;
                    assert(k < earlier.len());
                    assert(earlier[k] == table[r].0);
                }
            }
        }
    } else {
        assert(children.take(0) =~= Seq::empty());
    }
}

/// An added scope hangs under every parent it was given and over every child: each
/// child has it for a parent, no longer hangs off a parent that the scope stands
/// between, and keeps all of its others. Nothing else of the config changes.
pub proof fn law_an_added_scope_hangs_where_it_was_put(
    config: DotsyncConfig,
    options: AddScopeOptions,
    added: DotsyncConfig,
)
    requires
        adds_scope(config, options, Ok::<DotsyncConfig, DotsyncError>(added)),
        !texts(options.children@).contains(options.scope@),
        forall|i: int, j: int|
            0 <= i < j < config.scopes@.len() ==> (#[trigger] config.scopes@[i]).0@ != (
            #[trigger] config.scopes@[j]).0@,
    ensures
        added.sync_state_relative_path == config.sync_state_relative_path,
        added.scopes@.len() == config.scopes@.len() + 1,
        added.scopes@.last().0@ == options.scope@,
        texts(added.scopes@.last().1@) == texts(options.parents@),
        forall|i: int|
            0 <= i < config.scopes@.len() ==> (#[trigger] added.scopes@[i]).0@
                == config.scopes@[i].0@,
        forall|i: int|
            0 <= i < config.scopes@.len() && !texts(options.children@).contains(
                config.scopes@[i].0@,
            ) ==> texts((#[trigger] added.scopes@[i]).1@) == texts(config.scopes@[i].1@),
        forall|i: int|
            0 <= i < config.scopes@.len() && texts(options.children@).contains(
                config.scopes@[i].0@,
            ) ==> texts((#[trigger] added.scopes@[i]).1@).contains(options.scope@),
        forall|i: int, p: Text|
            0 <= i < config.scopes@.len() && texts(options.children@).contains(
                config.scopes@[i].0@,
            ) && p != options.scope@ ==> (#[trigger] texts(added.scopes@[i].1@).contains(p)
                <==> texts(config.scopes@[i].1@).contains(p) && !texts(
                options.parents@,
            ).contains(p)),
{
    let table = table_view(config.scopes@);
    let above = texts(options.parents@);
    let children = texts(options.children@);
    let new = table.push((options.scope@, above));
    let after = table_view(added.scopes@);
    lemma_first_missing_is(table, above);
    lemma_first_missing_is(new, children);
    lemma_row_of(table, options.scope@);
    if above.contains(options.scope@) {
        let k = choose|k: int| 0 <= k < above.len() && above[k] == options.scope@;
        assert(has_row(table, above[k]));
    }
    assert forall|i: int, j: int| 0 <= i < j < new.len() implies (#[trigger] new[i]).0 != (
    #[trigger] new[j]).0 by {
        if j == table.len() {
            assert(table[i].0 == config.scopes@[i].0@);
        } else {
            assert(table[i].0 == config.scopes@[i].0@);
            assert(table[j].0 == config.scopes@[j].0@);
        }
    }
    lemma_with_children(new, above, options.scope@, children, children.len());
    assert(children.take(children.len() as int) =~= children);
    assert(after == with_children(new, above, options.scope@, children, children.len()));
    let last = config.scopes@.len() as int;
    assert(after[last] == new[last]);
    assert(added.scopes@.last() == added.scopes@[last]);
    assert forall|i: int| 0 <= i < config.scopes@.len() implies after[i] == ((
    #[trigger] added.scopes@[i]).0@, texts(added.scopes@[i].1@)) && new[i] == (
        config.scopes@[i].0@,
        texts(config.scopes@[i].1@),
    ) by {}
    assert forall|i: int, p: Text|
        0 <= i < config.scopes@.len() && children.contains(config.scopes@[i].0@) && p
            != options.scope@ implies (#[trigger] texts(added.scopes@[i].1@).contains(p) <==> texts(
        config.scopes@[i].1@,
    ).contains(p) && !above.contains(p)) by {
        lemma_adopted(texts(config.scopes@[i].1@), above, options.scope@);
        assert(after[i] == (added.scopes@[i].0@, texts(added.scopes@[i].1@)));
    }
    assert forall|i: int|
        0 <= i < config.scopes@.len() && children.contains(config.scopes@[i].0@) implies texts(
        (#[trigger] added.scopes@[i]).1@,
    ).contains(options.scope@) by {
        lemma_adopted(texts(config.scopes@[i].1@), above, options.scope@);
    }
}

/// The commit that records an added scope: the config file alone, on the root,
/// so that every machine gets it.
pub fn add_scope_commit(options: &AddScopeOptions) -> (commit: CommitOptions)
    ensures
        commit.scope@ == ALL_SCOPE@,
        commit.message@ == "add "@ + options.scope@ + " scope"@,
        commit.force == options.force,
        all_paths(commit.paths@) == seq![components(DOTSYNC_CONFIG_RELATIVE_PATH@)],
{
    let mut paths: Vec<FilePath> = Vec::new();
    paths.push(FilePath::new(DOTSYNC_CONFIG_RELATIVE_PATH));
    proof {
        assert(all_paths(paths@) =~= seq![components(DOTSYNC_CONFIG_RELATIVE_PATH@)]);
    }
    CommitOptions {
        scope: ALL_SCOPE.to_owned(),
        message: cat3("add ", options.scope.as_str(), " scope"),
        force: options.force,
        paths,
    }
}

} // verus!
