//! The scope graph as a config file writes it down, with the comments that say
//! what each scope is for.
use vstd::prelude::*;
use vstd::string::*;
use toml_edit::{DocumentMut, InlineTable, Item, Table, Value};
use crate::paths::{joined_path, FilePath};
use crate::selection::{DotsyncPaths, DOTSYNC_CONFIG_RELATIVE_PATH};
use crate::text::{cat2, cat3, cat5, texts, Text};

verus! {

/// Where the record of what was synced is kept, unless a config says otherwise.
pub const DEFAULT_SYNC_STATE_RELATIVE_PATH: &'static str = ".config/dotsync/sync-state.json";

pub const CONFIG_HEADER: &'static str = "# dotsync scope graph — which config reaches which machines.\n#\n# Every scope is a branch. A machine gets everything its own scope holds plus\n# everything its ancestor scopes hold, so config on `all` reaches every machine\n# and config on a machine scope reaches only that machine.\n#\n# Choosing a scope is the one decision dotsync cannot make for you: put each\n# change on the root-est scope that should own it. These comments are how that\n# choice gets made, so when you learn what a scope is for, write it down here\n# and commit this file to `all`.\n\n";

pub const SYNC_STATE_COMMENT: &'static str = "# Where dotsync records which machine scope this home uses. Machine-local: it\n# never travels on a scope.\n";

/// The table of a config that lists the scopes.
pub const SCOPES_TABLE: &'static str = "scopes";

/// What a scope in that table calls the scopes it hangs off.
pub const PARENTS_KEY: &'static str = "parents";

/// The table of a config that says where things are kept.
pub const SYNC_TABLE: &'static str = "sync";

/// What that table calls the place of the record of what was synced.
pub const STATE_PATH_KEY: &'static str = "state_path";

/// A scope dotsync is about to create, and enough about it to say what it is
/// for.
pub struct NewScope {
    pub name: String,
    pub parents: Vec<String>,
    pub kind: ScopeKind,
}

/// Why dotsync created a scope.
#[derive(Debug, Clone, Copy, PartialEq, Eq, Structural)]
pub enum ScopeKind {
    Root,
    Os,
    Machine,
}

/// What a scope covers, and the invitation to say more.
pub open spec fn scope_comment(name: Text, kind: ScopeKind) -> Text {
    let covers = match kind {
        ScopeKind::Root => "`"@ + name + "` — every machine, whatever its OS."@,
        ScopeKind::Os => "`"@ + name + "` — every machine whose OS is "@ + name + "."@,
        ScopeKind::Machine => "`"@ + name + "` — only the machine called "@ + name + "."@,
    };
    "# "@ + covers + "\n# What belongs here:\n"@
}

impl NewScope {
    /// The comment that introduces this scope: dotsync knows which machines it
    /// covers and cannot know what belongs on it.
    pub fn comment(&self) -> (text: String)
        ensures
            text@ == scope_comment(self.name@, self.kind),
    {
        let name = self.name.as_str();
        let covers = match self.kind {
            ScopeKind::Root => cat3("`", name, "` — every machine, whatever its OS."),
            ScopeKind::Os => cat5("`", name, "` — every machine whose OS is ", name, "."),
            ScopeKind::Machine => cat5("`", name, "` — only the machine called ", name, "."),
        };
        cat3("# ", covers.as_str(), "\n# What belongs here:\n")
    }
}

/// A TOML document that is edited in place. Opaque: what it holds is told by the
/// functions on it.
#[verifier::external_type_specification]
#[verifier::external_body]
pub struct ExDocument(DocumentMut);

/// The keys at the top of a document that are tables.
pub uninterp spec fn table_keys(document: DocumentMut) -> Set<Seq<char>>;

/// The parents that the table of scopes lists, for each scope in it.
pub uninterp spec fn scope_parents(document: DocumentMut) -> Map<Seq<char>, Seq<Seq<char>>>;

/// What stands before the key of each scope in the table of scopes.
pub uninterp spec fn scope_notes(document: DocumentMut) -> Map<Seq<char>, Seq<char>>;

/// The scopes of the table of scopes, in the order in which it holds them.
pub uninterp spec fn scope_order(document: DocumentMut) -> Seq<Seq<char>>;

/// What the table of scopes holds of each scope, key and value, with the comments
/// and the spacing around both.
pub uninterp spec fn scope_entries(document: DocumentMut) -> Map<Seq<char>, Seq<char>>;

/// What a document holds besides the entries of its table of scopes: every other
/// key and value, with the comments and the spacing around them.
pub uninterp spec fn besides_scopes(document: DocumentMut) -> Seq<char>;

/// The strings that are set in other tables than that of scopes, by table and
/// key.
pub uninterp spec fn table_strings(document: DocumentMut) -> Map<(Seq<char>, Seq<char>), Seq<char>>;

/// What stands before the keys of those strings.
pub uninterp spec fn string_notes(document: DocumentMut) -> Map<(Seq<char>, Seq<char>), Seq<char>>;

/// What was put before tables at the top of a document.
pub uninterp spec fn table_notes(document: DocumentMut) -> Map<Seq<char>, Seq<char>>;

/// A document as it is written out.
pub uninterp spec fn document_text(document: DocumentMut) -> Seq<char>;

/// What reading a document comes to: the document, or what is said of the text.
pub uninterp spec fn parse_result(text: Seq<char>) -> Result<DocumentMut, Seq<char>>;

/// No scope is listed.
pub open spec fn no_parents() -> Map<Text, Seq<Text>> {
    Map::empty()
}

/// Nothing stands before any scope.
pub open spec fn no_notes() -> Map<Text, Text> {
    Map::empty()
}

/// No string is set.
pub open spec fn no_strings() -> Map<(Text, Text), Text> {
    Map::empty()
}

/// No scope stands in any order.
pub open spec fn no_scopes() -> Seq<Text> {
    Seq::empty()
}

/// The order of some scopes once one more is set among them: one that is there
/// keeps its place, one that is not comes last.
pub open spec fn order_with_scope(order: Seq<Text>, name: Text) -> Seq<Text> {
    if order.contains(name) {
        order
    } else {
        order.push(name)
    }
}

/// Strings without those of one table.
pub open spec fn strings_without(
    strings: Map<(Text, Text), Text>,
    table: Text,
) -> Map<(Text, Text), Text> {
    Map::new(
        |k: (Text, Text)| strings.dom().contains(k) && k.0 != table,
        |k: (Text, Text)| strings[k],
    )
}

/// Wraps `toml_edit::DocumentMut::new`: a document that holds nothing.
#[verifier::external_body]
fn new_document() -> (document: DocumentMut)
    ensures
        table_keys(document) == Set::<Seq<char>>::empty(),
        scope_parents(document) == no_parents(),
        scope_notes(document) == no_notes(),
        scope_order(document) == no_scopes(),
        scope_entries(document) == no_notes(),
        table_strings(document) == no_strings(),
        string_notes(document) == no_strings(),
        table_notes(document) == no_notes(),
{
    DocumentMut::new()
}

/// Wraps the `FromStr` of `toml_edit::DocumentMut`: reads a document, or says
/// what is wrong with the text.
#[verifier::external_body]
fn parse_document(text: &str) -> (parsed: Result<DocumentMut, String>)
    ensures
        match parsed {
            Ok(document) => parse_result(text@) == Ok::<DocumentMut, Seq<char>>(document),
            Err(said) => parse_result(text@) == Err::<DocumentMut, Seq<char>>(said@),
        },
{
    text.parse::<DocumentMut>().map_err(|error| error.to_string())
}

/// Wraps `toml_edit::Table::insert` on the document, of a new `toml_edit::Table`:
/// the key is a table from then on, and an empty one.
#[verifier::external_body]
fn add_table(document: &mut DocumentMut, key: &str)
    ensures
        table_keys(*final(document)) == table_keys(*old(document)).insert(key@),
        table_notes(*final(document)) == table_notes(*old(document)).remove(key@),
        key@ == SCOPES_TABLE@ ==> scope_parents(*final(document)) == no_parents(),
        key@ == SCOPES_TABLE@ ==> scope_notes(*final(document)) == no_notes(),
        key@ == SCOPES_TABLE@ ==> scope_order(*final(document)) == no_scopes(),
        key@ == SCOPES_TABLE@ ==> scope_entries(*final(document)) == no_notes(),
        key@ == SCOPES_TABLE@ ==> table_strings(*final(document)) == table_strings(*old(document)),
        key@ == SCOPES_TABLE@ ==> string_notes(*final(document)) == string_notes(*old(document)),
        key@ != SCOPES_TABLE@ ==> scope_parents(*final(document)) == scope_parents(*old(document)),
        key@ != SCOPES_TABLE@ ==> scope_notes(*final(document)) == scope_notes(*old(document)),
        key@ != SCOPES_TABLE@ ==> scope_order(*final(document)) == scope_order(*old(document)),
        key@ != SCOPES_TABLE@ ==> scope_entries(*final(document)) == scope_entries(*old(document)),
        key@ != SCOPES_TABLE@ ==> table_strings(*final(document)) == strings_without(
            table_strings(*old(document)),
            key@,
        ),
        key@ != SCOPES_TABLE@ ==> string_notes(*final(document)) == strings_without(
            string_notes(*old(document)),
            key@,
        ),
{
    document.insert(key, Item::Table(Table::new()));
}

/// Wraps `toml_edit::Decor::set_prefix` on a table of the document: words stand
/// before the table.
#[verifier::external_body]
fn set_table_note(document: &mut DocumentMut, key: &str, before: &str)
    requires
        table_keys(*old(document)).contains(key@),
    ensures
        table_notes(*final(document)) == table_notes(*old(document)).insert(key@, before@),
        table_keys(*final(document)) == table_keys(*old(document)),
        scope_parents(*final(document)) == scope_parents(*old(document)),
        scope_notes(*final(document)) == scope_notes(*old(document)),
        scope_order(*final(document)) == scope_order(*old(document)),
        scope_entries(*final(document)) == scope_entries(*old(document)),
        table_strings(*final(document)) == table_strings(*old(document)),
        string_notes(*final(document)) == string_notes(*old(document)),
{
    if let Some(table) = document[key].as_table_mut() {
        table.decor_mut().set_prefix(before);
    }
}

/// Wraps `toml_edit::Table::get` on the document and `toml_edit::Item::is_table`:
/// whether a key at the top is a table.
#[verifier::external_body]
fn has_table(document: &DocumentMut, key: &str) -> (found: bool)
    ensures
        found == table_keys(*document).contains(key@),
{
    document.get(key).is_some_and(Item::is_table)
}

/// Wraps `toml_edit::Table::insert` of a string into a table of the document: the
/// string is set. What stands before its key is left unsaid.
#[verifier::external_body]
fn set_string(document: &mut DocumentMut, table: &str, key: &str, value: &str)
    requires
        table_keys(*old(document)).contains(table@),
        table@ != SCOPES_TABLE@,
    ensures
        table_strings(*final(document)) == table_strings(*old(document)).insert(
            (table@, key@),
            value@,
        ),
        string_notes(*final(document)).remove((table@, key@)) == string_notes(
            *old(document),
        ).remove((table@, key@)),
        table_notes(*final(document)) == table_notes(*old(document)),
        table_keys(*final(document)) == table_keys(*old(document)),
        scope_parents(*final(document)) == scope_parents(*old(document)),
        scope_notes(*final(document)) == scope_notes(*old(document)),
        scope_order(*final(document)) == scope_order(*old(document)),
        scope_entries(*final(document)) == scope_entries(*old(document)),
{
    if let Some(entries) = document[table].as_table_mut() {
        entries.insert(key, Item::Value(Value::from(value)));
    }
}

/// Wraps `toml_edit::Table::key_mut` on a table of the document and
/// `toml_edit::Decor::set_prefix` on the key: words stand before the string.
#[verifier::external_body]
fn set_string_note(document: &mut DocumentMut, table: &str, key: &str, before: &str)
    requires
        table_keys(*old(document)).contains(table@),
        table@ != SCOPES_TABLE@,
        table_strings(*old(document)).dom().contains((table@, key@)),
    ensures
        string_notes(*final(document)) == string_notes(*old(document)).insert(
            (table@, key@),
            before@,
        ),
        table_strings(*final(document)) == table_strings(*old(document)),
        table_notes(*final(document)) == table_notes(*old(document)),
        table_keys(*final(document)) == table_keys(*old(document)),
        scope_parents(*final(document)) == scope_parents(*old(document)),
        scope_notes(*final(document)) == scope_notes(*old(document)),
        scope_order(*final(document)) == scope_order(*old(document)),
        scope_entries(*final(document)) == scope_entries(*old(document)),
{
    if let Some(mut formatted) = document[table].as_table_mut().and_then(|t| t.key_mut(key)) {
        formatted.leaf_decor_mut().set_prefix(before);
    }
}

/// Wraps `toml_edit::Table::insert` of an empty inline table into the table of
/// scopes, which then lists the scope without parents, in the place the scope had
/// or else last. Nothing else in the document is touched.
#[verifier::external_body]
fn add_bare_scope(document: &mut DocumentMut, table: &str, name: &str)
    requires
        table@ == SCOPES_TABLE@,
        table_keys(*old(document)).contains(table@),
    ensures
        scope_parents(*final(document)) == scope_parents(*old(document)).insert(name@, Seq::empty()),
        scope_order(*final(document)) == order_with_scope(scope_order(*old(document)), name@),
        scope_notes(*final(document)).remove(name@) == scope_notes(*old(document)).remove(name@),
        scope_entries(*final(document)).remove(name@) == scope_entries(*old(document)).remove(name@),
        besides_scopes(*final(document)) == besides_scopes(*old(document)),
        table_keys(*final(document)) == table_keys(*old(document)),
        table_strings(*final(document)) == table_strings(*old(document)),
        string_notes(*final(document)) == string_notes(*old(document)),
        table_notes(*final(document)) == table_notes(*old(document)),
{
    let mut entry = InlineTable::new();
    entry.fmt();
    if let Some(scopes) = document[table].as_table_mut() {
        scopes.insert(name, Item::Value(Value::InlineTable(entry)));
    }
}

/// Wraps `toml_edit::Table::insert` of an inline table with an array of parents
/// into the table of scopes, which then lists the scope with these parents, in the
/// place the scope had or else last. Nothing else in the document is touched.
#[verifier::external_body]
fn add_child_scope(
    document: &mut DocumentMut,
    table: &str,
    name: &str,
    key: &str,
    parents: &Vec<String>,
)
    requires
        table@ == SCOPES_TABLE@,
        key@ == PARENTS_KEY@,
        table_keys(*old(document)).contains(table@),
    ensures
        scope_parents(*final(document)) == scope_parents(*old(document)).insert(
            name@,
            texts(parents@),
        ),
        scope_order(*final(document)) == order_with_scope(scope_order(*old(document)), name@),
        scope_notes(*final(document)).remove(name@) == scope_notes(*old(document)).remove(name@),
        scope_entries(*final(document)).remove(name@) == scope_entries(*old(document)).remove(name@),
        besides_scopes(*final(document)) == besides_scopes(*old(document)),
        table_keys(*final(document)) == table_keys(*old(document)),
        table_strings(*final(document)) == table_strings(*old(document)),
        string_notes(*final(document)) == string_notes(*old(document)),
        table_notes(*final(document)) == table_notes(*old(document)),
{
    let mut entry = InlineTable::new();
    entry.insert(key, Value::Array(parents.iter().map(Value::from).collect()));
    entry.fmt();
    if let Some(scopes) = document[table].as_table_mut() {
        scopes.insert(name, Item::Value(Value::InlineTable(entry)));
    }
}

/// Wraps `toml_edit::Table::key_mut` on the table of scopes and
/// `toml_edit::Decor::set_prefix` on the key: words stand before the scope.
/// Nothing else in the document is touched.
#[verifier::external_body]
fn set_scope_note(document: &mut DocumentMut, table: &str, name: &str, before: &str)
    requires
        table@ == SCOPES_TABLE@,
        table_keys(*old(document)).contains(table@),
        scope_parents(*old(document)).dom().contains(name@),
    ensures
        scope_notes(*final(document)) == scope_notes(*old(document)).insert(name@, before@),
        scope_parents(*final(document)) == scope_parents(*old(document)),
        scope_order(*final(document)) == scope_order(*old(document)),
        scope_entries(*final(document)).remove(name@) == scope_entries(*old(document)).remove(name@),
        besides_scopes(*final(document)) == besides_scopes(*old(document)),
        table_keys(*final(document)) == table_keys(*old(document)),
        table_strings(*final(document)) == table_strings(*old(document)),
        string_notes(*final(document)) == string_notes(*old(document)),
        table_notes(*final(document)) == table_notes(*old(document)),
{
    if let Some(mut key) = document[table].as_table_mut().and_then(|t| t.key_mut(name)) {
        key.leaf_decor_mut().set_prefix(before);
    }
}

/// Wraps the `Display` of `toml_edit::DocumentMut`: the document written out.
#[verifier::external_body]
fn write_document(document: &DocumentMut) -> (text: String)
    ensures
        text@ == document_text(*document),
{
    document.to_string()
}

/// The parents listed once the first `count` of some scopes are added.
pub open spec fn parents_with(
    listed: Map<Text, Seq<Text>>,
    scopes: Seq<NewScope>,
    count: nat,
) -> Map<Text, Seq<Text>>
    decreases count,
{
    if count == 0 {
        listed
    } else {
        parents_with(listed, scopes, (count - 1) as nat).insert(
            scopes[count - 1].name@,
            texts(scopes[count - 1].parents@),
        )
    }
}

/// What stands before the scopes once the first `count` of some are added.
pub open spec fn notes_with(
    notes: Map<Text, Text>,
    scopes: Seq<NewScope>,
    count: nat,
) -> Map<Text, Text>
    decreases count,
{
    if count == 0 {
        notes
    } else {
        let scope = scopes[count - 1];
        notes_with(notes, scopes, (count - 1) as nat).insert(
            scope.name@,
            "\n"@ + scope_comment(scope.name@, scope.kind),
        )
    }
}

/// The order of the scopes once the first `count` of some are added.
pub open spec fn order_with(order: Seq<Text>, scopes: Seq<NewScope>, count: nat) -> Seq<Text>
    decreases count,
{
    if count == 0 {
        order
    } else {
        order_with_scope(order_with(order, scopes, (count - 1) as nat), scopes[count - 1].name@)
    }
}

/// Whether a name is that of one of the first `count` of some scopes.
pub open spec fn is_named(scopes: Seq<NewScope>, count: nat, name: Text) -> bool {
    exists|i: int| 0 <= i < count && (#[trigger] scopes[i]).name@ == name
}

/// Whether two tables hold the same of a name, if anything.
pub open spec fn same_entry(before: Map<Text, Text>, after: Map<Text, Text>, name: Text) -> bool {
    &&& before.dom().contains(name) == after.dom().contains(name)
    &&& before.dom().contains(name) ==> before[name] == after[name]
}

/// Adding scopes keeps what a config says of every other scope: its parents,
/// the guidance written beside it, and its place among those that were there.
pub proof fn law_added_scopes_keep_the_rest(
    listed: Map<Text, Seq<Text>>,
    notes: Map<Text, Text>,
    order: Seq<Text>,
    scopes: Seq<NewScope>,
    count: nat,
    other: Text,
)
    requires
        count <= scopes.len(),
        !is_named(scopes, count, other),
    ensures
        parents_with(listed, scopes, count).dom().contains(other) == listed.dom().contains(other),
        listed.dom().contains(other) ==> parents_with(listed, scopes, count)[other]
            == listed[other],
        notes_with(notes, scopes, count).dom().contains(other) == notes.dom().contains(other),
        notes.dom().contains(other) ==> notes_with(notes, scopes, count)[other] == notes[other],
        order_with(order, scopes, count).contains(other) == order.contains(other),
        order.len() <= order_with(order, scopes, count).len(),
        order_with(order, scopes, count).take(order.len() as int) == order,
    decreases count,
{
    if count > 0 {
        let name = scopes[count - 1].name@;
        assert(name != other);
        assert(!is_named(scopes, (count - 1) as nat, other));
        law_added_scopes_keep_the_rest(listed, notes, order, scopes, (count - 1) as nat, other);
        let between = order_with(order, scopes, (count - 1) as nat);
        if !between.contains(name) {
            assert(between.push(name).take(order.len() as int) =~= between.take(
                order.len() as int,
            ));
            if between.contains(other) {
                let k = choose|k: int| 0 <= k < between.len() && between[k] == other;
                assert(between.push(name)[k] == other);
            }
        }
    } else {
        assert(order.take(order.len() as int) =~= order);
    }
}

/// What a document holds once some scopes are added to it. All that it said
/// besides is kept: of the scopes that are not among them, and outside the table
/// of scopes.
pub open spec fn has_scopes_added(
    before: DocumentMut,
    scopes: Seq<NewScope>,
    after: DocumentMut,
) -> bool {
    &&& scope_parents(after) == parents_with(scope_parents(before), scopes, scopes.len())
    &&& scope_notes(after) == notes_with(scope_notes(before), scopes, scopes.len())
    &&& scope_order(after) == order_with(scope_order(before), scopes, scopes.len())
    &&& forall|name: Text|
        !is_named(scopes, scopes.len(), name) ==> #[trigger] same_entry(
            scope_entries(before),
            scope_entries(after),
            name,
        )
    &&& besides_scopes(after) == besides_scopes(before)
    &&& table_keys(after) == table_keys(before)
    &&& table_strings(after) == table_strings(before)
    &&& string_notes(after) == string_notes(before)
    &&& table_notes(after) == table_notes(before)
}

proof fn lemma_same_entry(
    before: Map<Text, Text>,
    after: Map<Text, Text>,
    name: Text,
    other: Text,
)
    requires
        after.remove(name) == before.remove(name),
        other != name,
    ensures
        same_entry(before, after, other),
{
    assert(before.remove(name).dom().contains(other) == before.dom().contains(other));
    assert(after.remove(name).dom().contains(other) == after.dom().contains(other));
    if before.dom().contains(other) {
        assert(before.remove(name)[other] == before[other]);
        assert(after.remove(name)[other] == after[other]);
    }
}

pub const NO_SCOPE_TABLE: &'static str = "`[scopes]` is not a table";

/// Appends scope entries, each under the comment that says what it covers.
fn add_scopes(document: &mut DocumentMut, scopes: &Vec<NewScope>) -> (text: Result<String, String>)
    ensures
        match text {
            Ok(text) => table_keys(*old(document)).contains(SCOPES_TABLE@) && has_scopes_added(
                *old(document),
                scopes@,
                *final(document),
            ) && text@ == document_text(*final(document)),
            Err(said) => !table_keys(*old(document)).contains(SCOPES_TABLE@) && said@
                == NO_SCOPE_TABLE@,
        },
{
    if !has_table(document, SCOPES_TABLE) {
        return Err(NO_SCOPE_TABLE.to_owned());
    }
    let mut i: usize = 0;
    while i < scopes.len()
        invariant
            i <= scopes.len(),
            table_keys(*document).contains(SCOPES_TABLE@),
            scope_parents(*document) == parents_with(
                scope_parents(*old(document)),
                scopes@,
                i as nat,
            ),
            scope_notes(*document) == notes_with(scope_notes(*old(document)), scopes@, i as nat),
            scope_order(*document) == order_with(scope_order(*old(document)), scopes@, i as nat),
            forall|name: Text|
                !is_named(scopes@, i as nat, name) ==> #[trigger] same_entry(
                    scope_entries(*old(document)),
                    scope_entries(*document),
                    name,
                ),
            besides_scopes(*document) == besides_scopes(*old(document)),
            table_keys(*document) == table_keys(*old(document)),
            table_strings(*document) == table_strings(*old(document)),
            string_notes(*document) == string_notes(*old(document)),
            table_notes(*document) == table_notes(*old(document)),
        decreases scopes.len() - i,
    {
        let scope = &scopes[i];
        let ghost notes = scope_notes(*document);
        let ghost entries = scope_entries(*document);
        let ghost order = scope_order(*document);
        if scope.parents.is_empty() {
            add_bare_scope(document, SCOPES_TABLE, scope.name.as_str());
            proof {
                assert(texts(scope.parents@) =~= Seq::<Text>::empty());
            }
        } else {
            add_child_scope(
                document,
                SCOPES_TABLE,
                scope.name.as_str(),
                PARENTS_KEY,
                &scope.parents,
            );
        }
        let ghost between = scope_notes(*document);
        let ghost between_entries = scope_entries(*document);
        let comment = scope.comment();
        let note = cat2("\n", comment.as_str());
        set_scope_note(document, SCOPES_TABLE, scope.name.as_str(), note.as_str());
        proof {
            let name = scope.name@;
            assert(between.insert(name, note@) =~= between.remove(name).insert(name, note@));
            assert(notes.insert(name, note@) =~= notes.remove(name).insert(name, note@));
            assert(scope_order(*document) == order_with_scope(order, name));
            assert forall|other: Text|
                !is_named(scopes@, (i + 1) as nat, other) implies #[trigger] same_entry(
                scope_entries(*old(document)),
                scope_entries(*document),
                other,
            ) by {
                assert(scopes@[i as int].name@ != other);
                assert(!is_named(scopes@, i as nat, other)) by {
                    if is_named(scopes@, i as nat, other) {
                        let k = choose|k: int|
                            0 <= k < i as nat && (#[trigger] scopes@[k]).name@ == other;
                        assert(scopes@[k].name@ == other);
                    }
                }
                assert(same_entry(scope_entries(*old(document)), entries, other));
                lemma_same_entry(entries, between_entries, name, other);
                lemma_same_entry(between_entries, scope_entries(*document), name, other);
            }
        }
        i += 1;
    }
    Ok(write_document(document))
}

/// Whether a document is a new config: a table of scopes with just these, in
/// their order, and where the record of what was synced is kept.
pub open spec fn is_new_config(
    document: DocumentMut,
    state_path: Text,
    scopes: Seq<NewScope>,
) -> bool {
    &&& scope_parents(document) == parents_with(no_parents(), scopes, scopes.len())
    &&& scope_notes(document) == notes_with(no_notes(), scopes, scopes.len())
    &&& scope_order(document) == order_with(no_scopes(), scopes, scopes.len())
    &&& table_strings(document) == no_strings().insert((SYNC_TABLE@, STATE_PATH_KEY@), state_path)
    &&& string_notes(document) == no_strings().insert(
        (SYNC_TABLE@, STATE_PATH_KEY@),
        SYNC_STATE_COMMENT@,
    )
    &&& table_notes(document) == no_notes().insert(SCOPES_TABLE@, CONFIG_HEADER@)
    &&& table_keys(document) == Set::<Text>::empty().insert(SCOPES_TABLE@).insert(SYNC_TABLE@)
}

/// A config file for a machine joining a remote that has none: the header, the
/// scopes this machine needs, and where its record of what was synced lives.
pub fn new_config(sync_state_relative_path: &FilePath, scopes: &Vec<NewScope>) -> (text: String)
    ensures
        exists|document: DocumentMut|
            is_new_config(document, sync_state_relative_path.text@, scopes@) && text@
                == #[trigger] document_text(document),
{
    let mut document = new_document();
    add_table(&mut document, SCOPES_TABLE);
    set_table_note(&mut document, SCOPES_TABLE, CONFIG_HEADER);
    add_table(&mut document, SYNC_TABLE);
    proof {
        reveal_strlit("scopes");
        reveal_strlit("sync");
        assert(SCOPES_TABLE@.len() != SYNC_TABLE@.len());
        assert(table_strings(document) =~= no_strings());
        assert(string_notes(document) =~= no_strings());
        assert(table_notes(document) =~= no_notes().insert(SCOPES_TABLE@, CONFIG_HEADER@));
    }
    set_string(
        &mut document,
        SYNC_TABLE,
        STATE_PATH_KEY,
        sync_state_relative_path.text.as_str(),
    );
    let ghost between = string_notes(document);
    set_string_note(&mut document, SYNC_TABLE, STATE_PATH_KEY, SYNC_STATE_COMMENT);
    proof {
        let at = (SYNC_TABLE@, STATE_PATH_KEY@);
        let note = SYNC_STATE_COMMENT@;
        assert(between.insert(at, note) =~= between.remove(at).insert(at, note));
        assert(no_strings().remove(at).insert(at, note) =~= no_strings().insert(at, note));
    }
    match add_scopes(&mut document, scopes) {
        Ok(text) => {
            proof {
                assert(is_new_config(document, sync_state_relative_path.text@, scopes@));
            }
            text
        },
        Err(said) => {
            assert(false);
            said
        },
    }
}

/// A config file that cannot be edited, and what is wrong with it.
#[derive(Debug)]
pub struct ConfigError {
    pub path: FilePath,
    pub message: String,
}

/// The config file with new scopes added, keeping everything it already said.
pub fn config_with_added_scopes(
    existing: &str,
    new_scopes: &Vec<NewScope>,
    config_path: &FilePath,
) -> (edited: Result<String, ConfigError>)
    ensures
        match (parse_result(existing@), edited) {
            (Err(said), Err(error)) => error.path == *config_path && error.message@ == said,
            (Ok(before), Ok(text)) => table_keys(before).contains(SCOPES_TABLE@) && exists|
                after: DocumentMut,
            |
                has_scopes_added(before, new_scopes@, after) && text@ == #[trigger] document_text(
                    after,
                ),
            (Ok(before), Err(error)) => !table_keys(before).contains(SCOPES_TABLE@) && error.path
                == *config_path && error.message@ == NO_SCOPE_TABLE@,
            (Err(_), Ok(_)) => false,
        },
{
    match parse_document(existing) {
        Err(message) => Err(ConfigError { path: config_path.copy(), message }),
        Ok(parsed) => {
            let mut document = parsed;
            match add_scopes(&mut document, new_scopes) {
                Ok(text) => {
                    proof {
                        assert(has_scopes_added(parsed, new_scopes@, document));
                    }
                    Ok(text)
                },
                Err(message) => Err(ConfigError { path: config_path.copy(), message }),
            }
        },
    }
}

/// A config file as it was read: the parents of each scope, and where the record
/// of what was synced is kept, if it says.
pub struct RawConfig {
    pub scopes: Vec<(String, Vec<String>)>,
    pub state_path: Option<String>,
}

/// What a config says.
pub struct DotsyncConfig {
    pub scopes: Vec<(String, Vec<String>)>,
    pub sync_state_relative_path: FilePath,
}

/// Where the record of what was synced is kept, unless a config says otherwise.
pub fn default_sync_state_relative_path() -> (text: String)
    ensures
        text@ == DEFAULT_SYNC_STATE_RELATIVE_PATH@,
{
    DEFAULT_SYNC_STATE_RELATIVE_PATH.to_owned()
}

/// What a config says, from what was read of it.
pub fn parse_config(raw: RawConfig) -> (config: DotsyncConfig)
    ensures
        config.scopes == raw.scopes,
        config.sync_state_relative_path.text@ == match raw.state_path {
            Some(path) => path@,
            None => DEFAULT_SYNC_STATE_RELATIVE_PATH@,
        },
{
    let text = match raw.state_path {
        Some(path) => path,
        None => default_sync_state_relative_path(),
    };
    DotsyncConfig { scopes: raw.scopes, sync_state_relative_path: FilePath { text } }
}

/// The paths in home that are dotsync's own and never travel on a scope.
pub fn internal_repo_paths(config: &DotsyncConfig) -> (paths: Vec<FilePath>)
    ensures
        paths@ == seq![config.sync_state_relative_path],
{
    let mut paths: Vec<FilePath> = Vec::new();
    paths.push(config.sync_state_relative_path.copy());
    proof {
        assert(paths@ =~= seq![config.sync_state_relative_path]);
    }
    paths
}

/// Where the config file is, in the repo.
pub fn repo_config_path(paths: &DotsyncPaths) -> (path: FilePath)
    ensures
        path.text@ == joined_path(paths.repo_root.text@, DOTSYNC_CONFIG_RELATIVE_PATH@),
{
    paths.repo_root.join(&FilePath::new(DOTSYNC_CONFIG_RELATIVE_PATH))
}

/// Whether a scope is the last of its name among some.
pub open spec fn is_last_named(scopes: Seq<NewScope>, at: int) -> bool {
    forall|i: int| at < i < scopes.len() ==> (#[trigger] scopes[i]).name@ != scopes[at].name@
}

proof fn lemma_listed(
    listed: Map<Text, Seq<Text>>,
    notes: Map<Text, Text>,
    order: Seq<Text>,
    scopes: Seq<NewScope>,
    count: nat,
    at: int,
)
    requires
        0 <= at < count <= scopes.len(),
        is_last_named(scopes, at),
    ensures
        parents_with(listed, scopes, count).dom().contains(scopes[at].name@),
        parents_with(listed, scopes, count)[scopes[at].name@] == texts(scopes[at].parents@),
        notes_with(notes, scopes, count).dom().contains(scopes[at].name@),
        notes_with(notes, scopes, count)[scopes[at].name@] == "\n"@ + scope_comment(
            scopes[at].name@,
            scopes[at].kind,
        ),
        order_with(order, scopes, count).contains(scopes[at].name@),
    decreases count,
{
    let before = order_with(order, scopes, (count - 1) as nat);
    let after = order_with(order, scopes, count);
    if at == count - 1 {
        if !before.contains(scopes[at].name@) {
            assert(after[before.len() as int] == scopes[at].name@);
        }
    } else {
        lemma_listed(listed, notes, order, scopes, (count - 1) as nat, at);
        assert(scopes[count - 1].name@ != scopes[at].name@);
        let k = choose|k: int| 0 <= k < before.len() && before[k] == scopes[at].name@;
        assert(after[k] == scopes[at].name@);
    }
}

/// Scopes that are added to a config are listed in it, each with all of its parents
/// and under the comment that says what it covers; what the config said of other
/// scopes, and besides the scopes, it says still.
pub proof fn law_added_scopes_are_listed_with_their_parents(
    before: DocumentMut,
    scopes: Seq<NewScope>,
    after: DocumentMut,
    at: int,
    other: Text,
)
    requires
        has_scopes_added(before, scopes, after),
        0 <= at < scopes.len(),
        is_last_named(scopes, at),
        forall|i: int| 0 <= i < scopes.len() ==> (#[trigger] scopes[i]).name@ != other,
    ensures
        scope_parents(after).dom().contains(scopes[at].name@),
        scope_parents(after)[scopes[at].name@].len() == scopes[at].parents@.len(),
        forall|k: int|
            0 <= k < scopes[at].parents@.len() ==> #[trigger] scope_parents(
                after,
            )[scopes[at].name@][k] == scopes[at].parents@[k]@,
        scope_notes(after)[scopes[at].name@] == "\n"@ + scope_comment(
            scopes[at].name@,
            scopes[at].kind,
        ),
        scope_order(after).contains(scopes[at].name@),
        scope_parents(after).dom().contains(other) <==> scope_parents(before).dom().contains(
            other,
        ),
        scope_parents(before).dom().contains(other) ==> scope_parents(after)[other]
            == scope_parents(before)[other],
        scope_notes(before).dom().contains(other) ==> scope_notes(after)[other] == scope_notes(
            before,
        )[other],
        scope_entries(before).dom().contains(other) ==> scope_entries(after).dom().contains(other)
            && scope_entries(after)[other] == scope_entries(before)[other],
        scope_order(after).take(scope_order(before).len() as int) == scope_order(before),
        besides_scopes(after) == besides_scopes(before),
        table_strings(after) == table_strings(before),
        string_notes(after) == string_notes(before),
        table_notes(after) == table_notes(before),
{
    lemma_listed(
        scope_parents(before),
        scope_notes(before),
        scope_order(before),
        scopes,
        scopes.len(),
        at,
    );
    assert(!is_named(scopes, scopes.len(), other));
    law_added_scopes_keep_the_rest(
        scope_parents(before),
        scope_notes(before),
        scope_order(before),
        scopes,
        scopes.len(),
        other,
    );
    assert(same_entry(scope_entries(before), scope_entries(after), other));
}

/// A new config lists just the scopes it is made for, each with all of its parents,
/// and says where the record of what was synced is kept.
pub proof fn law_a_new_config_lists_its_scopes(
    document: DocumentMut,
    state_path: Text,
    scopes: Seq<NewScope>,
    at: int,
    other: Text,
)
    requires
        is_new_config(document, state_path, scopes),
        0 <= at < scopes.len(),
        is_last_named(scopes, at),
        forall|i: int| 0 <= i < scopes.len() ==> (#[trigger] scopes[i]).name@ != other,
    ensures
        scope_parents(document).dom().contains(scopes[at].name@),
        scope_parents(document)[scopes[at].name@].len() == scopes[at].parents@.len(),
        forall|k: int|
            0 <= k < scopes[at].parents@.len() ==> #[trigger] scope_parents(
                document,
            )[scopes[at].name@][k] == scopes[at].parents@[k]@,
        scope_notes(document)[scopes[at].name@] == "\n"@ + scope_comment(
            scopes[at].name@,
            scopes[at].kind,
        ),
        scope_order(document).contains(scopes[at].name@),
        !scope_parents(document).dom().contains(other),
        !scope_order(document).contains(other),
        table_strings(document).dom().contains(("sync"@, "state_path"@)),
        table_strings(document)[("sync"@, "state_path"@)] == state_path,
        table_keys(document).contains("scopes"@),
        table_keys(document).contains("sync"@),
{
    lemma_listed(no_parents(), no_notes(), no_scopes(), scopes, scopes.len(), at);
    assert(!is_named(scopes, scopes.len(), other));
    law_added_scopes_keep_the_rest(
        no_parents(),
        no_notes(),
        no_scopes(),
        scopes,
        scopes.len(),
        other,
    );
}

} // verus!
