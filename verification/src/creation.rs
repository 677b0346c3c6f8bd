//! The commits that create scopes, and how their descriptions are worded.
use vstd::prelude::*;
use vstd::string::*;
use crate::text::{
    cat3, find_char, first_index, lemma_first_index, lemma_first_index_is, opt_str, opt_text,
    strip_prefix, strip_suffix, trim, trimmed, trimmed_end, trimmed_start, white_space, Text,
};

verus! {

/// How the first line of a creation commit opens.
pub const CREATE_PREFIX: &'static str = "dotsync: create ";

/// The same statement in the words the v0.3.13 recovery release used.
pub const REBUILD_PREFIX: &'static str = "dotsync: rebuild ";

/// The same statement in the words the first releases used for the root scope.
pub const INITIALIZE_PREFIX: &'static str = "dotsync: initialize ";

/// How the first line of a creation commit closes.
pub const CREATION_SUFFIX: &'static str = " scope";

/// The first line of a text, without its line ending; an empty text has none.
pub open spec fn first_line(text: Text) -> Option<Text> {
    let end = first_index(text, '\n');
    if text.len() == 0 {
        None
    } else if end == text.len() {
        Some(text)
    } else if end > 0 && text[end - 1] == '\r' {
        Some(text.take(end - 1))
    } else {
        Some(text.take(end))
    }
}

/// A name a scope can have in a creation commit's first line.
pub open spec fn names_a_scope(name: Text) -> bool {
    name.len() > 0 && !name.contains(' ')
}

/// The first line of a creation commit, as one of the releases words it.
pub open spec fn worded(prefix: Text, scope: Text) -> Text {
    prefix + scope + CREATION_SUFFIX@
}

/// Whether a commit with this description creates `scope`.
pub open spec fn creates(description: Text, scope: Text) -> bool {
    &&& names_a_scope(scope)
    &&& {
        ||| first_line(description) == Some(worded(CREATE_PREFIX@, scope))
        ||| first_line(description) == Some(worded(REBUILD_PREFIX@, scope))
        ||| first_line(description) == Some(worded(INITIALIZE_PREFIX@, scope))
    }
}

/// A commit creates one scope at most.
pub proof fn lemma_creates_one_scope(description: Text, one: Text, other: Text)
    requires
        creates(description, one),
        creates(description, other),
    ensures
        one == other,
{
    reveal_strlit("dotsync: create ");
    reveal_strlit("dotsync: rebuild ");
    reveal_strlit("dotsync: initialize ");
    reveal_strlit(" scope");
    let line = first_line(description)->0;
    assert(line[9] == 'c' || line[9] == 'r' || line[9] == 'i');
    let size: int = if line[9] == 'c' {
        16
    } else if line[9] == 'r' {
        17
    } else {
        20
    };
    assert(one =~= line.subrange(size, line.len() - 6));
    assert(other =~= line.subrange(size, line.len() - 6));
}

/// The scope a commit creates, if it is a creation commit.
pub open spec fn created_scope(description: Text) -> Option<Text> {
    if exists|scope: Text| creates(description, scope) {
        Some(choose|scope: Text| creates(description, scope))
    } else {
        None
    }
}

fn first_line_of(text: &str) -> (line: Option<String>)
    ensures
        opt_text(line) == first_line(text@),
{
    if text.is_empty() {
        return None;
    }
    let size: usize = text.unicode_len();
    let end: usize = find_char(text, '\n');
    proof {
        lemma_first_index(text@, '\n');
    }
    if end == size {
        Some(text.to_owned())
    } else if end > 0 && text.get_char(end - 1) == '\r' {
        Some(text.substring_char(0, end - 1).to_owned())
    } else {
        Some(text.substring_char(0, end).to_owned())
    }
}

/// The scope that a first line names between `prefix` and the closing words.
fn scope_worded_with(line: &str, prefix: &str) -> (scope: Option<String>)
    ensures
        scope matches Some(scope) ==> names_a_scope(scope@) && line@ == worded(prefix@, scope@),
        scope is None ==> forall|name: Text|
            names_a_scope(name) ==> line@ != #[trigger] worded(prefix@, name),
{
    match strip_prefix(line, prefix) {
        None => {
            proof {
                assert forall|name: Text| names_a_scope(name) implies line@ != #[trigger] worded(
                    prefix@,
                    name,
                ) by {
                    let whole = worded(prefix@, name);
                    assert(whole.subrange(0, prefix@.len() as int) =~= prefix@);
                }
            }
            None
        },
        Some(rest) => {
            proof {
                assert forall|name: Text| line@ == #[trigger] worded(prefix@, name) implies rest@
                    == name + CREATION_SUFFIX@ by {
                    assert(rest@ =~= line@.skip(prefix@.len() as int));
                    assert(worded(prefix@, name).skip(prefix@.len() as int) =~= name
                        + CREATION_SUFFIX@);
                }
            }
            match strip_suffix(rest.as_str(), CREATION_SUFFIX) {
                None => {
                    proof {
                        assert forall|name: Text| names_a_scope(name) implies line@
                            != #[trigger] worded(prefix@, name) by {
                            let tail = name + CREATION_SUFFIX@;
                            assert(tail.subrange(
                                tail.len() - CREATION_SUFFIX@.len(),
                                tail.len() as int,
                            ) =~= CREATION_SUFFIX@);
                        }
                    }
                    None
                },
                Some(name) => {
                    proof {
                        lemma_first_index(name@, ' ');
                        assert(line@ =~= worded(prefix@, name@));
                        assert forall|other: Text| line@ == #[trigger] worded(prefix@, other) implies
                            other == name@ by {
                            let tail = other + CREATION_SUFFIX@;
                            assert(other =~= rest@.take(rest@.len() - CREATION_SUFFIX@.len()));
                            assert(name@ =~= rest@.take(rest@.len() - CREATION_SUFFIX@.len()));
                        }
                    }
                    if !name.as_str().is_empty() && find_char(name.as_str(), ' ')
                        == name.as_str().unicode_len() {
                        Some(name)
                    } else {
                        None
                    }
                },
            }
        },
    }
}

/// The scope a commit creates, if it is a creation commit.
///
/// Every wording that dotsync has written is read: repos in the field hold all
/// of them, and what history already says cannot be rewritten.
pub fn scope_created_by(description: &str) -> (scope: Option<String>)
    ensures
        opt_text(scope) == created_scope(description@),
        scope matches Some(scope) ==> creates(description@, scope@),
        scope is None ==> forall|name: Text| !#[trigger] creates(description@, name),
{
    match first_line_of(description) {
        None => None,
        Some(line) => {
            let mut found = scope_worded_with(line.as_str(), CREATE_PREFIX);
            if found.is_none() {
                found = scope_worded_with(line.as_str(), REBUILD_PREFIX);
            }
            if found.is_none() {
                found = scope_worded_with(line.as_str(), INITIALIZE_PREFIX);
            }
            proof {
                if found is Some {
                    let scope = found->0@;
                    assert(creates(description@, scope));
                    let chosen = choose|name: Text| creates(description@, name);
                    lemma_creates_one_scope(description@, scope, chosen);
                }
            }
            found
        },
    }
}

/// The first line a scope's creation commit carries.
pub fn creation_subject(scope: &str) -> (subject: String)
    ensures
        subject@ == worded(CREATE_PREFIX@, scope@),
{
    cat3(CREATE_PREFIX, scope, CREATION_SUFFIX)
}

/// The whole description of the commit that creates `scope`.
pub open spec fn described(scope: Text, description: Option<Text>) -> Text {
    match description {
        Some(text) if trimmed(text).len() > 0 => worded(CREATE_PREFIX@, scope) + "\n\n"@ + trimmed(
            text,
        ),
        _ => worded(CREATE_PREFIX@, scope),
    }
}

/// The commit description a run writes when it creates a scope.
pub fn creation_description(scope: &str, description: Option<&str>) -> (text: String)
    ensures
        text@ == described(scope@, opt_str(description)),
{
    let subject = creation_subject(scope);
    match description {
        Some(text) => {
            let body = trim(text);
            if body.as_str().is_empty() {
                subject
            } else {
                cat3(subject.as_str(), "\n\n", body.as_str())
            }
        },
        None => subject,
    }
}

/// What a creation commit says its scope is for: everything below its first
/// line, where that is more than white space.
pub open spec fn body_of(description: Text) -> Option<Text> {
    let end = first_index(description, '\n');
    if end == description.len() {
        None
    } else {
        let body = trimmed(description.skip(end + 1));
        if body.len() == 0 {
            None
        } else {
            Some(body)
        }
    }
}

/// What a creation commit says its scope is for.
pub fn description_body(description: &str) -> (body: Option<String>)
    ensures
        opt_text(body) == body_of(description@),
{
    let size: usize = description.unicode_len();
    let end: usize = find_char(description, '\n');
    proof {
        lemma_first_index(description@, '\n');
    }
    if end == size {
        None
    } else {
        let rest = description.substring_char(end + 1, size);
        proof {
            assert(rest@ =~= description@.skip(end + 1));
        }
        let body = trim(rest);
        if body.as_str().is_empty() {
            None
        } else {
            Some(body)
        }
    }
}

/// Text that neither starts nor finishes with white space is its own trim.
proof fn lemma_trimmed_twice(text: Text)
    ensures
        trimmed(trimmed(text)) == trimmed(text),
        trimmed(seq!['\n'] + trimmed(text)) == trimmed(text),
{
    let start = trimmed_start(text);
    lemma_trimmed_start_stops(text);
    lemma_trimmed_end_keeps_front(start);
    lemma_trimmed_end_stops(start);
    let whole = trimmed(text);
    assert(trimmed_start(whole) == whole);
    let more = seq!['\n'] + whole;
    assert(more.skip(1) =~= whole);
    assert(trimmed_start(more) == trimmed_start(whole));
}

proof fn lemma_trimmed_start_stops(text: Text)
    ensures
        trimmed_start(text).len() > 0 ==> !white_space(trimmed_start(text)[0]),
    decreases text.len(),
{
    if text.len() > 0 && white_space(text[0]) {
        lemma_trimmed_start_stops(text.skip(1));
    }
}

proof fn lemma_trimmed_end_stops(text: Text)
    ensures
        trimmed_end(trimmed_end(text)) == trimmed_end(text),
    decreases text.len(),
{
    if text.len() > 0 && white_space(text.last()) {
        lemma_trimmed_end_stops(text.drop_last());
    }
}

proof fn lemma_trimmed_end_keeps_front(text: Text)
    ensures
        trimmed_end(text).len() > 0 ==> text.len() > 0 && trimmed_end(text)[0] == text[0],
    decreases text.len(),
{
    if text.len() > 0 && white_space(text.last()) {
        lemma_trimmed_end_keeps_front(text.drop_last());
    }
}

/// What a run writes when it creates a scope is read back as the creation of
/// that scope, and of no other.
pub proof fn law_creation_is_read_back(scope: Text, description: Option<Text>)
    requires
        names_a_scope(scope),
        !scope.contains('\n'),
    ensures
        creates(described(scope, description), scope),
        created_scope(described(scope, description)) == Some(scope),
{
    reveal_strlit("dotsync: create ");
    reveal_strlit(" scope");
    reveal_strlit("\n\n");
    let subject = worded(CREATE_PREFIX@, scope);
    let whole = described(scope, description);
    assert forall|i: int| 0 <= i < subject.len() implies subject[i] != '\n' by {
        if 16 <= i < 16 + scope.len() {
            assert(subject[i] == scope[i - 16]);
        }
    }
    if whole == subject {
        lemma_first_index_is(whole, '\n', whole.len() as int);
    } else {
        lemma_first_index_is(whole, '\n', subject.len() as int);
        assert(whole.take(subject.len() as int) =~= subject);
        assert(subject.last() == 'e');
    }
    assert(creates(whole, scope));
    let chosen = choose|name: Text| creates(whole, name);
    lemma_creates_one_scope(whole, scope, chosen);
}

/// Every wording that dotsync has written of a creation is read as the creation of
/// the scope it names, whatever stands below the first line.
pub proof fn law_every_wording_is_read(scope: Text, below: Text)
    requires
        scope.len() > 0,
        !scope.contains(' '),
        !scope.contains('\n'),
    ensures
        created_scope("dotsync: create "@ + scope + " scope"@ + "\n"@ + below) == Some(scope),
        created_scope("dotsync: rebuild "@ + scope + " scope"@ + "\n"@ + below) == Some(scope),
        created_scope("dotsync: initialize "@ + scope + " scope"@ + "\n"@ + below) == Some(scope),
        created_scope("dotsync: create "@ + scope + " scope"@) == Some(scope),
        created_scope("dotsync: rebuild "@ + scope + " scope"@) == Some(scope),
        created_scope("dotsync: initialize "@ + scope + " scope"@) == Some(scope),
{
    reveal_strlit("dotsync: create ");
    reveal_strlit("dotsync: rebuild ");
    reveal_strlit("dotsync: initialize ");
    lemma_wording_is_read("dotsync: create "@, scope, below);
    lemma_wording_is_read("dotsync: rebuild "@, scope, below);
    lemma_wording_is_read("dotsync: initialize "@, scope, below);
}

proof fn lemma_wording_is_read(prefix: Text, scope: Text, below: Text)
    requires
        names_a_scope(scope),
        !scope.contains('\n'),
        !prefix.contains('\n'),
        prefix == CREATE_PREFIX@ || prefix == REBUILD_PREFIX@ || prefix == INITIALIZE_PREFIX@,
    ensures
        created_scope(prefix + scope + " scope"@ + "\n"@ + below) == Some(scope),
        created_scope(prefix + scope + " scope"@) == Some(scope),
{
    reveal_strlit(" scope");
    reveal_strlit("\n");
    let subject = prefix + scope + " scope"@;
    let whole = subject + "\n"@ + below;
    assert forall|i: int| 0 <= i < subject.len() implies subject[i] != '\n' by {
        if i < prefix.len() {
            assert(subject[i] == prefix[i]);
            assert(prefix.contains(prefix[i]));
        } else if i < prefix.len() + scope.len() {
            assert(subject[i] == scope[i - prefix.len()]);
            assert(scope.contains(scope[i - prefix.len()]));
        }
    }
    lemma_first_index_is(subject, '\n', subject.len() as int);
    lemma_first_index_is(whole, '\n', subject.len() as int);
    assert(whole.take(subject.len() as int) =~= subject);
    assert(subject.last() == 'e');
    assert(creates(subject, scope));
    assert(creates(whole, scope));
    lemma_creates_one_scope(whole, scope, choose|name: Text| creates(whole, name));
    lemma_creates_one_scope(subject, scope, choose|name: Text| creates(subject, name));
}

/// The description given to a new scope is what is later read as its purpose,
/// without the white space around it.
pub proof fn law_description_is_read_back(scope: Text, description: Option<Text>)
    requires
        !scope.contains('\n'),
    ensures
        body_of(described(scope, description)) == match description {
            Some(text) if trimmed(text).len() > 0 => Some(trimmed(text)),
            _ => None::<Text>,
        },
{
    reveal_strlit("dotsync: create ");
    reveal_strlit(" scope");
    reveal_strlit("\n\n");
    let subject = worded(CREATE_PREFIX@, scope);
    let whole = described(scope, description);
    assert forall|i: int| 0 <= i < subject.len() implies subject[i] != '\n' by {
        if 16 <= i < 16 + scope.len() {
            assert(subject[i] == scope[i - 16]);
        }
    }
    match description {
        Some(text) if trimmed(text).len() > 0 => {
            lemma_first_index_is(whole, '\n', subject.len() as int);
            lemma_trimmed_twice(text);
            assert(whole.skip(subject.len() as int + 1) =~= seq!['\n'] + trimmed(text));
        },
        _ => {
            lemma_first_index_is(whole, '\n', whole.len() as int);
        },
    }
}

} // verus!
