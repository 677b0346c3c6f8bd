//! Paths, as texts whose parts are separated by `/`.
//!
//! Two paths are the same when their components are: repeated separators, a
//! separator at the end and a `.` that does not lead are not components.
use vstd::prelude::*;
use vstd::string::*;
use crate::order::{lex_before, lemma_lex_order, lemma_text_order, name_before, strict_total, text_before};
use crate::seqs::{lemma_filter_holds, lemma_filter_step, lemma_take_all};
use crate::text::{
    cat2, cat3, chars_of, first_index, joined, join, lemma_first_index, lemma_first_index_is,
    lemma_texts_push, same_text, texts, Text,
};

verus! {

/// A path as contracts see it: its components in order. The root is the
/// component `/`, and a leading `.` is the component `.`.
pub type Components = Seq<Text>;

/// The parts of a text between its `/`s.
pub open spec fn segments(text: Text) -> Seq<Text>
    decreases text.len(),
    via segments_decreases
{
    let at = first_index(text, '/');
    if at >= text.len() {
        seq![text]
    } else {
        seq![text.take(at)] + segments(text.skip(at + 1))
    }
}

#[via_fn]
proof fn segments_decreases(text: Text) {
    lemma_first_index(text, '/');
}

/// Whether a segment of a path is a component wherever it stands.
pub open spec fn is_component(segment: Text) -> bool {
    segment.len() > 0 && segment != "."@
}

/// The components of a path.
pub open spec fn components(text: Text) -> Components {
    let parts = segments(text);
    let lead = if text.len() > 0 && text[0] == '/' {
        seq!["/"@]
    } else if parts[0] == "."@ {
        seq!["."@]
    } else {
        Seq::empty()
    };
    lead + parts.filter(|part: Text| is_component(part))
}

/// A path that dotsync names: in home, in the repo, or on this machine.
#[derive(Debug, Clone)]
pub struct FilePath {
    pub text: String,
}

impl View for FilePath {
    type V = Components;

    open spec fn view(&self) -> Components {
        components(self.text@)
    }
}

fn segments_of(text: &str) -> (parts: Vec<String>)
    ensures
        texts(parts@) == segments(text@),
{
    let chars = chars_of(text);
    let size: usize = chars.len();
    let mut parts: Vec<String> = Vec::new();
    let mut from: usize = 0;
    let mut i: usize = 0;
    proof {
        assert(text@.skip(0) =~= text@);
        assert(texts(parts@) =~= Seq::<Text>::empty());
        assert(segments(text@) =~= texts(parts@) + segments(text@.skip(0)));
    }
    while i < size
        invariant
            size == text@.len(),
            chars@ == text@,
            from <= i <= size,
            forall|j: int| from <= j < i ==> text@[j] != '/',
            segments(text@) == texts(parts@) + segments(text@.skip(from as int)),
        decreases size - i,
    {
        if chars[i] == '/' {
            let part = text.substring_char(from, i).to_owned();
            let ghost before = parts@;
            proof {
                let rest = text@.skip(from as int);
                lemma_first_index_is(rest, '/', i - from);
                assert(rest.take(i - from) =~= part@);
                assert(rest.skip(i - from + 1) =~= text@.skip(i + 1));
            }
            parts.push(part);
            proof {
                lemma_texts_push(before, part);
                assert(texts(before) + (seq![part@] + segments(text@.skip(i + 1))) =~= texts(parts@)
                    + segments(text@.skip(i + 1)));
            }
            from = i + 1;
        }
        i += 1;
    }
    let part = text.substring_char(from, size).to_owned();
    let ghost before = parts@;
    proof {
        let rest = text@.skip(from as int);
        lemma_first_index_is(rest, '/', rest.len() as int);
        assert(rest =~= part@);
    }
    parts.push(part);
    proof {
        lemma_texts_push(before, part);
        assert(texts(before) + seq![part@] =~= texts(parts@));
    }
    parts
}

/// The components of a path.
pub fn components_of(text: &str) -> (found: Vec<String>)
    ensures
        texts(found@) == components(text@),
{
    let parts = segments_of(text);
    let ghost keep = |part: Text| is_component(part);
    let ghost all = segments(text@);
    let mut found: Vec<String> = Vec::new();
    let ghost lead: Seq<Text>;
    proof {
        lemma_first_index(text@, '/');
        assert(all.len() > 0);
        assert(parts@[0]@ == texts(parts@)[0]);
    }
    if !text.is_empty() && text.get_char(0) == '/' {
        found.push("/".to_owned());
        proof {
            lead = seq!["/"@];
        }
    } else if same_text(parts[0].as_str(), ".") {
        found.push(".".to_owned());
        proof {
            lead = seq!["."@];
        }
    } else {
        proof {
            lead = Seq::empty();
        }
    }
    let mut i: usize = 0;
    proof {
        lemma_take_all(all);
        reveal(Seq::filter);
        assert(texts(found@) =~= lead + all.take(0).filter(keep));
    }
    while i < parts.len()
        invariant
            i <= parts.len(),
            all == texts(parts@),
            keep == |part: Text| is_component(part),
            texts(found@) == lead + all.take(i as int).filter(keep),
        decreases parts.len() - i,
    {
        proof {
            lemma_filter_step(all, keep, i as int);
            assert(all[i as int] == parts@[i as int]@);
        }
        if !parts[i].as_str().is_empty() && !same_text(parts[i].as_str(), ".") {
            let ghost before = found@;
            found.push(parts[i].clone());
            proof {
                lemma_texts_push(before, found@.last());
                assert(texts(found@) =~= lead + all.take(i + 1).filter(keep));
            }
        }
        i += 1;
    }
    proof {
        lemma_take_all(all);
    }
    found
}

/// Whether two lists of strings hold the same texts.
fn same_texts(left: &Vec<String>, right: &Vec<String>) -> (same: bool)
    ensures
        same == (texts(left@) == texts(right@)),
{
    if left.len() != right.len() {
        proof {
            assert(texts(left@).len() != texts(right@).len());
        }
        return false;
    }
    let mut i: usize = 0;
    while i < left.len()
        invariant
            left.len() == right.len(),
            i <= left.len(),
            forall|j: int| 0 <= j < i ==> texts(left@)[j] == texts(right@)[j],
        decreases left.len() - i,
    {
        if !same_text(left[i].as_str(), right[i].as_str()) {
            proof {
                assert(texts(left@)[i as int] != texts(right@)[i as int]);
            }
            return false;
        }
        i += 1;
    }
    proof {
        assert(texts(left@) =~= texts(right@));
    }
    true
}

/// Where a component stands among the kinds of components: the root, a leading
/// `.`, a `..`, and everything else.
pub open spec fn component_rank(component: Text) -> int {
    if component == "/"@ {
        0
    } else if component == "."@ {
        1
    } else if component == ".."@ {
        2
    } else {
        3
    }
}

/// The order of components: by kind, and names as names.
pub open spec fn component_before(a: Text, b: Text) -> bool {
    component_rank(a) < component_rank(b) || (component_rank(a) == 3 && component_rank(b) == 3
        && text_before(a, b))
}

/// The order of paths: lexicographic, by component.
pub open spec fn path_before(a: Components, b: Components) -> bool {
    lex_before(a, b, |x: Text, y: Text| component_before(x, y))
}

/// Paths are strictly and totally ordered.
pub proof fn lemma_path_order()
    ensures
        forall|a: Components| !#[trigger] path_before(a, a),
        forall|a: Components, b: Components, c: Components| #[trigger]
            path_before(a, b) && #[trigger] path_before(b, c) ==> path_before(a, c),
        forall|a: Components, b: Components|
            a == b || #[trigger] path_before(a, b) || path_before(b, a),
{
    let before = |x: Text, y: Text| component_before(x, y);
    lemma_text_order();
    assert(strict_total(before)) by {
        assert forall|x: Text| !#[trigger] before(x, x) by {}
        assert forall|x: Text, y: Text, z: Text| #[trigger] before(x, y) && #[trigger] before(
            y,
            z,
        ) implies before(x, z) by {
            if component_rank(x) == 3 && component_rank(z) == 3 {
                assert(text_before(x, y) && text_before(y, z));
            }
        }
        assert forall|x: Text, y: Text| x == y || #[trigger] before(x, y) || before(y, x) by {
            if component_rank(x) == 3 && component_rank(y) == 3 && x != y {
                assert(text_before(x, y) || text_before(y, x));
            }
        }
    }
    lemma_lex_order(before);
    assert forall|a: Components| !#[trigger] path_before(a, a) by {
        assert(!lex_before(a, a, before));
    }
    assert forall|a: Components, b: Components, c: Components| #[trigger]
        path_before(a, b) && #[trigger] path_before(b, c) implies path_before(a, c) by {
        assert(lex_before(a, b, before) && lex_before(b, c, before));
    }
    assert forall|a: Components, b: Components|
        a == b || #[trigger] path_before(a, b) || path_before(b, a) by {
        assert(a == b || lex_before(a, b, before) || lex_before(b, a, before));
    }
}

fn rank_of(component: &str) -> (rank: u8)
    ensures
        rank == component_rank(component@),
{
    proof {
        reveal_strlit("/");
        reveal_strlit(".");
        reveal_strlit("..");
    }
    if same_text(component, "/") {
        0
    } else if same_text(component, ".") {
        1
    } else if same_text(component, "..") {
        2
    } else {
        3
    }
}

fn is_component_before(a: &str, b: &str) -> (is_before: bool)
    ensures
        is_before == component_before(a@, b@),
{
    let left: u8 = rank_of(a);
    let right: u8 = rank_of(b);
    left < right || (left == 3 && right == 3 && name_before(a, b))
}

impl FilePath {
    /// The path that a text names.
    pub fn new(text: &str) -> (path: FilePath)
        ensures
            path.text@ == text@,
    {
        FilePath { text: text.to_owned() }
    }

    /// A copy of the path.
    pub fn copy(&self) -> (path: FilePath)
        ensures
            path == *self,
    {
        FilePath { text: self.text.clone() }
    }

    /// Whether two texts name one path.
    pub fn same(&self, other: &FilePath) -> (same: bool)
        ensures
            same == (self@ == other@),
    {
        let left = components_of(self.text.as_str());
        let right = components_of(other.text.as_str());
        same_texts(&left, &right)
    }

    /// Whether the path comes before another in the order of paths.
    pub fn before(&self, other: &FilePath) -> (is_before: bool)
        ensures
            is_before == path_before(self@, other@),
    {
        let left = components_of(self.text.as_str());
        let right = components_of(other.text.as_str());
        let ghost a = self@;
        let ghost b = other@;
        let mut i: usize = 0;
        proof {
            assert(a.skip(0) =~= a);
            assert(b.skip(0) =~= b);
        }
        while i < left.len() && i < right.len() && same_text(left[i].as_str(), right[i].as_str())
            invariant
                texts(left@) == a,
                texts(right@) == b,
                i <= left.len(),
                i <= right.len(),
                path_before(a, b) == path_before(a.skip(i as int), b.skip(i as int)),
            decreases left.len() - i,
        {
            proof {
                assert(a[i as int] == left@[i as int]@);
                assert(b[i as int] == right@[i as int]@);
                assert(a.skip(i as int).skip(1) =~= a.skip(i + 1));
                assert(b.skip(i as int).skip(1) =~= b.skip(i + 1));
            }
            i += 1;
        }
        if i == right.len() {
            false
        } else if i == left.len() {
            true
        } else {
            proof {
                assert(a.skip(i as int)[0] == left@[i as int]@);
                assert(b.skip(i as int)[0] == right@[i as int]@);
            }
            is_component_before(left[i].as_str(), right[i].as_str())
        }
    }

    /// Whether the path is `prefix` or under it.
    pub fn starts_with(&self, prefix: &FilePath) -> (inside: bool)
        ensures
            inside == prefix@.is_prefix_of(self@),
    {
        let whole = components_of(self.text.as_str());
        let front = components_of(prefix.text.as_str());
        let mut i: usize = 0;
        while i < front.len()
            invariant
                texts(whole@) == self@,
                texts(front@) == prefix@,
                i <= front.len(),
                i <= whole.len(),
                forall|j: int| 0 <= j < i ==> self@[j] == prefix@[j],
            decreases front.len() - i,
        {
            proof {
                assert(prefix@[i as int] == front@[i as int]@);
            }
            if i >= whole.len() || !same_text(front[i].as_str(), whole[i].as_str()) {
                proof {
                    assert(texts(whole@).len() == whole.len());
                    if i < whole.len() {
                        assert(self@[i as int] == whole@[i as int]@);
                        if prefix@.is_prefix_of(self@) {
                            assert(self@.subrange(0, prefix@.len() as int)[i as int]
                                == self@[i as int]);
                        }
                    }
                }
                return false;
            }
            proof {
                assert(self@[i as int] == whole@[i as int]@);
            }
            i += 1;
        }
        proof {
            assert(prefix@ =~= self@.subrange(0, prefix@.len() as int));
        }
        true
    }

    /// Whether the path starts at the root of the file system.
    pub fn is_absolute(&self) -> (absolute: bool)
        ensures
            absolute == (self.text@.len() > 0 && self.text@[0] == '/'),
    {
        !self.text.as_str().is_empty() && self.text.as_str().get_char(0) == '/'
    }
}

/// Whether some components are those of a path: names without `/`, after a
/// root or a `.` where the first of them is one.
pub open spec fn is_path(parts: Components) -> bool {
    forall|k: int|
        0 <= k < parts.len() ==> (k == 0 && (#[trigger] parts[k] == "/"@ || parts[k] == "."@)) || (
        is_component(parts[k]) && !parts[k].contains('/'))
}

/// The text of a path that has these components.
pub open spec fn path_text(parts: Components) -> Text {
    if parts.len() > 0 && parts[0] == "/"@ {
        "/"@ + joined(parts.skip(1), "/"@)
    } else {
        joined(parts, "/"@)
    }
}

proof fn lemma_segments_end(front: Text, last: Text)
    requires
        !last.contains('/'),
    ensures
        segments(front + "/"@ + last) == segments(front).push(last),
    decreases front.len(),
{
    reveal_strlit("/");
    let whole = front + "/"@ + last;
    lemma_first_index(front, '/');
    let at = first_index(front, '/');
    if at < front.len() {
        lemma_first_index_is(whole, '/', at);
        assert(whole.take(at) =~= front.take(at));
        assert(whole.skip(at + 1) =~= front.skip(at + 1) + "/"@ + last);
        lemma_segments_end(front.skip(at + 1), last);
        assert(segments(whole) =~= segments(front).push(last));
    } else {
        lemma_first_index_is(whole, '/', front.len() as int);
        assert(whole.take(front.len() as int) =~= front);
        assert(whole.skip(front.len() as int + 1) =~= last);
        lemma_first_index_is(last, '/', last.len() as int);
        assert(segments(last) == seq![last]);
        assert(segments(whole) =~= segments(front).push(last));
    }
}

proof fn lemma_segments_joined(parts: Seq<Text>)
    requires
        parts.len() > 0,
        forall|k: int| 0 <= k < parts.len() ==> !(#[trigger] parts[k]).contains('/'),
    ensures
        segments(joined(parts, "/"@)) == parts,
    decreases parts.len(),
{
    if parts.len() == 1 {
        lemma_first_index_is(parts[0], '/', parts[0].len() as int);
        assert(segments(parts[0]) =~= parts);
    } else {
        lemma_segments_joined(parts.drop_last());
        lemma_segments_end(joined(parts.drop_last(), "/"@), parts.last());
        assert(parts.drop_last().push(parts.last()) =~= parts);
    }
}

proof fn lemma_filter_all(parts: Seq<Text>, keep: spec_fn(Text) -> bool)
    requires
        forall|k: int| 0 <= k < parts.len() ==> keep(#[trigger] parts[k]),
    ensures
        parts.filter(keep) == parts,
    decreases parts.len(),
{
    reveal(Seq::filter);
    if parts.len() > 0 {
        lemma_filter_all(parts.drop_last(), keep);
        assert(parts.drop_last().push(parts.last()) =~= parts);
    }
}

proof fn lemma_filter_front(first: Text, rest: Seq<Text>, keep: spec_fn(Text) -> bool)
    ensures
        (seq![first] + rest).filter(keep) == if keep(first) {
            seq![first] + rest.filter(keep)
        } else {
            rest.filter(keep)
        },
    decreases rest.len(),
{
    reveal(Seq::filter);
    let whole = seq![first] + rest;
    if rest.len() == 0 {
        let none = Seq::<Text>::empty();
        assert(whole.drop_last() =~= none);
        assert(rest =~= none);
        assert(none.filter(keep) == none);
        assert(whole.last() == first);
        assert(whole.filter(keep) =~= if keep(first) {
            seq![first] + rest.filter(keep)
        } else {
            rest.filter(keep)
        });
    } else {
        assert(whole.drop_last() =~= seq![first] + rest.drop_last());
        lemma_filter_front(first, rest.drop_last(), keep);
        assert(whole.last() == rest.last());
        assert(whole.filter(keep) =~= if keep(first) {
            seq![first] + rest.filter(keep)
        } else {
            rest.filter(keep)
        });
    }
}

proof fn lemma_nothing(keep: spec_fn(Text) -> bool)
    ensures
        segments(Seq::empty()) == seq![Seq::<char>::empty()],
        !keep(Seq::empty()) ==> seq![Seq::<char>::empty()].filter(keep) == Seq::<Text>::empty(),
{
    let nothing = Seq::<char>::empty();
    lemma_first_index_is(nothing, '/', 0);
    lemma_filter_front(nothing, Seq::empty(), keep);
    assert(seq![nothing] + Seq::<Text>::empty() =~= seq![nothing]);
    reveal(Seq::filter);
}

proof fn lemma_rooted_text(rest: Seq<Text>)
    requires
        forall|k: int|
            0 <= k < rest.len() ==> is_component(#[trigger] rest[k]) && !rest[k].contains('/'),
    ensures
        components("/"@ + joined(rest, "/"@)) == seq!["/"@] + rest,
{
    reveal_strlit("/");
    let keep = |part: Text| is_component(part);
    let text = "/"@ + joined(rest, "/"@);
    let nothing = Seq::<char>::empty();
    lemma_first_index_is(text, '/', 0);
    assert(text.take(0) =~= nothing);
    assert(text.skip(1) =~= joined(rest, "/"@));
    assert(segments(text) == seq![nothing] + segments(joined(rest, "/"@)));
    lemma_filter_front(nothing, segments(joined(rest, "/"@)), keep);
    assert(!keep(nothing));
    if rest.len() == 0 {
        lemma_nothing(keep);
        assert(segments(text).filter(keep) =~= rest);
    } else {
        lemma_segments_joined(rest);
        lemma_filter_all(rest, keep);
        assert(segments(text).filter(keep) == rest);
    }
    assert(components(text) == seq!["/"@] + segments(text).filter(keep));
}

proof fn lemma_relative_text(parts: Seq<Text>)
    requires
        parts.len() > 0,
        is_path(parts),
        parts[0] != "/"@,
    ensures
        components(joined(parts, "/"@)) == parts,
{
    reveal_strlit(".");
    let keep = |part: Text| is_component(part);
    let text = joined(parts, "/"@);
    assert forall|k: int| 0 <= k < parts.len() implies !(#[trigger] parts[k]).contains('/') by {}
    lemma_segments_joined(parts);
    lemma_joined_front(parts);
    assert(parts[0][0] != '/') by {
        assert(!parts[0].contains('/'));
    }
    if parts[0] == "."@ {
        let rest = parts.skip(1);
        assert(parts =~= seq![parts[0]] + rest);
        lemma_filter_front(parts[0], rest, keep);
        assert forall|k: int| 0 <= k < rest.len() implies keep(#[trigger] rest[k]) by {
            assert(rest[k] == parts[k + 1]);
        }
        lemma_filter_all(rest, keep);
        assert(components(text) == seq!["."@] + parts.filter(keep));
    } else {
        assert forall|k: int| 0 <= k < parts.len() implies keep(#[trigger] parts[k]) by {}
        lemma_filter_all(parts, keep);
        assert(components(text) =~= parts);
    }
}

/// The text that is made of components has those components.
pub proof fn lemma_path_text(parts: Components)
    requires
        is_path(parts),
    ensures
        components(path_text(parts)) == parts,
{
    if parts.len() == 0 {
        reveal_strlit(".");
        let keep = |part: Text| is_component(part);
        lemma_nothing(keep);
        assert(components(path_text(parts)) =~= parts);
    } else if parts[0] == "/"@ {
        let rest = parts.skip(1);
        assert forall|k: int| 0 <= k < rest.len() implies is_component(#[trigger] rest[k])
            && !rest[k].contains('/') by {
            assert(rest[k] == parts[k + 1]);
        }
        lemma_rooted_text(rest);
        assert(seq!["/"@] + rest =~= parts);
    } else {
        lemma_relative_text(parts);
    }
}

proof fn lemma_joined_front(parts: Seq<Text>)
    requires
        parts.len() > 0,
        parts[0].len() > 0,
    ensures
        joined(parts, "/"@).len() > 0,
        joined(parts, "/"@)[0] == parts[0][0],
    decreases parts.len(),
{
    if parts.len() > 1 {
        lemma_joined_front(parts.drop_last());
    }
}

proof fn lemma_segments_plain(text: Text)
    ensures
        segments(text).len() > 0,
        forall|k: int|
            0 <= k < segments(text).len() ==> !(#[trigger] segments(text)[k]).contains('/'),
    decreases text.len(),
{
    lemma_first_index(text, '/');
    let at = first_index(text, '/');
    if at < text.len() {
        lemma_segments_plain(text.skip(at + 1));
        assert forall|k: int| 0 <= k < segments(text).len() implies !(
        #[trigger] segments(text)[k]).contains('/') by {
            if k > 0 {
                assert(segments(text)[k] == segments(text.skip(at + 1))[k - 1]);
            }
        }
    }
}

/// The components of any text are those of a path.
pub proof fn lemma_components_are_path(text: Text)
    ensures
        is_path(components(text)),
{
    let keep = |part: Text| is_component(part);
    let parts = segments(text);
    lemma_segments_plain(text);
    lemma_filter_holds(parts, keep);
    let found = components(text);
    let kept = parts.filter(keep);
    assert forall|k: int| 0 <= k < kept.len() implies is_component(#[trigger] kept[k])
        && !kept[k].contains('/') by {
        assert(kept.contains(kept[k]));
        let m = choose|m: int| 0 <= m < parts.len() && parts[m] == kept[k];
        assert(!parts[m].contains('/'));
    }
    assert forall|k: int| 0 <= k < found.len() implies (k == 0 && (#[trigger] found[k] == "/"@
        || found[k] == "."@)) || (is_component(found[k]) && !found[k].contains('/')) by {
        let lead = found.len() - kept.len();
        if k >= lead {
            assert(found[k] == kept[k - lead]);
        }
    }
}

/// The path that has these components.
pub fn path_of(parts: Vec<String>) -> (path: FilePath)
    requires
        is_path(texts(parts@)),
    ensures
        path@ == texts(parts@),
        path.text@ == path_text(texts(parts@)),
{
    let ghost all = texts(parts@);
    proof {
        lemma_path_text(all);
    }
    if parts.len() > 0 && same_text(parts[0].as_str(), "/") {
        let mut rest: Vec<String> = Vec::new();
        let mut i: usize = 1;
        while i < parts.len()
            invariant
                1 <= i <= parts.len(),
                rest.len() == i - 1,
                forall|j: int| 0 <= j < i - 1 ==> (#[trigger] rest@[j])@ == parts@[j + 1]@,
            decreases parts.len() - i,
        {
            rest.push(parts[i].clone());
            i += 1;
        }
        proof {
            assert(texts(rest@) =~= all.skip(1));
            assert(all[0] == parts@[0]@);
        }
        let tail = join(&rest, "/");
        FilePath { text: cat2("/", tail.as_str()) }
    } else {
        proof {
            if parts.len() > 0 {
                assert(all[0] == parts@[0]@);
            }
        }
        FilePath { text: join(&parts, "/") }
    }
}

/// A path without its `.` components.
pub open spec fn normal(parts: Components) -> Components {
    parts.filter(|part: Text| part != "."@)
}

/// Whether two texts are one path typed in two ways: with a `/` behind it, or
/// with `./` before it.
pub open spec fn typed_alike(one: Text, other: Text) -> bool {
    ||| one == other
    ||| (other.len() > 0 && one == other + "/"@)
    ||| ((other.len() == 0 || other[0] != '/') && one == "./"@ + other)
}

/// A path is the same path with a `/` behind it, and so is one that does not
/// start at the root with `./` before it.
pub proof fn law_typed_alike_is_one_path(one: Text, other: Text)
    requires
        typed_alike(one, other),
    ensures
        normal(components(one)) == normal(components(other)),
{
    let keep = |part: Text| is_component(part);
    let parts = segments(other);
    lemma_first_index(other, '/');
    assert(parts.len() > 0);
    if other.len() > 0 && one == other + "/"@ {
        let nothing = Seq::<char>::empty();
        lemma_segments_end(other, nothing);
        assert(other + "/"@ + nothing =~= one);
        assert(parts.push(nothing).filter(keep) == parts.filter(keep)) by {
            reveal(Seq::filter);
            assert(parts.push(nothing).drop_last() =~= parts);
        }
        assert(segments(one)[0] == parts[0]);
        assert(one[0] == other[0]);
        assert(components(one) == components(other));
    } else if one != other {
        reveal_strlit(".");
        reveal_strlit("./");
        let here = "."@;
        let stays = |part: Text| part != "."@;
        lemma_first_index_is(one, '/', 1);
        assert(one.take(1) =~= here);
        assert(one.skip(2) =~= other);
        assert(segments(one) == seq![here] + parts);
        lemma_filter_front(here, parts, keep);
        let named = parts.filter(keep);
        assert(components(one) == seq![here] + named);
        lemma_filter_front(here, named, stays);
        assert(normal(components(one)) == normal(named));
        if parts[0] == here {
            assert(components(other) == seq![here] + named);
        } else {
            assert(components(other) =~= named);
        }
    }
}

/// A path without its `.` components is one.
pub proof fn lemma_normal_is_path(parts: Components)
    requires
        is_path(parts),
    ensures
        is_path(normal(parts)),
{
    let keep = |part: Text| part != "."@;
    if parts.len() > 0 {
        let rest = parts.skip(1);
        assert(parts =~= seq![parts[0]] + rest);
        lemma_filter_front(parts[0], rest, keep);
        reveal_strlit(".");
        reveal_strlit("/");
        assert forall|k: int| 0 <= k < rest.len() implies keep(#[trigger] rest[k])
            && is_component(rest[k]) && !rest[k].contains('/') by {
            assert(rest[k] == parts[k + 1]);
        }
        lemma_filter_all(rest, keep);
    } else {
        reveal(Seq::filter);
    }
}

impl FilePath {
    /// The path without its `.` components: `./x` names what `x` names.
    pub fn normalised(&self) -> (path: FilePath)
        ensures
            path@ == normal(self@),
            path.text@ == path_text(normal(self@)),
    {
        let all = components_of(self.text.as_str());
        let ghost keep = |part: Text| part != "."@;
        let mut parts: Vec<String> = Vec::new();
        let mut i: usize = 0;
        proof {
            lemma_components_are_path(self.text@);
            lemma_normal_is_path(self@);
            lemma_take_all(self@);
            reveal(Seq::filter);
            assert(texts(parts@) =~= self@.take(0).filter(keep));
        }
        while i < all.len()
            invariant
                i <= all.len(),
                texts(all@) == self@,
                keep == |part: Text| part != "."@,
                texts(parts@) == self@.take(i as int).filter(keep),
            decreases all.len() - i,
        {
            proof {
                lemma_filter_step(self@, keep, i as int);
                assert(self@[i as int] == all@[i as int]@);
            }
            if !same_text(all[i].as_str(), ".") {
                let ghost before = parts@;
                parts.push(all[i].clone());
                proof {
                    lemma_texts_push(before, parts@.last());
                }
            }
            i += 1;
        }
        proof {
            lemma_take_all(self@);
        }
        path_of(parts)
    }

    /// What is left of the path below `base`, if it is `base` or under it.
    pub fn strip_prefix(&self, base: &FilePath) -> (rest: Option<FilePath>)
        ensures
            rest is Some <==> base@.is_prefix_of(self@),
            rest matches Some(rest) ==> self@ == base@ + rest@ && rest.text@ == path_text(rest@),
    {
        if !self.starts_with(base) {
            return None;
        }
        let all = components_of(self.text.as_str());
        let front = components_of(base.text.as_str());
        let mut parts: Vec<String> = Vec::new();
        let mut i: usize = front.len();
        proof {
            assert(texts(front@).len() == front.len());
            assert(texts(all@).len() == all.len());
        }
        while i < all.len()
            invariant
                front.len() <= i <= all.len(),
                parts.len() == i - front.len(),
                forall|j: int|
                    0 <= j < parts.len() ==> (#[trigger] parts@[j])@ == all@[front.len() + j]@,
            decreases all.len() - i,
        {
            parts.push(all[i].clone());
            i += 1;
        }
        proof {
            assert(texts(parts@) =~= self@.skip(base@.len() as int));
            assert(self@ =~= base@ + texts(parts@));
            lemma_components_are_path(self.text@);
            let rest = texts(parts@);
            assert(is_path(rest)) by {
                assert forall|k: int| 0 <= k < rest.len() implies (k == 0 && (#[trigger] rest[k]
                    == "/"@ || rest[k] == "."@)) || (is_component(rest[k]) && !rest[k].contains(
                    '/',
                )) by {
                    assert(rest[k] == self@[base@.len() + k]);
                }
            }
        }
        Some(path_of(parts))
    }

    /// The path as seen from `self`: `other` under it, or `other` itself where
    /// that starts at the root.
    pub fn join(&self, other: &FilePath) -> (path: FilePath)
        ensures
            path.text@ == joined_path(self.text@, other.text@),
    {
        let base = self.text.as_str();
        if other.is_absolute() {
            other.copy()
        } else if base.is_empty() || base.get_char(base.unicode_len() - 1) == '/' {
            FilePath { text: cat2(base, other.text.as_str()) }
        } else {
            FilePath { text: cat3(base, "/", other.text.as_str()) }
        }
    }
}

/// The text of a path under a base, or of the path itself where that starts at
/// the root.
pub open spec fn joined_path(base: Text, other: Text) -> Text {
    if other.len() > 0 && other[0] == '/' {
        other
    } else if base.len() == 0 || base.last() == '/' {
        base + other
    } else {
        base + "/"@ + other
    }
}

/// The components of each path of a list.
pub open spec fn all_paths(list: Seq<FilePath>) -> Seq<Components> {
    list.map_values(|p: FilePath| p@)
}

/// Whether paths are listed in order, and none of them twice.
pub open spec fn sorted_paths(list: Seq<Components>) -> bool {
    forall|i: int, j: int| 0 <= i < j < list.len() ==> path_before(list[i], list[j])
}

/// Whether a list holds a path.
pub fn contains_path(list: &Vec<FilePath>, path: &FilePath) -> (found: bool)
    ensures
        found == all_paths(list@).contains(path@),
{
    let mut i: usize = 0;
    while i < list.len()
        invariant
            i <= list.len(),
            forall|j: int| 0 <= j < i ==> all_paths(list@)[j] != path@,
        decreases list.len() - i,
    {
        if list[i].same(path) {
            proof {
                assert(all_paths(list@)[i as int] == path@);
            }
            return true;
        }
        i += 1;
    }
    false
}

/// Paths, each entered under its components.
pub open spec fn paired(list: Seq<FilePath>) -> Seq<(FilePath, FilePath)> {
    list.map_values(|p: FilePath| (p, p))
}

/// How a list spells a path: the first of its paths with these components.
pub open spec fn spelled(list: Seq<FilePath>, path: Components) -> Option<FilePath> {
    value_at(paired(list), path)
}

/// A list spells the paths it holds, and each as one of its own.
pub proof fn lemma_spelled(list: Seq<FilePath>, path: Components)
    ensures
        spelled(list, path) is Some <==> all_paths(list).contains(path),
        spelled(list, path) matches Some(found) ==> list.contains(found) && found@ == path,
{
    lemma_value_at(paired(list), path);
    assert(keys(paired(list)) =~= all_paths(list));
    if spelled(list, path) is Some {
        let i = choose|i: int|
            0 <= i < list.len() && (#[trigger] paired(list)[i]).0@ == path && paired(list)[i].1
                == spelled(list, path)->0;
        assert(list[i] == spelled(list, path)->0);
    }
}

/// A sorted list spells each of its paths as that path.
pub proof fn lemma_sorted_spelled(list: Seq<FilePath>, i: int)
    requires
        sorted_paths(all_paths(list)),
        0 <= i < list.len(),
    ensures
        spelled(list, list[i]@) == Some(list[i]),
{
    assert(keys(paired(list)) =~= all_paths(list));
    lemma_sorted_value(paired(list), i);
}

/// An empty list spells nothing.
pub proof fn lemma_nothing_spelled(path: Components)
    ensures
        spelled(Seq::<FilePath>::empty(), path) is None,
{
    lemma_spelled(Seq::<FilePath>::empty(), path);
}

/// How the next path of a list bears on how the paths up to it are spelled.
pub proof fn lemma_spelled_step(list: Seq<FilePath>, i: int, path: Components)
    requires
        0 <= i < list.len(),
    ensures
        spelled(list.take(i + 1), path) == first_of(
            spelled(list.take(i), path),
            if path == list[i]@ {
                Some(list[i])
            } else {
                None
            },
        ),
    decreases i,
{
    let longer = list.take(i + 1);
    let shorter = list.take(i);
    assert(paired(longer).skip(1) =~= paired(longer.skip(1)));
    assert(longer.skip(1) =~= list.skip(1).take(i));
    assert(paired(longer)[0] == (list[0], list[0]));
    if i > 0 {
        assert(paired(shorter).skip(1) =~= paired(shorter.skip(1)));
        assert(shorter.skip(1) =~= list.skip(1).take(i - 1));
        assert(paired(shorter)[0] == (list[0], list[0]));
        lemma_spelled_step(list.skip(1), i - 1, path);
    } else {
        lemma_nothing_spelled(path);
        assert(shorter =~= Seq::<FilePath>::empty());
        assert(longer.skip(1) =~= Seq::<FilePath>::empty());
    }
}

/// The first of two spellings that there is.
pub open spec fn first_of(one: Option<FilePath>, other: Option<FilePath>) -> Option<FilePath> {
    if one is Some {
        one
    } else {
        other
    }
}

/// Whether every path of a list is spelled as its components are.
pub open spec fn plainly_spelled(list: Seq<FilePath>) -> bool {
    forall|i: int| 0 <= i < list.len() ==> (#[trigger] list[i]).text@ == path_text(list[i]@)
}

/// The paths of some entries, as they are spelled.
pub open spec fn entry_names<V>(entries: Seq<(FilePath, V)>) -> Seq<FilePath> {
    entries.map_values(|e: (FilePath, V)| e.0)
}

/// Adds a path to a sorted list, unless it is there.
pub fn insert_path(list: &mut Vec<FilePath>, path: FilePath)
    requires
        sorted_paths(all_paths(old(list)@)),
    ensures
        sorted_paths(all_paths(final(list)@)),
        forall|p: Components| #[trigger]
            all_paths(final(list)@).contains(p) <==> all_paths(old(list)@).contains(p) || p
                == path@,
        forall|p: Components| #[trigger]
            spelled(final(list)@, p) == first_of(
                spelled(old(list)@, p),
                if p == path@ {
                    Some(path)
                } else {
                    None
                },
            ),
{
    let ghost before = all_paths(list@);
    let mut i: usize = 0;
    proof {
        lemma_path_order();
    }
    while i < list.len() && list[i].before(&path)
        invariant
            i <= list.len(),
            before == all_paths(list@),
            *list == *old(list),
            forall|j: int| 0 <= j < i ==> path_before(#[trigger] before[j], path@),
        decreases list.len() - i,
    {
        i += 1;
    }
    if i < list.len() && list[i].same(&path) {
        proof {
            assert(before[i as int] == path@);
            lemma_spelled(list@, path@);
        }
        return ;
    }
    let ghost listed = list@;
    list.insert(i, path);
    proof {
        let entry = (path, path);
        assert(paired(list@) =~= paired(listed).insert(i as int, entry));
        assert forall|j: int| 0 <= j < i implies (#[trigger] paired(listed)[j]).0@ != path@ by {
            assert(path_before(before[j], path@));
        }
        assert forall|j: int| i <= j < listed.len() implies (#[trigger] paired(listed)[j]).0@
            != path@ by {
            assert(before[j] == listed[j]@);
            if j > i {
                assert(path_before(before[i as int], before[j]));
            }
        }
        assert forall|p: Components| #[trigger] spelled(list@, p) == first_of(
            spelled(listed, p),
            if p == path@ {
                Some(path)
            } else {
                None
            },
        ) by {
            lemma_inserted_value(paired(listed), i as int, entry, p);
            if p == path@ && spelled(listed, p) is Some {
                lemma_spelled(listed, p);
                let k = choose|k: int| 0 <= k < listed.len() && all_paths(listed)[k] == p;
                assert(paired(listed)[k].0@ == path@);
            }
        }
        let after = all_paths(list@);
        assert(after =~= before.insert(i as int, path@));
        assert forall|a: int, b: int| 0 <= a < b < after.len() implies path_before(
            after[a],
            after[b],
        ) by {
            if b == i {
                assert(path_before(before[a], path@));
            } else if a == i {
                assert(path_before(path@, before[i as int]));
                if b > i + 1 {
                    assert(path_before(before[i as int], before[b - 1]));
                }
            } else {
                let c = if a < i {
                    a
                } else {
                    a - 1
                };
                let d = if b < i {
                    b
                } else {
                    b - 1
                };
                assert(path_before(before[c], before[d]));
            }
        }
        assert forall|p: Components| #[trigger] after.contains(p) <==> before.contains(p) || p
            == path@ by {
            assert(after[i as int] == path@);
            if before.contains(p) {
                let k = choose|k: int| 0 <= k < before.len() && before[k] == p;
                assert(after[if k < i {
                    k
                } else {
                    k + 1
                }] == p);
            }
            if after.contains(p) {
                let k = choose|k: int| 0 <= k < after.len() && after[k] == p;
                if k < i {
                    assert(before[k] == p);
                } else if k > i {
                    assert(before[k - 1] == p);
                }
            }
        }
    }
}

/// The paths of some entries.
pub open spec fn keys<V>(entries: Seq<(FilePath, V)>) -> Seq<Components> {
    entries.map_values(|e: (FilePath, V)| e.0@)
}

/// What is entered under a path: the first entry with it.
pub open spec fn value_at<V>(entries: Seq<(FilePath, V)>, path: Components) -> Option<V>
    decreases entries.len(),
{
    if entries.len() == 0 {
        None
    } else if entries[0].0@ == path {
        Some(entries[0].1)
    } else {
        value_at(entries.skip(1), path)
    }
}

/// What is entered under a path.
pub fn find<'a, V>(entries: &'a Vec<(FilePath, V)>, path: &FilePath) -> (found: Option<&'a V>)
    ensures
        match found {
            Some(value) => value_at(entries@, path@) == Some(*value),
            None => value_at(entries@, path@) is None,
        },
{
    let mut i: usize = 0;
    proof {
        assert(entries@.skip(0) =~= entries@);
    }
    while i < entries.len()
        invariant
            i <= entries.len(),
            value_at(entries@, path@) == value_at(entries@.skip(i as int), path@),
        decreases entries.len() - i,
    {
        proof {
            assert(entries@.skip(i as int)[0] == entries@[i as int]);
            assert(entries@.skip(i as int).skip(1) =~= entries@.skip(i + 1));
        }
        if entries[i].0.same(path) {
            return Some(&entries[i].1);
        }
        i += 1;
    }
    None
}

/// A path has an entry when it is among the keys.
pub proof fn lemma_value_at<V>(entries: Seq<(FilePath, V)>, path: Components)
    ensures
        value_at(entries, path) is Some <==> keys(entries).contains(path),
        value_at(entries, path) matches Some(value) ==> exists|i: int|
            0 <= i < entries.len() && (#[trigger] entries[i]).0@ == path && entries[i].1 == value,
    decreases entries.len(),
{
    if entries.len() > 0 {
        let rest = entries.skip(1);
        lemma_value_at(rest, path);
        if entries[0].0@ == path {
            assert(keys(entries)[0] == path);
        } else {
            if keys(entries).contains(path) {
                let k = choose|k: int| 0 <= k < entries.len() && keys(entries)[k] == path;
                assert(keys(rest)[k - 1] == path);
            }
            if keys(rest).contains(path) {
                let k = choose|k: int| 0 <= k < rest.len() && keys(rest)[k] == path;
                assert(keys(entries)[k + 1] == path);
            }
            if value_at(rest, path) is Some {
                let i = choose|i: int|
                    0 <= i < rest.len() && (#[trigger] rest[i]).0@ == path && rest[i].1 == value_at(
                        rest,
                        path,
                    )->0;
                assert(entries[i + 1] == rest[i]);
            }
        }
    }
}

/// In sorted entries each is what is entered under its path.
pub proof fn lemma_sorted_value<V>(entries: Seq<(FilePath, V)>, i: int)
    requires
        sorted_paths(keys(entries)),
        0 <= i < entries.len(),
    ensures
        value_at(entries, entries[i].0@) == Some(entries[i].1),
    decreases i,
{
    lemma_path_order();
    if i > 0 {
        let rest = entries.skip(1);
        assert(keys(rest) =~= keys(entries).skip(1));
        assert forall|a: int, b: int| 0 <= a < b < rest.len() implies path_before(
            keys(rest)[a],
            keys(rest)[b],
        ) by {
            assert(path_before(keys(entries)[a + 1], keys(entries)[b + 1]));
        }
        lemma_sorted_value(rest, i - 1);
        assert(rest[i - 1] == entries[i]);
        assert(path_before(keys(entries)[0], keys(entries)[i]));
    }
}

/// What is entered under a path after an entry was put in.
proof fn lemma_inserted_value<V>(
    entries: Seq<(FilePath, V)>,
    at: int,
    entry: (FilePath, V),
    path: Components,
)
    requires
        0 <= at <= entries.len(),
        forall|j: int| 0 <= j < at ==> (#[trigger] entries[j]).0@ != entry.0@,
        forall|j: int| at <= j < entries.len() ==> (#[trigger] entries[j]).0@ != entry.0@,
    ensures
        value_at(entries.insert(at, entry), path) == if path == entry.0@ {
            Some(entry.1)
        } else {
            value_at(entries, path)
        },
    decreases at,
{
    let more = entries.insert(at, entry);
    if at == 0 {
        assert(more.skip(1) =~= entries);
        if path == entry.0@ {
        } else {
            assert(more[0] == entry);
        }
    } else {
        assert(more[0] == entries[0]);
        assert(more.skip(1) =~= entries.skip(1).insert(at - 1, entry));
        assert forall|j: int| 0 <= j < at - 1 implies (#[trigger] entries.skip(1)[j]).0@
            != entry.0@ by {
            assert(entries.skip(1)[j] == entries[j + 1]);
        }
        assert forall|j: int| at - 1 <= j < entries.skip(1).len() implies (
        #[trigger] entries.skip(1)[j]).0@ != entry.0@ by {
            assert(entries.skip(1)[j] == entries[j + 1]);
        }
        lemma_inserted_value(entries.skip(1), at - 1, entry, path);
    }
}

proof fn lemma_replaced_value<V>(
    entries: Seq<(FilePath, V)>,
    at: int,
    entry: (FilePath, V),
    path: Components,
)
    requires
        0 <= at < entries.len(),
        entries[at].0@ == entry.0@,
        forall|j: int| 0 <= j < at ==> (#[trigger] entries[j]).0@ != entry.0@,
    ensures
        value_at(entries.update(at, entry), path) == if path == entry.0@ {
            Some(entry.1)
        } else {
            value_at(entries, path)
        },
    decreases at,
{
    let more = entries.update(at, entry);
    if at == 0 {
        assert(more.skip(1) =~= entries.skip(1));
    } else {
        assert(more[0] == entries[0]);
        assert(more.skip(1) =~= entries.skip(1).update(at - 1, entry));
        assert forall|j: int| 0 <= j < at - 1 implies (#[trigger] entries.skip(1)[j]).0@
            != entry.0@ by {
            assert(entries.skip(1)[j] == entries[j + 1]);
        }
        lemma_replaced_value(entries.skip(1), at - 1, entry, path);
    }
}

/// Enters a value under a path, in place of what was entered there. A path that
/// is there keeps its spelling.
pub fn put<V>(entries: &mut Vec<(FilePath, V)>, path: FilePath, value: V)
    requires
        sorted_paths(keys(old(entries)@)),
    ensures
        sorted_paths(keys(final(entries)@)),
        forall|p: Components| #[trigger]
            value_at(final(entries)@, p) == if p == path@ {
                Some(value)
            } else {
                value_at(old(entries)@, p)
            },
        forall|p: Components| #[trigger]
            spelled(entry_names(final(entries)@), p) == first_of(
                spelled(entry_names(old(entries)@), p),
                if p == path@ {
                    Some(path)
                } else {
                    None
                },
            ),
{
    let ghost before = entries@;
    let ghost listed = keys(entries@);
    let mut i: usize = 0;
    proof {
        lemma_path_order();
    }
    while i < entries.len() && entries[i].0.before(&path)
        invariant
            i <= entries.len(),
            listed == keys(entries@),
            *entries == *old(entries),
            forall|j: int| 0 <= j < i ==> path_before(#[trigger] listed[j], path@),
        decreases entries.len() - i,
    {
        i += 1;
    }
    proof {
        assert forall|j: int| 0 <= j < i implies (#[trigger] before[j]).0@ != path@ by {
            assert(path_before(listed[j], path@));
        }
    }
    if i < entries.len() && entries[i].0.same(&path) {
        let kept = entries[i].0.copy();
        let ghost entry = (kept, value);
        entries.set(i, (kept, value));
        proof {
            assert(keys(entries@) =~= listed);
            assert(entry_names(entries@) =~= entry_names(before));
            assert(all_paths(entry_names(before)) =~= listed);
            assert(listed[i as int] == path@);
            lemma_spelled(entry_names(before), path@);
            assert forall|p: Components| #[trigger] value_at(entries@, p) == if p == path@ {
                Some(value)
            } else {
                value_at(before, p)
            } by {
                lemma_replaced_value(before, i as int, entry, p);
            }
        }
        return ;
    }
    let ghost entry = (path, value);
    entries.insert(i, (path, value));
    proof {
        let spelling = entry_names(before);
        assert(paired(entry_names(entries@)) =~= paired(spelling).insert(i as int, (path, path)));
        let after = keys(entries@);
        assert(after =~= listed.insert(i as int, path@));
        assert forall|a: int, b: int| 0 <= a < b < after.len() implies path_before(
            after[a],
            after[b],
        ) by {
            if b == i {
                assert(path_before(listed[a], path@));
            } else if a == i {
                assert(path_before(path@, listed[i as int]));
                if b > i + 1 {
                    assert(path_before(listed[i as int], listed[b - 1]));
                }
            } else {
                let c = if a < i {
                    a
                } else {
                    a - 1
                };
                let d = if b < i {
                    b
                } else {
                    b - 1
                };
                assert(path_before(listed[c], listed[d]));
            }
        }
        assert forall|j: int| i <= j < before.len() implies (#[trigger] before[j]).0@ != path@ by {
            assert(listed[j] == before[j].0@);
            if j > i {
                assert(path_before(listed[i as int], listed[j]));
            }
        }
        assert forall|p: Components| #[trigger] value_at(entries@, p) == if p == path@ {
            Some(value)
        } else {
            value_at(before, p)
        } by {
            lemma_inserted_value(before, i as int, entry, p);
        }
        assert forall|j: int| 0 <= j < spelling.len() implies (#[trigger] paired(spelling)[j]).0@
            != path@ by {
            assert(paired(spelling)[j].0 == before[j].0);
        }
        assert forall|p: Components| #[trigger] spelled(entry_names(entries@), p) == first_of(
            spelled(spelling, p),
            if p == path@ {
                Some(path)
            } else {
                None
            },
        ) by {
            lemma_inserted_value(paired(spelling), i as int, (path, path), p);
            lemma_spelled(spelling, p);
            if p == path@ && all_paths(spelling).contains(p) {
                let k = choose|k: int| 0 <= k < spelling.len() && all_paths(spelling)[k] == p;
                assert(paired(spelling)[k].0@ == path@);
            }
        }
    }
}

/// A path joined to a base is the base, the path, and a `/` between them where there
/// is none yet; one that starts at the root stays as it is.
pub proof fn law_a_joined_path_is_under_its_base(base: Text, other: Text)
    ensures
        other.len() > 0 && other[0] == '/' ==> joined_path(base, other) == other,
        !(other.len() > 0 && other[0] == '/') ==> {
            let path = joined_path(base, other);
            let between: nat = if base.len() > 0 && base[base.len() - 1] != '/' {
                1
            } else {
                0
            };
            &&& path.len() == base.len() + between + other.len()
            &&& path.subrange(0, base.len() as int) == base
            &&& path.subrange(path.len() - other.len(), path.len() as int) == other
            &&& between == 1 ==> path[base.len() as int] == '/'
        },
{
    reveal_strlit("/");
    let path = joined_path(base, other);
    if !(other.len() > 0 && other[0] == '/') {
        assert("/"@.len() == 1);
        assert(path.subrange(0, base.len() as int) =~= base);
        assert(path.subrange(path.len() - other.len(), path.len() as int) =~= other);
    }
}

} // verus!
