//! The orders that names and paths are listed in.
use vstd::prelude::*;
use crate::text::{chars_of, Text};

verus! {

/// Lexicographic order on sequences, from an order on their items.
pub open spec fn lex_before<T>(a: Seq<T>, b: Seq<T>, before: spec_fn(T, T) -> bool) -> bool
    decreases a.len(),
{
    if b.len() == 0 {
        false
    } else if a.len() == 0 {
        true
    } else if a[0] != b[0] {
        before(a[0], b[0])
    } else {
        lex_before(a.skip(1), b.skip(1), before)
    }
}

/// A strict total order.
pub open spec fn strict_total<T>(before: spec_fn(T, T) -> bool) -> bool {
    &&& forall|x: T| !#[trigger] before(x, x)
    &&& forall|x: T, y: T, z: T| #[trigger] before(x, y) && #[trigger] before(y, z) ==> before(x, z)
    &&& forall|x: T, y: T| x == y || #[trigger] before(x, y) || before(y, x)
}

proof fn lemma_lex_irreflexive<T>(a: Seq<T>, before: spec_fn(T, T) -> bool)
    requires
        strict_total(before),
    ensures
        !lex_before(a, a, before),
    decreases a.len(),
{
    if a.len() > 0 {
        lemma_lex_irreflexive(a.skip(1), before);
    }
}

proof fn lemma_lex_transitive<T>(a: Seq<T>, b: Seq<T>, c: Seq<T>, before: spec_fn(T, T) -> bool)
    requires
        strict_total(before),
        lex_before(a, b, before),
        lex_before(b, c, before),
    ensures
        lex_before(a, c, before),
    decreases a.len(),
{
    if a.len() > 0 {
        if a[0] == b[0] && b[0] == c[0] {
            lemma_lex_transitive(a.skip(1), b.skip(1), c.skip(1), before);
        } else if a[0] != b[0] && b[0] != c[0] {
            assert(before(a[0], c[0]));
            assert(a[0] != c[0]);
        }
    }
}

proof fn lemma_lex_total<T>(a: Seq<T>, b: Seq<T>, before: spec_fn(T, T) -> bool)
    requires
        strict_total(before),
    ensures
        a == b || lex_before(a, b, before) || lex_before(b, a, before),
    decreases a.len(),
{
    if a.len() == 0 || b.len() == 0 {
        if a.len() == 0 && b.len() == 0 {
            assert(a =~= b);
        }
    } else if a[0] == b[0] {
        lemma_lex_total(a.skip(1), b.skip(1), before);
        if a.skip(1) == b.skip(1) {
            assert(a =~= seq![a[0]] + a.skip(1));
            assert(b =~= seq![b[0]] + b.skip(1));
        }
    } else {
        assert(before(a[0], b[0]) || before(b[0], a[0]));
    }
}

/// Lexicographic order by a strict total order is one too.
pub proof fn lemma_lex_order<T>(before: spec_fn(T, T) -> bool)
    requires
        strict_total(before),
    ensures
        forall|a: Seq<T>| !#[trigger] lex_before(a, a, before),
        forall|a: Seq<T>, b: Seq<T>, c: Seq<T>| #[trigger]
            lex_before(a, b, before) && #[trigger] lex_before(b, c, before) ==> lex_before(
                a,
                c,
                before,
            ),
        forall|a: Seq<T>, b: Seq<T>|
            a == b || #[trigger] lex_before(a, b, before) || lex_before(b, a, before),
{
    assert forall|a: Seq<T>| !#[trigger] lex_before(a, a, before) by {
        lemma_lex_irreflexive(a, before);
    }
    assert forall|a: Seq<T>, b: Seq<T>, c: Seq<T>| #[trigger]
        lex_before(a, b, before) && #[trigger] lex_before(b, c, before) implies lex_before(
        a,
        c,
        before,
    ) by {
        lemma_lex_transitive(a, b, c, before);
    }
    assert forall|a: Seq<T>, b: Seq<T>|
        a == b || #[trigger] lex_before(a, b, before) || lex_before(b, a, before) by {
        lemma_lex_total(a, b, before);
    }
}

/// The order of characters: by code point.
pub open spec fn char_before(x: char, y: char) -> bool {
    x < y
}

/// The order of names: lexicographic, by code point.
pub open spec fn text_before(a: Text, b: Text) -> bool {
    lex_before(a, b, |x: char, y: char| char_before(x, y))
}

/// Names are strictly and totally ordered.
pub proof fn lemma_text_order()
    ensures
        forall|a: Text| !#[trigger] text_before(a, a),
        forall|a: Text, b: Text, c: Text| #[trigger]
            text_before(a, b) && #[trigger] text_before(b, c) ==> text_before(a, c),
        forall|a: Text, b: Text| a == b || #[trigger] text_before(a, b) || text_before(b, a),
{
    let before = |x: char, y: char| char_before(x, y);
    assert(strict_total(before));
    lemma_lex_order(before);
    assert forall|a: Text| !#[trigger] text_before(a, a) by {
        assert(!lex_before(a, a, before));
    }
    assert forall|a: Text, b: Text, c: Text| #[trigger]
        text_before(a, b) && #[trigger] text_before(b, c) implies text_before(a, c) by {
        assert(lex_before(a, b, before) && lex_before(b, c, before));
    }
    assert forall|a: Text, b: Text| a == b || #[trigger] text_before(a, b) || text_before(b, a) by {
        assert(a == b || lex_before(a, b, before) || lex_before(b, a, before));
    }
}

/// Whether `a` comes before `b` in the order of names.
pub fn name_before(a: &str, b: &str) -> (is_before: bool)
    ensures
        is_before == text_before(a@, b@),
{
    let left = chars_of(a);
    let right = chars_of(b);
    let mut i: usize = 0;
    proof {
        assert(a@.skip(0) =~= a@);
        assert(b@.skip(0) =~= b@);
    }
    while i < left.len() && i < right.len() && left[i] == right[i]
        invariant
            left@ == a@,
            right@ == b@,
            i <= left.len(),
            i <= right.len(),
            text_before(a@, b@) == text_before(a@.skip(i as int), b@.skip(i as int)),
        decreases left.len() - i,
    {
        proof {
            assert(a@.skip(i as int).skip(1) =~= a@.skip(i + 1));
            assert(b@.skip(i as int).skip(1) =~= b@.skip(i + 1));
        }
        i += 1;
    }
    if i == right.len() {
        false
    } else if i == left.len() {
        true
    } else {
        left[i] < right[i]
    }
}

/// Names in strictly ascending order: alphabetical, and none of them twice.
pub open spec fn ascending(names: Seq<Text>) -> bool {
    forall|i: int, j: int| 0 <= i < j < names.len() ==> text_before(names[i], names[j])
}

/// Ascending names are all different.
pub proof fn lemma_ascending_no_duplicates(names: Seq<Text>)
    requires
        ascending(names),
    ensures
        names.no_duplicates(),
{
    lemma_text_order();
    assert forall|i: int, j: int| 0 <= i < names.len() && 0 <= j < names.len() && i != j implies
        names[i] != names[j] by {
        if i < j {
            assert(text_before(names[i], names[j]));
        } else {
            assert(text_before(names[j], names[i]));
        }
    }
}

} // verus!
