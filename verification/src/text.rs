//! Texts: the operations on strings that the rest of the library is stated over.
use vstd::prelude::*;
use vstd::string::*;

verus! {

/// A text as contracts see it: its characters in order.
pub type Text = Seq<char>;

/// The contents of each string of a list.
pub open spec fn texts(list: Seq<String>) -> Seq<Text> {
    list.map_values(|s: String| s@)
}

/// The contents of a string that may be missing.
pub open spec fn opt_text(value: Option<String>) -> Option<Text> {
    match value {
        Some(text) => Some(text@),
        None => None,
    }
}

/// The contents of a borrowed text that may be missing.
pub open spec fn opt_str(value: Option<&str>) -> Option<Text> {
    match value {
        Some(text) => Some(text@),
        None => None,
    }
}

/// A string more in a list is its contents more among the texts.
pub proof fn lemma_texts_push(list: Seq<String>, more: String)
    ensures
        texts(list.push(more)) == texts(list).push(more@),
{
    assert(texts(list.push(more)) =~= texts(list).push(more@));
}

/// The characters of a text, for indexed access.
pub fn chars_of(text: &str) -> (chars: Vec<char>)
    ensures
        chars@ == text@,
{
    let mut chars: Vec<char> = Vec::new();
    for c in iter: text.chars()
        invariant
            chars@ =~= iter.seq().take(iter.index()),
            iter.seq() == text@,
    {
        chars.push(c);
    }
    chars
}

/// Whether two texts hold the same characters.
pub fn same_text(left: &str, right: &str) -> (same: bool)
    ensures
        same == (left@ == right@),
{
    left.to_owned() == right.to_owned()
}

/// Whether a list of strings holds a text.
pub fn contains_text(list: &Vec<String>, text: &str) -> (found: bool)
    ensures
        found == texts(list@).contains(text@),
{
    let mut i: usize = 0;
    while i < list.len()
        invariant
            i <= list.len(),
            forall|j: int| 0 <= j < i ==> texts(list@)[j] != text@,
        decreases list.len() - i,
    {
        if same_text(list[i].as_str(), text) {
            proof {
                assert(texts(list@)[i as int] == text@);
            }
            return true;
        }
        i += 1;
    }
    false
}

/// A copy of a list of strings.
pub fn clone_texts(list: &Vec<String>) -> (copy: Vec<String>)
    ensures
        texts(copy@) == texts(list@),
{
    let mut copy: Vec<String> = Vec::new();
    let mut i: usize = 0;
    while i < list.len()
        invariant
            i <= list.len(),
            texts(copy@) =~= texts(list@).take(i as int),
        decreases list.len() - i,
    {
        let ghost before = copy@;
        copy.push(list[i].clone());
        proof {
            lemma_texts_push(before, copy@.last());
        }
        i += 1;
    }
    proof {
        assert(texts(list@).take(list.len() as int) =~= texts(list@));
    }
    copy
}

/// A copy of a string that may be missing.
pub fn clone_opt_text(value: &Option<String>) -> (copy: Option<String>)
    ensures
        opt_text(copy) == opt_text(*value),
{
    match value {
        Some(text) => Some(text.clone()),
        None => None,
    }
}

/// Two texts, one after the other.
pub fn cat2(a: &str, b: &str) -> (joined: String)
    ensures
        joined@ == a@ + b@,
{
    let mut joined = a.to_owned();
    joined.append(b);
    joined
}

/// Three texts, one after the other.
pub fn cat3(a: &str, b: &str, c: &str) -> (joined: String)
    ensures
        joined@ == a@ + b@ + c@,
{
    let mut joined = cat2(a, b);
    joined.append(c);
    joined
}

/// Four texts, one after the other.
pub fn cat4(a: &str, b: &str, c: &str, d: &str) -> (joined: String)
    ensures
        joined@ == a@ + b@ + c@ + d@,
{
    let mut joined = cat3(a, b, c);
    joined.append(d);
    joined
}

/// Five texts, one after the other.
pub fn cat5(a: &str, b: &str, c: &str, d: &str, e: &str) -> (joined: String)
    ensures
        joined@ == a@ + b@ + c@ + d@ + e@,
{
    let mut joined = cat4(a, b, c, d);
    joined.append(e);
    joined
}

/// `parts` with `separator` between each two of them.
pub open spec fn joined(parts: Seq<Text>, separator: Text) -> Text
    decreases parts.len(),
{
    if parts.len() == 0 {
        Seq::empty()
    } else if parts.len() == 1 {
        parts[0]
    } else {
        joined(parts.drop_last(), separator) + separator + parts.last()
    }
}

/// `parts` with `separator` between each two of them.
pub fn join(parts: &Vec<String>, separator: &str) -> (text: String)
    ensures
        text@ == joined(texts(parts@), separator@),
{
    let mut text = String::new();
    let mut i: usize = 0;
    while i < parts.len()
        invariant
            i <= parts.len(),
            text@ == joined(texts(parts@).take(i as int), separator@),
        decreases parts.len() - i,
    {
        if i > 0 {
            text.append(separator);
        }
        text.append(parts[i].as_str());
        proof {
            let before = texts(parts@).take(i as int);
            let after = texts(parts@).take(i as int + 1);
            assert(after.drop_last() =~= before);
            assert(after.last() == parts@[i as int]@);
            if i == 0 {
                assert(text@ =~= parts@[0]@);
            }
        }
        i += 1;
    }
    proof {
        assert(texts(parts@).take(parts.len() as int) =~= texts(parts@));
    }
    text
}

/// The decimal digit for a number below ten.
pub open spec fn digit(n: nat) -> char {
    if n == 0 {
        '0'
    } else if n == 1 {
        '1'
    } else if n == 2 {
        '2'
    } else if n == 3 {
        '3'
    } else if n == 4 {
        '4'
    } else if n == 5 {
        '5'
    } else if n == 6 {
        '6'
    } else if n == 7 {
        '7'
    } else if n == 8 {
        '8'
    } else {
        '9'
    }
}

/// A number in decimal, without leading zeros.
pub open spec fn decimal(n: nat) -> Text
    decreases n,
{
    if n < 10 {
        seq![digit(n)]
    } else {
        decimal(n / 10).push(digit(n % 10))
    }
}

fn digit_text(n: usize) -> (text: &'static str)
    requires
        n < 10,
    ensures
        text@ == seq![digit(n as nat)],
{
    proof {
        reveal_strlit("0");
        reveal_strlit("1");
        reveal_strlit("2");
        reveal_strlit("3");
        reveal_strlit("4");
        reveal_strlit("5");
        reveal_strlit("6");
        reveal_strlit("7");
        reveal_strlit("8");
        reveal_strlit("9");
    }
    let text = if n == 0 {
        "0"
    } else if n == 1 {
        "1"
    } else if n == 2 {
        "2"
    } else if n == 3 {
        "3"
    } else if n == 4 {
        "4"
    } else if n == 5 {
        "5"
    } else if n == 6 {
        "6"
    } else if n == 7 {
        "7"
    } else if n == 8 {
        "8"
    } else {
        "9"
    };
    assert(text@ =~= seq![digit(n as nat)]);
    text
}

/// A number in decimal, without leading zeros.
pub fn decimal_text(n: usize) -> (text: String)
    ensures
        text@ == decimal(n as nat),
    decreases n,
{
    if n < 10 {
        digit_text(n).to_owned()
    } else {
        let mut text = decimal_text(n / 10);
        let last = digit_text(n % 10);
        let ghost front = text@;
        text.append(last);
        proof {
            assert(text@ =~= front.push(digit((n % 10) as nat)));
        }
        text
    }
}

/// Whether `text` begins with `prefix`.
pub open spec fn begins_with(text: Text, prefix: Text) -> bool {
    prefix.len() <= text.len() && text.subrange(0, prefix.len() as int) == prefix
}

/// Whether `text` finishes with `suffix`.
pub open spec fn finishes_with(text: Text, suffix: Text) -> bool {
    suffix.len() <= text.len() && text.subrange(text.len() - suffix.len(), text.len() as int)
        == suffix
}

/// What follows `prefix` in `text`, where `text` begins with it.
pub fn strip_prefix(text: &str, prefix: &str) -> (rest: Option<String>)
    ensures
        rest.is_some() == begins_with(text@, prefix@),
        rest matches Some(rest) ==> text@ == prefix@ + rest@,
{
    let size: usize = text.unicode_len();
    let cut: usize = prefix.unicode_len();
    if cut <= size && same_text(text.substring_char(0, cut), prefix) {
        let rest = text.substring_char(cut, size).to_owned();
        proof {
            assert(text@ =~= prefix@ + rest@);
        }
        Some(rest)
    } else {
        None
    }
}

/// What precedes `suffix` in `text`, where `text` finishes with it.
pub fn strip_suffix(text: &str, suffix: &str) -> (rest: Option<String>)
    ensures
        rest.is_some() == finishes_with(text@, suffix@),
        rest matches Some(rest) ==> text@ == rest@ + suffix@,
{
    let size: usize = text.unicode_len();
    let cut: usize = suffix.unicode_len();
    if cut <= size && same_text(text.substring_char(size - cut, size), suffix) {
        let rest = text.substring_char(0, size - cut).to_owned();
        proof {
            assert(text@ =~= rest@ + suffix@);
        }
        Some(rest)
    } else {
        None
    }
}

/// Where `c` first stands in `text`, its length if nowhere.
pub open spec fn first_index(text: Text, c: char) -> int
    decreases text.len(),
{
    if text.len() == 0 {
        0
    } else if text[0] == c {
        0
    } else {
        1 + first_index(text.skip(1), c)
    }
}

/// What [`first_index`] is.
pub proof fn lemma_first_index(text: Text, c: char)
    ensures
        0 <= first_index(text, c) <= text.len(),
        forall|i: int| 0 <= i < first_index(text, c) ==> text[i] != c,
        first_index(text, c) < text.len() ==> text[first_index(text, c)] == c,
    decreases text.len(),
{
    if text.len() != 0 && text[0] != c {
        lemma_first_index(text.skip(1), c);
        assert forall|i: int| 0 <= i < first_index(text, c) implies text[i] != c by {
            if i > 0 {
                assert(text[i] == text.skip(1)[i - 1]);
            }
        }
    }
}

/// [`first_index`] is the only index with its properties.
pub proof fn lemma_first_index_is(text: Text, c: char, at: int)
    requires
        0 <= at <= text.len(),
        forall|i: int| 0 <= i < at ==> text[i] != c,
        at < text.len() ==> text[at] == c,
    ensures
        first_index(text, c) == at,
{
    lemma_first_index(text, c);
}

/// Where `c` first stands in `text`, its length if nowhere.
pub fn find_char(text: &str, c: char) -> (at: usize)
    ensures
        at == first_index(text@, c),
{
    let chars = chars_of(text);
    let mut i: usize = 0;
    while i < chars.len() && chars[i] != c
        invariant
            i <= chars.len(),
            chars@ == text@,
            forall|j: int| 0 <= j < i ==> text@[j] != c,
        decreases chars.len() - i,
    {
        i += 1;
    }
    proof {
        lemma_first_index_is(text@, c, i as int);
    }
    i
}

/// Whether a character has the Unicode property White_Space.
pub open spec fn white_space(c: char) -> bool {
    ||| '\u{9}' <= c <= '\u{d}'
    ||| c == ' '
    ||| c == '\u{85}'
    ||| c == '\u{a0}'
    ||| c == '\u{1680}'
    ||| '\u{2000}' <= c <= '\u{200a}'
    ||| c == '\u{2028}'
    ||| c == '\u{2029}'
    ||| c == '\u{202f}'
    ||| c == '\u{205f}'
    ||| c == '\u{3000}'
}

fn is_white_space(c: char) -> (white: bool)
    ensures
        white == white_space(c),
{
    ('\u{9}' <= c && c <= '\u{d}') || c == ' ' || c == '\u{85}' || c == '\u{a0}' || c == '\u{1680}'
        || ('\u{2000}' <= c && c <= '\u{200a}') || c == '\u{2028}' || c == '\u{2029}' || c
        == '\u{202f}' || c == '\u{205f}' || c == '\u{3000}'
}

/// `text` without the white space that leads it.
pub open spec fn trimmed_start(text: Text) -> Text
    decreases text.len(),
{
    if text.len() > 0 && white_space(text[0]) {
        trimmed_start(text.skip(1))
    } else {
        text
    }
}

/// `text` without the white space that trails it.
pub open spec fn trimmed_end(text: Text) -> Text
    decreases text.len(),
{
    if text.len() > 0 && white_space(text.last()) {
        trimmed_end(text.drop_last())
    } else {
        text
    }
}

/// `text` without the white space around it.
pub open spec fn trimmed(text: Text) -> Text {
    trimmed_end(trimmed_start(text))
}

/// `text` without the white space around it.
pub fn trim(text: &str) -> (rest: String)
    ensures
        rest@ == trimmed(text@),
{
    let chars = chars_of(text);
    let mut from: usize = 0;
    proof {
        assert(text@.skip(0) =~= text@);
    }
    while from < chars.len() && is_white_space(chars[from])
        invariant
            from <= chars.len(),
            chars@ == text@,
            trimmed_start(text@) == trimmed_start(text@.skip(from as int)),
        decreases chars.len() - from,
    {
        proof {
            let rest = text@.skip(from as int);
            assert(rest.skip(1) =~= text@.skip(from + 1));
            assert(rest[0] == chars@[from as int]);
        }
        from += 1;
    }
    let ghost start = text@.skip(from as int);
    proof {
        if from < chars.len() {
            assert(start[0] == chars@[from as int]);
        }
        assert(trimmed_start(text@) == start);
    }
    let mut to: usize = chars.len();
    proof {
        assert(text@.subrange(from as int, to as int) =~= start);
    }
    while to > from && is_white_space(chars[to - 1])
        invariant
            from <= to <= chars.len(),
            chars@ == text@,
            trimmed_end(start) == trimmed_end(text@.subrange(from as int, to as int)),
        decreases to,
    {
        proof {
            let rest = text@.subrange(from as int, to as int);
            assert(rest.drop_last() =~= text@.subrange(from as int, to - 1));
            assert(rest.last() == chars@[to - 1]);
        }
        to -= 1;
    }
    proof {
        let rest = text@.subrange(from as int, to as int);
        if to > from {
            assert(rest.last() == chars@[to - 1]);
        }
        assert(trimmed_end(start) == rest);
    }
    text.substring_char(from, to).to_owned()
}

/// A list of one string.
pub fn list1(a: String) -> (list: Vec<String>)
    ensures
        texts(list@) == seq![a@],
{
    let mut list: Vec<String> = Vec::new();
    list.push(a);
    proof {
        assert(texts(list@) =~= seq![a@]);
    }
    list
}

/// A list of two strings.
pub fn list2(a: String, b: String) -> (list: Vec<String>)
    ensures
        texts(list@) == seq![a@, b@],
{
    let mut list = list1(a);
    let ghost before = list@;
    list.push(b);
    proof {
        lemma_texts_push(before, b);
        assert(texts(list@) =~= seq![a@, b@]);
    }
    list
}

/// A list of three strings.
pub fn list3(a: String, b: String, c: String) -> (list: Vec<String>)
    ensures
        texts(list@) == seq![a@, b@, c@],
{
    let mut list = list2(a, b);
    let ghost before = list@;
    list.push(c);
    proof {
        lemma_texts_push(before, c);
        assert(texts(list@) =~= seq![a@, b@, c@]);
    }
    list
}

/// A list of four strings.
pub fn list4(a: String, b: String, c: String, d: String) -> (list: Vec<String>)
    ensures
        texts(list@) == seq![a@, b@, c@, d@],
{
    let mut list = list3(a, b, c);
    let ghost before = list@;
    list.push(d);
    proof {
        lemma_texts_push(before, d);
        assert(texts(list@) =~= seq![a@, b@, c@, d@]);
    }
    list
}

/// `text` with `count` in place of each `{n}`.
pub open spec fn with_count(text: Text, count: Text) -> Text
    decreases text.len(),
{
    if text.len() == 0 {
        Seq::empty()
    } else if text.len() >= 3 && text[0] == '{' && text[1] == 'n' && text[2] == '}' {
        count + with_count(text.skip(3), count)
    } else {
        seq![text[0]] + with_count(text.skip(1), count)
    }
}

/// `text` with `count` in place of each `{n}`.
pub fn fill_count(text: &str, count: &str) -> (filled: String)
    ensures
        filled@ == with_count(text@, count@),
{
    let chars = chars_of(text);
    let size: usize = chars.len();
    let mut filled = String::new();
    let mut from: usize = 0;
    let mut i: usize = 0;
    proof {
        assert(text@.skip(0) =~= text@);
        assert(filled@ + text@.subrange(0, 0) + with_count(text@.skip(0), count@) =~= with_count(
            text@,
            count@,
        ));
    }
    while i < size
        invariant
            chars@ == text@,
            size == text@.len(),
            from <= i <= size,
            with_count(text@, count@) == filled@ + text@.subrange(from as int, i as int)
                + with_count(text@.skip(i as int), count@),
        decreases size - i,
    {
        let ghost rest = text@.skip(i as int);
        if size - i >= 3 && chars[i] == '{' && chars[i + 1] == 'n' && chars[i + 2] == '}' {
            let ghost before = filled@;
            filled.append(text.substring_char(from, i));
            filled.append(count);
            proof {
                assert(rest.skip(3) =~= text@.skip(i + 3));
                assert(filled@ + text@.subrange(i + 3, i + 3) + with_count(
                    text@.skip(i + 3),
                    count@,
                ) =~= before + text@.subrange(from as int, i as int) + (count@ + with_count(
                    text@.skip(i + 3),
                    count@,
                )));
            }
            i += 3;
            from = i;
        } else {
            proof {
                assert(rest.skip(1) =~= text@.skip(i + 1));
                assert(filled@ + text@.subrange(from as int, i + 1) + with_count(
                    text@.skip(i + 1),
                    count@,
                ) =~= filled@ + text@.subrange(from as int, i as int) + (seq![rest[0]] + with_count(
                    text@.skip(i + 1),
                    count@,
                )));
            }
            i += 1;
        }
    }
    let ghost before = filled@;
    filled.append(text.substring_char(from, size));
    proof {
        assert(text@.skip(size as int).len() == 0);
        assert(filled@ =~= before + text@.subrange(from as int, size as int) + Seq::<char>::empty());
    }
    filled
}

/// `text` without the characters `c` that trail it.
pub open spec fn without_trailing(text: Text, c: char) -> Text
    decreases text.len(),
{
    if text.len() > 0 && text.last() == c {
        without_trailing(text.drop_last(), c)
    } else {
        text
    }
}

/// `text` without the characters `c` that trail it.
pub fn trim_trailing(text: &str, c: char) -> (rest: String)
    ensures
        rest@ == without_trailing(text@, c),
{
    let chars = chars_of(text);
    let mut to: usize = chars.len();
    proof {
        assert(text@.take(to as int) =~= text@);
    }
    while to > 0 && chars[to - 1] == c
        invariant
            to <= chars.len(),
            chars@ == text@,
            without_trailing(text@, c) == without_trailing(text@.take(to as int), c),
        decreases to,
    {
        proof {
            assert(text@.take(to as int).drop_last() =~= text@.take(to - 1));
            assert(text@.take(to as int).last() == chars@[to - 1]);
        }
        to -= 1;
    }
    proof {
        if to > 0 {
            assert(text@.take(to as int).last() == chars@[to - 1]);
        }
        assert(text@.take(to as int) =~= text@.subrange(0, to as int));
    }
    text.substring_char(0, to).to_owned()
}

/// Adds some strings to a list.
pub fn add_texts(list: &mut Vec<String>, more: &Vec<String>)
    ensures
        texts(final(list)@) == texts(old(list)@) + texts(more@),
{
    let mut i: usize = 0;
    proof {
        assert(texts(list@) =~= texts(old(list)@) + texts(more@).take(0));
    }
    while i < more.len()
        invariant
            i <= more.len(),
            texts(list@) == texts(old(list)@) + texts(more@).take(i as int),
        decreases more.len() - i,
    {
        let ghost before = list@;
        list.push(more[i].clone());
        proof {
            lemma_texts_push(before, list@.last());
            assert(texts(list@) =~= texts(old(list)@) + texts(more@).take(i + 1));
        }
        i += 1;
    }
    proof {
        assert(texts(more@).take(more.len() as int) =~= texts(more@));
    }
}

/// An empty list of strings.
pub fn no_texts() -> (list: Vec<String>)
    ensures
        texts(list@) == Seq::<Text>::empty(),
{
    let list: Vec<String> = Vec::new();
    proof {
        assert(texts(list@) =~= Seq::<Text>::empty());
    }
    list
}

/// Whether a text is nothing but white space.
pub open spec fn is_blank(text: Text) -> bool {
    forall|i: int| 0 <= i < text.len() ==> white_space(#[trigger] text[i])
}

proof fn lemma_trimmed_start(text: Text) -> (before: Text)
    ensures
        text == before + trimmed_start(text),
        is_blank(before),
        trimmed_start(text).len() > 0 ==> !white_space(trimmed_start(text)[0]),
    decreases text.len(),
{
    if text.len() > 0 && white_space(text[0]) {
        let rest = lemma_trimmed_start(text.skip(1));
        let before = seq![text[0]] + rest;
        assert(text =~= seq![text[0]] + text.skip(1));
        assert(text =~= before + trimmed_start(text));
        before
    } else {
        let before: Text = Seq::empty();
        assert(text =~= before + text);
        before
    }
}

proof fn lemma_trimmed_end(text: Text) -> (after: Text)
    ensures
        text == trimmed_end(text) + after,
        is_blank(after),
        trimmed_end(text).len() > 0 ==> !white_space(trimmed_end(text).last()),
    decreases text.len(),
{
    if text.len() > 0 && white_space(text.last()) {
        let rest = lemma_trimmed_end(text.drop_last());
        let after = rest.push(text.last());
        assert(text =~= text.drop_last().push(text.last()));
        assert(text =~= trimmed_end(text) + after);
        after
    } else {
        let after: Text = Seq::empty();
        assert(text =~= text + after);
        after
    }
}

/// Whether a text is another with nothing but white space round it.
pub open spec fn is_round(text: Text, inner: Text) -> bool {
    exists|before: Text, after: Text|
        is_blank(before) && is_blank(after) && text == #[trigger] (before + inner + after)
}

/// Trimming takes the white space round a text, all of it, and nothing else.
pub proof fn law_trimming_takes_white_space_alone(text: Text)
    ensures
        is_round(text, trimmed(text)),
        trimmed(text).len() > 0 ==> !white_space(trimmed(text)[0]) && !white_space(
            trimmed(text).last(),
        ),
        trimmed(text).len() == 0 <==> is_blank(text),
{
    let before = lemma_trimmed_start(text);
    let middle = trimmed_start(text);
    let after = lemma_trimmed_end(middle);
    let inner = trimmed(text);
    assert(text =~= before + inner + after);
    assert(is_round(text, inner));
    if inner.len() > 0 {
        assert(middle[0] == inner[0]);
        assert(text[before.len() as int] == inner[0]);
    } else {
        assert forall|i: int| 0 <= i < text.len() implies white_space(#[trigger] text[i]) by {
            if i < before.len() {
                assert(text[i] == before[i]);
            } else {
                assert(text[i] == after[i - before.len()]);
            }
        }
    }
}

/// The number that a decimal digit stands for.
pub open spec fn digit_value(c: char) -> nat {
    if c == '1' {
        1
    } else if c == '2' {
        2
    } else if c == '3' {
        3
    } else if c == '4' {
        4
    } else if c == '5' {
        5
    } else if c == '6' {
        6
    } else if c == '7' {
        7
    } else if c == '8' {
        8
    } else if c == '9' {
        9
    } else {
        0
    }
}

/// The number that some decimal digits stand for.
pub open spec fn number(digits: Text) -> nat
    decreases digits.len(),
{
    if digits.len() == 0 {
        0
    } else {
        10 * number(digits.drop_last()) + digit_value(digits.last())
    }
}

/// A count reads as itself: its digits stand for it, and no zero leads them.
pub proof fn law_a_count_reads_as_itself(n: nat)
    ensures
        number(decimal(n)) == n,
        decimal(n).len() > 0,
        decimal(n)[0] == '0' ==> n == 0,
        forall|i: int| 0 <= i < decimal(n).len() ==> '0' <= #[trigger] decimal(n)[i] <= '9',
    decreases n,
{
    let text = decimal(n);
    if n < 10 {
        assert(text.drop_last() =~= Seq::<char>::empty());
        assert(number(text.drop_last()) == 0);
    } else {
        law_a_count_reads_as_itself(n / 10);
        assert(text.drop_last() =~= decimal(n / 10));
        assert(digit_value(digit(n % 10)) == n % 10);
        assert(text[0] == decimal(n / 10)[0]);
        assert forall|i: int| 0 <= i < text.len() implies '0' <= #[trigger] text[i] <= '9' by {
            if i < text.len() - 1 {
                assert(text[i] == decimal(n / 10)[i]);
            }
        }
    }
}

/// Joining keeps every part whole and in its place: one part alone is itself, and
/// two lists joined are joined to each other.
pub proof fn law_joining_keeps_every_part(first: Seq<Text>, second: Seq<Text>, separator: Text)
    requires
        first.len() > 0,
        second.len() > 0,
    ensures
        first.len() == 1 ==> joined(first, separator) == first[0],
        joined(first + second, separator) == joined(first, separator) + separator + joined(
            second,
            separator,
        ),
    decreases second.len(),
{
    let all = first + second;
    assert(all.drop_last() =~= first + second.drop_last());
    assert(all.last() == second.last());
    if second.len() == 1 {
        assert(second.drop_last() =~= Seq::<Text>::empty());
        assert(all.drop_last() =~= first);
    } else {
        law_joining_keeps_every_part(first, second.drop_last(), separator);
        assert(joined(all, separator) =~= joined(first, separator) + separator + joined(
            second,
            separator,
        ));
    }
}

} // verus!
