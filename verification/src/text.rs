//! Searching and editing text, seen as a sequence of characters.

use vstd::prelude::*;
use vstd::string::{StrSliceExecFns, StringExecFns};

verus! {

/// `pattern` stands in `text` from index `at` on.
pub open spec fn occurs_at(text: Seq<char>, pattern: Seq<char>, at: int) -> bool {
    &&& 0 <= at
    &&& at + pattern.len() <= text.len()
    &&& text.subrange(at, at + pattern.len()) == pattern
}

/// `pattern` stands somewhere in `text`.
pub open spec fn contains(text: Seq<char>, pattern: Seq<char>) -> bool {
    exists|at: int| occurs_at(text, pattern, at)
}

/// `at` is the leftmost place where `pattern` stands in `text`.
pub open spec fn is_first(text: Seq<char>, pattern: Seq<char>, at: int) -> bool {
    &&& occurs_at(text, pattern, at)
    &&& forall|earlier: int| occurs_at(text, pattern, earlier) ==> at <= earlier
}

/// The leftmost place where `pattern` stands in `text`, if there is one.
pub open spec fn first(text: Seq<char>, pattern: Seq<char>) -> Option<int> {
    if contains(text, pattern) {
        Some(choose|at: int| is_first(text, pattern, at))
    } else {
        None
    }
}

/// The index just past the line break that ends the line through `at`, or the
/// length of `text` where no line break follows.
pub open spec fn line_end(text: Seq<char>, at: int) -> int
    decreases text.len() - at,
{
    if at >= text.len() {
        text.len() as int
    } else if text[at] == '\n' {
        at + 1
    } else {
        line_end(text, at + 1)
    }
}

/// `text` with `piece` put in before index `at`.
pub open spec fn insert(text: Seq<char>, at: int, piece: Seq<char>) -> Seq<char> {
    text.subrange(0, at) + piece + text.subrange(at, text.len() as int)
}

/// `text` with every occurrence of `from`, taken left to right without overlap,
/// replaced by `to`.
pub open spec fn replaced(text: Seq<char>, from: Seq<char>, to: Seq<char>) -> Seq<char>
    decreases text.len(),
{
    match first(text, from) {
        Some(at) if from.len() > 0 && 0 <= at && at + from.len() <= text.len() => {
            text.subrange(0, at) + to + replaced(
                text.subrange(at + from.len(), text.len() as int),
                from,
                to,
            )
        },
        _ => text,
    }
}

/// Below a place where `pattern` stands there is a leftmost one.
proof fn lemma_leftmost(text: Seq<char>, pattern: Seq<char>, at: int)
    requires
        occurs_at(text, pattern, at),
    ensures
        exists|i: int| is_first(text, pattern, i),
    decreases at,
{
    if exists|earlier: int| occurs_at(text, pattern, earlier) && earlier < at {
        let earlier = choose|earlier: int| occurs_at(text, pattern, earlier) && earlier < at;
        lemma_leftmost(text, pattern, earlier);
    } else {
        assert(is_first(text, pattern, at));
    }
}

/// `first` is the leftmost occurrence, and `None` exactly where there is none.
pub proof fn lemma_first(text: Seq<char>, pattern: Seq<char>)
    ensures
        match first(text, pattern) {
            Some(at) => is_first(text, pattern, at),
            None => !contains(text, pattern),
        },
{
    if contains(text, pattern) {
        let at = choose|at: int| occurs_at(text, pattern, at);
        lemma_leftmost(text, pattern, at);
    }
}

/// The leftmost occurrence is unique.
pub proof fn lemma_first_is(text: Seq<char>, pattern: Seq<char>, at: int)
    requires
        is_first(text, pattern, at),
    ensures
        first(text, pattern) == Some(at),
{
    lemma_first(text, pattern);
    assert(contains(text, pattern));
}

/// The end of a line lies within the text, past `at`, and follows a line break
/// unless it is the end of the text.
pub proof fn lemma_line_end(text: Seq<char>, at: int)
    requires
        0 <= at <= text.len(),
    ensures
        at <= line_end(text, at) <= text.len(),
        line_end(text, at) < text.len() ==> text[line_end(text, at) - 1] == '\n' && at < line_end(
            text,
            at,
        ),
    decreases text.len() - at,
{
    if at < text.len() && text[at] != '\n' {
        lemma_line_end(text, at + 1);
    }
}

/// The characters of `text`, in order.
pub fn chars_of(text: &str) -> (chars: Vec<char>)
    ensures
        chars@ == text@,
{
    let mut chars: Vec<char> = Vec::new();
    for c in it: text.chars()
        invariant
            chars@ == it.seq().take(it.index()),
            it.seq() == text@,
    {
        chars.push(c);
    }
    chars
}

/// Whether `pattern` stands in `text` from index `at` on.
fn matches_at(text: &Vec<char>, pattern: &Vec<char>, at: usize) -> (found: bool)
    requires
        at + pattern@.len() <= text@.len(),
    ensures
        found == occurs_at(text@, pattern@, at as int),
{
    let length: usize = text.len();
    let mut i: usize = 0;
    while i < pattern.len()
        invariant
            i <= pattern@.len(),
            at + pattern@.len() <= length == text@.len(),
            forall|j: int| 0 <= j < i ==> text@[at + j] == pattern@[j],
        decreases pattern@.len() - i,
    {
        if text[at + i] != pattern[i] {
            assert(text@.subrange(at as int, at + pattern@.len())[i as int] != pattern@[i as int]);
            return false;
        }
        i = i + 1;
    }
    assert(text@.subrange(at as int, at + pattern@.len()) =~= pattern@);
    true
}

/// The index of the leftmost occurrence of `pattern` in `text`.
pub fn find(text: &Vec<char>, pattern: &Vec<char>) -> (found: Option<usize>)
    ensures
        match found {
            Some(at) => first(text@, pattern@) == Some(at as int) && at + pattern@.len()
                <= text@.len(),
            None => first(text@, pattern@) is None,
        },
{
    if pattern.len() > text.len() {
        return None;
    }
    let last: usize = text.len() - pattern.len();
    let mut at: usize = 0;
    loop
        invariant
            at <= last,
            last + pattern@.len() == text@.len(),
            forall|j: int| 0 <= j < at ==> !occurs_at(text@, pattern@, j),
        decreases last - at,
    {
        if matches_at(text, pattern, at) {
            proof {
                lemma_first_is(text@, pattern@, at as int);
            }
            return Some(at);
        }
        if at == last {
            return None;
        }
        at = at + 1;
    }
}

/// The index just past the line that `at` lies on.
pub fn find_line_end(text: &Vec<char>, at: usize) -> (end: usize)
    requires
        at <= text@.len(),
    ensures
        end == line_end(text@, at as int),
        end <= text@.len(),
{
    let mut i: usize = at;
    while i < text.len()
        invariant
            at <= i <= text@.len(),
            line_end(text@, at as int) == line_end(text@, i as int),
        decreases text@.len() - i,
    {
        if text[i] == '\n' {
            return i + 1;
        }
        i = i + 1;
    }
    i
}

/// `text` with `piece` put in before the character at index `at`.
pub fn insert_at(text: &str, at: usize, piece: &str) -> (edited: String)
    requires
        at <= text@.len(),
    ensures
        edited@ == insert(text@, at as int, piece@),
{
    let length: usize = text.unicode_len();
    let mut edited: String = text.substring_char(0, at).to_string();
    edited.append(piece);
    edited.append(text.substring_char(at, length));
    edited
}

/// `text` with every occurrence of `from` replaced by `to`, left to right.
pub fn replace(text: &str, from: &str, to: &str) -> (edited: String)
    requires
        from@.len() > 0,
    ensures
        edited@ == replaced(text@, from@, to@),
{
    let pattern: Vec<char> = chars_of(from);
    let mut edited: String = String::new();
    let mut rest: String = text.to_string();
    assert(edited@ + replaced(rest@, from@, to@) =~= replaced(text@, from@, to@));
    loop
        invariant
            pattern@ == from@,
            from@.len() > 0,
            edited@ + replaced(rest@, from@, to@) == replaced(text@, from@, to@),
        decreases rest@.len(),
    {
        let chars: Vec<char> = chars_of(rest.as_str());
        match find(&chars, &pattern) {
            Some(at) => {
                let ghost before = edited@;
                let length: usize = chars.len();
                let step: usize = pattern.len();
                let tail: String = rest.as_str().substring_char(at + step, length).to_string();
                edited.append(rest.as_str().substring_char(0, at));
                edited.append(to);
                assert(edited@ + replaced(tail@, from@, to@) =~= before + replaced(
                    rest@,
                    from@,
                    to@,
                ));
                rest = tail;
            },
            None => {
                edited.append(rest.as_str());
                return edited;
            },
        }
    }
}

/// Where a text starts with what is replaced, its replacement is put there, and the
/// rest is taken for itself.
pub proof fn law_replacing_takes_the_start(from: Seq<char>, to: Seq<char>, rest: Seq<char>)
    requires
        from.len() > 0,
    ensures
        replaced(from + rest, from, to) == to + replaced(rest, from, to),
{
    let text = from + rest;
    assert(text.subrange(0, from.len() as int) =~= from);
    assert(is_first(text, from, 0));
    lemma_first_is(text, from, 0);
    assert(text.subrange(from.len() as int, text.len() as int) =~= rest);
    assert(text.subrange(0, 0) + to =~= to);
}

/// Where a text does not start with what is replaced, its first character stays, and
/// the rest is taken for itself.
pub proof fn law_replacing_keeps_the_first(
    c: char,
    rest: Seq<char>,
    from: Seq<char>,
    to: Seq<char>,
)
    requires
        from.len() > 0,
        !occurs_at(seq![c] + rest, from, 0),
    ensures
        replaced(seq![c] + rest, from, to) == seq![c] + replaced(rest, from, to),
{
    let text = seq![c] + rest;
    lemma_first(rest, from);
    lemma_first(text, from);
    assert forall|i: int| #[trigger] occurs_at(text, from, i) implies i > 0 && occurs_at(
        rest,
        from,
        i - 1,
    ) by {
        assert(rest.subrange(i - 1, i - 1 + from.len()) =~= text.subrange(i, i + from.len()));
    }
    assert forall|i: int| #[trigger] occurs_at(rest, from, i) implies occurs_at(
        text,
        from,
        i + 1,
    ) by {
        assert(rest.subrange(i, i + from.len()) =~= text.subrange(i + 1, i + 1 + from.len()));
    }
    match first(rest, from) {
        Some(at) => {
            assert(occurs_at(text, from, at + 1));
            assert(is_first(text, from, at + 1)) by {
                assert forall|earlier: int| occurs_at(text, from, earlier) implies at + 1
                    <= earlier by {
                    assert(occurs_at(rest, from, earlier - 1));
                }
            }
            lemma_first_is(text, from, at + 1);
            assert(text.subrange(0, at + 1) =~= seq![c] + rest.subrange(0, at));
            assert(text.subrange(at + 1 + from.len(), text.len() as int) =~= rest.subrange(
                at + from.len(),
                rest.len() as int,
            ));
            assert(replaced(text, from, to) =~= seq![c] + replaced(rest, from, to));
        },
        None => {
            if contains(text, from) {
                let i = choose|i: int| occurs_at(text, from, i);
                assert(occurs_at(rest, from, i - 1));
            }
        },
    }
}

/// A start of a text in which nothing that is replaced begins stays as it is.
pub proof fn lemma_replacing_keeps_start(
    start: Seq<char>,
    rest: Seq<char>,
    from: Seq<char>,
    to: Seq<char>,
)
    requires
        from.len() > 0,
        forall|i: int| 0 <= i < start.len() ==> !#[trigger] occurs_at(start + rest, from, i),
    ensures
        replaced(start + rest, from, to) == start + replaced(rest, from, to),
    decreases start.len(),
{
    if start.len() == 0 {
        assert(start + rest =~= rest);
        assert(start + replaced(rest, from, to) =~= replaced(rest, from, to));
    } else {
        let c = start[0];
        let others = start.drop_first();
        let text = start + rest;
        assert(text =~= seq![c] + (others + rest));
        assert(!occurs_at(text, from, 0));
        law_replacing_keeps_the_first(c, others + rest, from, to);
        assert forall|i: int| 0 <= i < others.len() implies !#[trigger] occurs_at(
            others + rest,
            from,
            i,
        ) by {
            if occurs_at(others + rest, from, i) {
                assert((others + rest).subrange(i, i + from.len()) =~= text.subrange(
                    i + 1,
                    i + 1 + from.len(),
                ));
                assert(occurs_at(text, from, i + 1));
            }
        }
        lemma_replacing_keeps_start(others, rest, from, to);
        assert(replaced(text, from, to) =~= start + replaced(rest, from, to));
    }
}

/// A text holds a pattern exactly where it is that pattern with something, or nothing,
/// before and after it, and the leftmost place is no further right than any such place.
pub proof fn law_occurrences_are_splits(
    text: Seq<char>,
    pattern: Seq<char>,
    before: Seq<char>,
    after: Seq<char>,
)
    requires
        text == before + pattern + after,
    ensures
        contains(text, pattern),
        first(text, pattern) matches Some(at) && 0 <= at <= before.len() && text == text.take(at)
            + pattern + text.skip(at + pattern.len()),
{
    let at = before.len() as int;
    assert(text.subrange(at, at + pattern.len()) =~= pattern);
    assert(occurs_at(text, pattern, at));
    lemma_first(text, pattern);
    let found = first(text, pattern)->0;
    assert(is_first(text, pattern, found));
    assert(text =~= text.take(found) + text.subrange(found, found + pattern.len()) + text.skip(
        found + pattern.len(),
    ));
}

/// Where a text holds a pattern, it is that pattern with something, or nothing, before
/// and after it.
pub proof fn law_held_patterns_split(text: Seq<char>, pattern: Seq<char>)
    requires
        contains(text, pattern),
    ensures
        exists|before: Seq<char>, after: Seq<char>| text == #[trigger] (before + pattern + after),
{
    let at = choose|at: int| occurs_at(text, pattern, at);
    let before = text.take(at);
    let after = text.skip(at + pattern.len());
    assert(text =~= before + text.subrange(at, at + pattern.len()) + after);
    assert(text == before + pattern + after);
}

/// A pattern stands at a place exactly where all of it fits there and each of its
/// characters is the one that the text has there.
pub proof fn law_patterns_match_character_by_character(
    text: Seq<char>,
    pattern: Seq<char>,
    at: int,
)
    ensures
        occurs_at(text, pattern, at) <==> 0 <= at && at + pattern.len() <= text.len() && forall|
            i: int,
        |
            0 <= i < pattern.len() ==> text[at + i] == #[trigger] pattern[i],
{
    if occurs_at(text, pattern, at) {
        assert forall|i: int| 0 <= i < pattern.len() implies text[at + i]
            == #[trigger] pattern[i] by {
            assert(text.subrange(at, at + pattern.len())[i] == pattern[i]);
        }
    }
    if 0 <= at && at + pattern.len() <= text.len() && (forall|i: int|
        0 <= i < pattern.len() ==> text[at + i] == #[trigger] pattern[i]) {
        assert(text.subrange(at, at + pattern.len()) =~= pattern);
    }
}

} // verus!
