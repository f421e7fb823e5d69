//! White space, words and decimal numerals.

use vstd::prelude::*;
use vstd::string::{StrSliceExecFns, StringExecFns};

use crate::text::chars_of;

verus! {

/// The characters with the Unicode property `White_Space`.
pub open spec fn white(c: char) -> bool {
    ||| '\u{9}' <= c <= '\u{d}'
    ||| c == ' '
    ||| c == '\u{85}'
    ||| c == '\u{a0}'
    ||| c == '\u{1680}'
    ||| '\u{2000}' <= c <= '\u{200a}'
    ||| c == '\u{2028}'
    ||| c == '\u{2029}'
    ||| c == '\u{202f}'
    ||| c == '\u{205f}'
    ||| c == '\u{3000}'
}

/// `text` from its first character that is not white space on.
pub open spec fn trimmed_start(text: Seq<char>) -> Seq<char>
    decreases text.len(),
{
    if text.len() > 0 && white(text[0]) {
        trimmed_start(text.drop_first())
    } else {
        text
    }
}

/// `text` up to its last character that is not white space.
pub open spec fn trimmed_end(text: Seq<char>) -> Seq<char>
    decreases text.len(),
{
    if text.len() > 0 && white(text.last()) {
        trimmed_end(text.drop_last())
    } else {
        text
    }
}

/// `text` without the white space at its two ends.
pub open spec fn trimmed(text: Seq<char>) -> Seq<char> {
    trimmed_end(trimmed_start(text))
}

/// How many characters before the first white space of `text`.
pub open spec fn word_length(text: Seq<char>) -> nat
    decreases text.len(),
{
    if text.len() > 0 && !white(text[0]) {
        1 + word_length(text.drop_first())
    } else {
        0
    }
}

/// The words of `text`: its longest runs of characters that are not white space,
/// in order.
pub open spec fn words(text: Seq<char>) -> Seq<Seq<char>>
    decreases text.len(),
{
    if text.len() == 0 {
        seq![]
    } else if white(text[0]) {
        words(text.drop_first())
    } else if 0 < word_length(text) <= text.len() {
        seq![text.take(word_length(text) as int)] + words(text.skip(word_length(text) as int))
    } else {
        seq![]
    }
}

/// The views of a list of strings.
pub open spec fn texts(list: Seq<String>) -> Seq<Seq<char>> {
    list.map_values(|text: String| text@)
}

/// The numeral of a number below ten.
pub open spec fn digit(number: nat) -> Seq<char> {
    if number == 0 {
        "0"@
    } else if number == 1 {
        "1"@
    } else if number == 2 {
        "2"@
    } else if number == 3 {
        "3"@
    } else if number == 4 {
        "4"@
    } else if number == 5 {
        "5"@
    } else if number == 6 {
        "6"@
    } else if number == 7 {
        "7"@
    } else if number == 8 {
        "8"@
    } else {
        "9"@
    }
}

/// The decimal numeral of `number`, without leading zeros.
pub open spec fn numeral(number: nat) -> Seq<char>
    decreases number,
{
    if number < 10 {
        digit(number)
    } else {
        numeral(number / 10) + digit(number % 10)
    }
}

/// Whether `c` is white space.
pub fn is_white(c: char) -> (result: bool)
    ensures
        result == white(c),
{
    ('\u{9}' <= c && c <= '\u{d}') || c == ' ' || c == '\u{85}' || c == '\u{a0}' || c == '\u{1680}'
        || ('\u{2000}' <= c && c <= '\u{200a}') || c == '\u{2028}' || c == '\u{2029}' || c
        == '\u{202f}' || c == '\u{205f}' || c == '\u{3000}'
}

/// `text` without the white space at its two ends.
pub fn trim(text: &str) -> (result: String)
    ensures
        result@ == trimmed(text@),
{
    let chars: Vec<char> = chars_of(text);
    let mut from: usize = 0;
    assert(text@.skip(0) =~= text@);
    while from < chars.len() && is_white(chars[from])
        invariant
            chars@ == text@,
            from <= chars@.len(),
            trimmed_start(text@) == trimmed_start(text@.skip(from as int)),
        decreases chars@.len() - from,
    {
        assert(text@.skip(from as int).drop_first() =~= text@.skip(from + 1));
        from = from + 1;
    }
    let mut to: usize = chars.len();
    assert(text@.subrange(from as int, to as int) =~= text@.skip(from as int));
    while from < to && is_white(chars[to - 1])
        invariant
            chars@ == text@,
            from <= to <= chars@.len(),
            trimmed(text@) == trimmed_end(text@.subrange(from as int, to as int)),
        decreases to,
    {
        assert(text@.subrange(from as int, to as int).drop_last() =~= text@.subrange(
            from as int,
            to - 1,
        ));
        to = to - 1;
    }
    text.substring_char(from, to).to_string()
}

proof fn lemma_word_length(text: Seq<char>, length: nat)
    requires
        length <= text.len(),
        forall|i: int| 0 <= i < length ==> !white(#[trigger] text[i]),
        length < text.len() ==> white(text[length as int]),
    ensures
        word_length(text) == length,
    decreases text.len(),
{
    if length > 0 {
        lemma_word_length(text.drop_first(), (length - 1) as nat);
    }
}

/// The words of `text`.
pub fn split_whitespace(text: &str) -> (list: Vec<String>)
    ensures
        texts(list@) == words(text@),
{
    let chars: Vec<char> = chars_of(text);
    let mut list: Vec<String> = Vec::new();
    let mut at: usize = 0;
    assert(text@.skip(0) =~= text@);
    assert(texts(list@) + words(text@) =~= words(text@));
    while at < chars.len()
        invariant
            chars@ == text@,
            at <= chars@.len(),
            texts(list@) + words(text@.skip(at as int)) == words(text@),
        decreases chars@.len() - at,
    {
        let ghost rest = text@.skip(at as int);
        if is_white(chars[at]) {
            assert(rest.drop_first() =~= text@.skip(at + 1));
            at = at + 1;
        } else {
            let start: usize = at;
            while at < chars.len() && !is_white(chars[at])
                invariant
                    chars@ == text@,
                    start <= at <= chars@.len(),
                    forall|i: int| start <= i < at ==> !white(#[trigger] chars@[i]),
                decreases chars@.len() - at,
            {
                at = at + 1;
            }
            let ghost before = texts(list@);
            list.push(text.substring_char(start, at).to_string());
            proof {
                lemma_word_length(rest, (at - start) as nat);
                assert(texts(list@) =~= before.push(text@.subrange(start as int, at as int)));
                assert(rest.take(at - start) =~= text@.subrange(start as int, at as int));
                assert(rest.skip(at - start) =~= text@.skip(at as int));
                assert(texts(list@) + words(text@.skip(at as int)) =~= before + words(rest));
            }
        }
    }
    assert(texts(list@) + words(text@.skip(at as int)) =~= texts(list@));
    list
}

/// Whether `text` holds anything but white space.
pub fn has_words(text: &str) -> (result: bool)
    ensures
        result == (trimmed(text@).len() > 0),
{
    !trim(text).as_str().is_empty()
}

/// Whether `list` holds `text`.
pub fn holds(list: &Vec<String>, text: &String) -> (result: bool)
    ensures
        result == texts(list@).contains(text@),
{
    let mut i: usize = 0;
    while i < list.len()
        invariant
            i <= list@.len(),
            forall|j: int| 0 <= j < i ==> texts(list@)[j] != text@,
        decreases list@.len() - i,
    {
        if list[i] == *text {
            assert(texts(list@)[i as int] == text@);
            return true;
        }
        i = i + 1;
    }
    false
}

fn digit_text(number: u64) -> (text: &'static str)
    requires
        number < 10,
    ensures
        text@ == digit(number as nat),
{
    match number {
        0 => "0",
        1 => "1",
        2 => "2",
        3 => "3",
        4 => "4",
        5 => "5",
        6 => "6",
        7 => "7",
        8 => "8",
        _ => "9",
    }
}

/// The decimal numeral of `number`.
pub fn decimal(number: u64) -> (text: String)
    ensures
        text@ == numeral(number as nat),
    decreases number,
{
    if number < 10 {
        digit_text(number).to_string()
    } else {
        let mut text: String = decimal(number / 10);
        text.append(digit_text(number % 10));
        text
    }
}

/// A trimmed text neither starts nor ends with white space.
pub proof fn law_trimmed_ends(text: Seq<char>)
    ensures
        trimmed(text).len() > 0 ==> !white(trimmed(text)[0]) && !white(trimmed(text).last()),
{
    lemma_trimmed_start(text);
    lemma_trimmed_end(trimmed_start(text));
}

proof fn lemma_trimmed_start(text: Seq<char>)
    ensures
        trimmed_start(text).len() > 0 ==> !white(trimmed_start(text)[0]),
    decreases text.len(),
{
    if text.len() > 0 && white(text[0]) {
        lemma_trimmed_start(text.drop_first());
    }
}

proof fn lemma_trimmed_end(text: Seq<char>)
    ensures
        trimmed_end(text).len() > 0 ==> !white(trimmed_end(text).last()) && trimmed_end(text)[0]
            == text[0],
    decreases text.len(),
{
    if text.len() > 0 && white(text.last()) {
        lemma_trimmed_end(text.drop_last());
    }
}

proof fn lemma_word_prefix(text: Seq<char>)
    ensures
        word_length(text) <= text.len(),
        forall|i: int| 0 <= i < word_length(text) ==> !white(#[trigger] text[i]),
        text.len() > 0 && !white(text[0]) ==> word_length(text) > 0,
    decreases text.len(),
{
    if text.len() > 0 && !white(text[0]) {
        lemma_word_prefix(text.drop_first());
        assert forall|i: int| 0 <= i < word_length(text) implies !white(#[trigger] text[i]) by {
            if i > 0 {
                assert(text[i] == text.drop_first()[i - 1]);
            }
        }
    }
}

/// `word` is not empty and holds no white space.
pub open spec fn is_word(word: Seq<char>) -> bool {
    &&& word.len() > 0
    &&& forall|i: int| 0 <= i < word.len() ==> !white(#[trigger] word[i])
}

/// Every word is one: not empty, and without white space.
pub proof fn law_words_are_words(text: Seq<char>)
    ensures
        forall|k: int| 0 <= k < words(text).len() ==> is_word(#[trigger] words(text)[k]),
    decreases text.len(),
{
    if text.len() == 0 {
        assert(words(text).len() == 0);
    } else {
        if white(text[0]) {
            law_words_are_words(text.drop_first());
            assert(words(text) == words(text.drop_first()));
        } else {
            lemma_word_prefix(text);
            let rest = text.skip(word_length(text) as int);
            law_words_are_words(rest);
            assert(is_word(text.take(word_length(text) as int)));
            assert forall|k: int| 0 <= k < words(text).len() implies is_word(
                #[trigger] words(text)[k],
            ) by {
                if k > 0 {
                    assert(words(text)[k] == words(rest)[k - 1]);
                }
            }
        }
    }
}

/// Splitting loses nothing but white space: the words, one after the other, are
/// the text without its white space.
pub proof fn law_words_keep_the_text(text: Seq<char>)
    ensures
        words(text).flatten() == text.filter(|c: char| !white(c)),
    decreases text.len(),
{
    broadcast use vstd::seq_lib::group_filter_ensures;

    let kept = |c: char| !white(c);
    if text.len() == 0 {
        assert(words(text).flatten() =~= Seq::<char>::empty());
        assert(text.filter(kept) =~= Seq::<char>::empty());
    } else if white(text[0]) {
        law_words_keep_the_text(text.drop_first());
        let head = seq![text[0]];
        assert(text =~= head + text.drop_first());
        Seq::filter_distributes_over_add(head, text.drop_first(), kept);
        assert(head.filter(kept) =~= Seq::<char>::empty()) by {
            reveal_with_fuel(Seq::filter, 2);
            assert(head.drop_last() =~= Seq::<char>::empty());
        }
        assert(text.filter(kept) =~= text.drop_first().filter(kept));
    } else {
        lemma_word_prefix(text);
        let length = word_length(text) as int;
        let word = text.take(length);
        let rest = text.skip(length);
        law_words_keep_the_text(rest);
        assert(text =~= word + rest);
        Seq::filter_distributes_over_add(word, rest, kept);
        lemma_filter_all(word, kept);
        let list = words(text);
        assert(list.drop_first() =~= words(rest));
        assert(list.flatten() =~= word + words(rest).flatten());
    }
}

proof fn lemma_filter_all(text: Seq<char>, kept: spec_fn(char) -> bool)
    requires
        forall|i: int| 0 <= i < text.len() ==> kept(#[trigger] text[i]),
    ensures
        text.filter(kept) == text,
    decreases text.len(),
{
    reveal(Seq::filter);
    if text.len() > 0 {
        lemma_filter_all(text.drop_last(), kept);
        assert(text.drop_last().push(text.last()) =~= text);
    }
}

/// No text has no words.
pub proof fn law_nothing_has_no_words()
    ensures
        words(Seq::<char>::empty()).len() == 0,
{
}

/// A text that is not empty and holds no white space is one word.
pub proof fn law_a_word_stays_whole(word: Seq<char>)
    requires
        word.len() > 0,
        forall|i: int| 0 <= i < word.len() ==> !white(#[trigger] word[i]),
    ensures
        words(word) == seq![word],
{
    lemma_word_length(word, word.len());
    assert(word.take(word.len() as int) =~= word);
    assert(word.skip(word.len() as int) =~= Seq::<char>::empty());
    assert(!white(word[0]));
    law_nothing_has_no_words();
    assert(words(word) =~= seq![word]);
}

proof fn lemma_word_ends_at_white(start: Seq<char>, c: char, rest: Seq<char>)
    requires
        white(c),
    ensures
        word_length(start + seq![c] + rest) == word_length(start),
    decreases start.len(),
{
    let text = start + seq![c] + rest;
    if start.len() == 0 {
        assert(text[0] == c);
    } else if !white(start[0]) {
        assert(text[0] == start[0]);
        assert(text.drop_first() =~= start.drop_first() + seq![c] + rest);
        lemma_word_ends_at_white(start.drop_first(), c, rest);
    } else {
        assert(text[0] == start[0]);
    }
}

/// White space separates: the words of a text with white space in it are those before
/// it and then those after it.
pub proof fn law_words_split_at_white_space(start: Seq<char>, c: char, rest: Seq<char>)
    requires
        white(c),
    ensures
        words(start + seq![c] + rest) == words(start) + words(rest),
    decreases start.len(),
{
    let text = start + seq![c] + rest;
    if start.len() == 0 {
        assert(text[0] == c);
        assert(text.drop_first() =~= rest);
        assert(words(start) + words(rest) =~= words(rest));
    } else if white(start[0]) {
        assert(text[0] == start[0]);
        assert(text.drop_first() =~= start.drop_first() + seq![c] + rest);
        law_words_split_at_white_space(start.drop_first(), c, rest);
    } else {
        let length = word_length(start) as int;
        assert(text[0] == start[0]);
        lemma_word_ends_at_white(start, c, rest);
        lemma_word_prefix(start);
        assert(text.take(length) =~= start.take(length));
        assert(text.skip(length) =~= start.skip(length) + seq![c] + rest);
        law_words_split_at_white_space(start.skip(length), c, rest);
        assert(words(text) =~= words(start) + words(rest));
    }
}

/// `text` is nothing but white space.
pub open spec fn all_white(text: Seq<char>) -> bool {
    forall|i: int| 0 <= i < text.len() ==> white(#[trigger] text[i])
}

proof fn lemma_trimmed_start_splits(text: Seq<char>) -> (left: Seq<char>)
    ensures
        all_white(left),
        text == left + trimmed_start(text),
    decreases text.len(),
{
    if text.len() > 0 && white(text[0]) {
        let rest = lemma_trimmed_start_splits(text.drop_first());
        let left = seq![text[0]] + rest;
        assert forall|i: int| 0 <= i < left.len() implies white(#[trigger] left[i]) by {
            if i > 0 {
                assert(left[i] == rest[i - 1]);
            }
        }
        assert(text =~= seq![text[0]] + text.drop_first());
        assert(text =~= seq![text[0]] + (rest + trimmed_start(text)));
        left
    } else {
        let left = Seq::<char>::empty();
        assert(text =~= left + trimmed_start(text));
        left
    }
}

proof fn lemma_trimmed_end_splits(text: Seq<char>) -> (right: Seq<char>)
    ensures
        all_white(right),
        text == trimmed_end(text) + right,
    decreases text.len(),
{
    if text.len() > 0 && white(text.last()) {
        let rest = lemma_trimmed_end_splits(text.drop_last());
        let right = rest + seq![text.last()];
        assert forall|i: int| 0 <= i < right.len() implies white(#[trigger] right[i]) by {
            if i < rest.len() {
                assert(right[i] == rest[i]);
            }
        }
        assert(text =~= text.drop_last() + seq![text.last()]);
        assert(text =~= (trimmed_end(text) + rest) + seq![text.last()]);
        assert(text =~= trimmed_end(text) + right);
        right
    } else {
        let right = Seq::<char>::empty();
        assert(text =~= trimmed_end(text) + right);
        right
    }
}

/// Trimming takes off white space and nothing else: a text is its trimmed form with
/// white space, or nothing, on either side.
pub proof fn law_trimming_takes_off_white_space(text: Seq<char>)
    ensures
        exists|left: Seq<char>, right: Seq<char>| #![trigger all_white(left), all_white(right)]
            all_white(left) && all_white(right) && text == left + trimmed(text) + right,
{
    let left = lemma_trimmed_start_splits(text);
    let right = lemma_trimmed_end_splits(trimmed_start(text));
    assert(text =~= left + trimmed(text) + right);
    assert(all_white(left) && all_white(right));
}

/// A text trims to nothing exactly where it is nothing but white space.
pub proof fn law_only_white_space_trims_to_nothing(text: Seq<char>)
    ensures
        trimmed(text).len() == 0 <==> forall|i: int|
            0 <= i < text.len() ==> white(#[trigger] text[i]),
{
    let left = lemma_trimmed_start_splits(text);
    let right = lemma_trimmed_end_splits(trimmed_start(text));
    let middle = trimmed(text);
    assert(text =~= left + middle + right);
    law_trimmed_ends(text);
    if middle.len() > 0 {
        assert(text[left.len() as int] == middle[0]);
    } else {
        assert forall|i: int| 0 <= i < text.len() implies white(#[trigger] text[i]) by {
            if i < left.len() {
                assert(text[i] == left[i]);
            } else {
                assert(text[i] == right[i - left.len()]);
            }
        }
    }
}

/// The number that a row of decimal digits stands for.
pub open spec fn number_of(digits: Seq<char>) -> int
    decreases digits.len(),
{
    if digits.len() == 0 {
        0
    } else {
        10 * number_of(digits.drop_last()) + (digits.last() as int - '0' as int)
    }
}

/// A numeral is a row of decimal digits that stands for its number, and starts with a
/// zero only where the number is zero.
pub proof fn law_numerals_stand_for_their_numbers(number: nat)
    ensures
        numeral(number).len() > 0,
        forall|i: int|
            0 <= i < numeral(number).len() ==> '0' <= #[trigger] numeral(number)[i] <= '9',
        number_of(numeral(number)) == number,
        number > 0 ==> numeral(number)[0] != '0',
    decreases number,
{
    reveal_strlit("0");
    reveal_strlit("1");
    reveal_strlit("2");
    reveal_strlit("3");
    reveal_strlit("4");
    reveal_strlit("5");
    reveal_strlit("6");
    reveal_strlit("7");
    reveal_strlit("8");
    reveal_strlit("9");
    let text = numeral(number);
    let unit = number % 10;
    assert(digit(unit).len() == 1);
    assert('0' <= digit(unit)[0] <= '9');
    assert(digit(unit)[0] as int - '0' as int == unit);
    if number < 10 {
        assert(text.drop_last() =~= Seq::<char>::empty());
        assert(number_of(text.drop_last()) == 0);
    } else {
        law_numerals_stand_for_their_numbers(number / 10);
        assert(text.drop_last() =~= numeral(number / 10));
        assert(text.last() == digit(unit)[0]);
    }
}

} // verus!
