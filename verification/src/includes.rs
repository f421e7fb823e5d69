//! Explicit Botan includes for C++ sources that name Botan types.
//!
//! Botan 3.11 made several of its types opaque, and the headers that declare
//! them are no longer pulled in by others. A source that names such a type needs
//! the header itself.

use vstd::prelude::*;
use vstd::string::StringExecFns;

use crate::location::{places, Location, LocationView};
use crate::text::{
    chars_of, contains, find, find_line_end, first, insert, insert_at, is_first, lemma_first,
    lemma_first_is, lemma_line_end, line_end, occurs_at,
};
use crate::tree::{
    collect_files, descend, files_in, law_exactly_the_matching_files_are_collected, leads_to_match,
    Node,
};
use crate::words::texts;

verus! {

/// What makes the proofs below work for one entry of the table: the type's name
/// starts with `B`, the header's name holds no `B`, and neither holds a line
/// break or a `#`.
pub open spec fn plain_entry(entry: (Seq<char>, Seq<char>)) -> bool {
    &&& entry.0.len() > 0
    &&& entry.0[0] == 'B'
    &&& forall|i: int|
        0 <= i < entry.0.len() ==> #[trigger] entry.0[i] != '\n' && entry.0[i] != '#'
    &&& forall|i: int|
        0 <= i < entry.1.len() ==> #[trigger] entry.1[i] != '\n' && entry.1[i] != '#'
            && entry.1[i] != 'B'
}

/// Each Botan type that needs an explicit include, and the header that
/// declares it.
pub open spec fn type_headers() -> Seq<(Seq<char>, Seq<char>)> {
    seq![
        ("Botan::EC_Group"@, "botan/ec_group.h"@),
        ("Botan::EC_AffinePoint"@, "botan/ec_apoint.h"@),
        ("Botan::BigInt"@, "botan/bigint.h"@),
        ("Botan::ECDH_PrivateKey"@, "botan/ecdh.h"@),
        ("Botan::ECDSA_PrivateKey"@, "botan/ecdsa.h"@),
        ("Botan::Ed25519_PrivateKey"@, "botan/ed25519.h"@),
        ("Botan::Ed448_PrivateKey"@, "botan/ed448.h"@),
        ("Botan::X25519_PrivateKey"@, "botan/x25519.h"@),
        ("Botan::X448_PrivateKey"@, "botan/x448.h"@),
    ]
}

/// The directive that includes `header`, in the form that is put in.
pub open spec fn directive(header: Seq<char>) -> Seq<char> {
    "#include <"@ + header + ">"@
}

/// The directive that includes `header` by its name in quotes.
pub open spec fn quoted_directive(header: Seq<char>) -> Seq<char> {
    "#include \""@ + header + "\""@
}

/// `source` includes `header`, in either form.
pub open spec fn includes(source: Seq<char>, header: Seq<char>) -> bool {
    contains(source, directive(header)) || contains(source, quoted_directive(header))
}

/// `source` names the type of `entry` and does not include its header.
pub open spec fn lacks(source: Seq<char>, entry: (Seq<char>, Seq<char>)) -> bool {
    &&& !includes(source, entry.1)
    &&& contains(source, entry.0)
}

/// The smaller of two indices that may be there.
pub open spec fn leftmost(a: Option<int>, b: Option<int>) -> Option<int> {
    match (a, b) {
        (Some(i), Some(j)) => if i <= j {
            a
        } else {
            b
        },
        (Some(_), None) => a,
        (None, _) => b,
    }
}

/// Where the first include of a Botan header stands, in either form.
pub open spec fn botan_include(source: Seq<char>) -> Option<int> {
    leftmost(first(source, "#include <botan/"@), first(source, "#include \"botan/"@))
}

/// Where an include goes: after the line of the first Botan include, or else of
/// the first include; nowhere in a source that includes nothing.
pub open spec fn include_point(source: Seq<char>) -> Option<int> {
    match botan_include(source) {
        Some(at) => Some(line_end(source, at)),
        None => match first(source, "#include"@) {
            Some(at) => Some(line_end(source, at)),
            None => None,
        },
    }
}

/// `at` is the end of `source`, and the last line of `source` has no line break.
pub open spec fn in_open_line(source: Seq<char>, at: int) -> bool {
    at == source.len() && source.last() != '\n'
}

/// What is put in at `at` to include `header`: the directive on a line of its own.
pub open spec fn include_text(source: Seq<char>, at: int, header: Seq<char>) -> Seq<char> {
    if in_open_line(source, at) {
        "\n"@ + directive(header) + "\n"@
    } else {
        directive(header) + "\n"@
    }
}

/// `source` with the include of `entry` put in where it is lacking.
pub open spec fn with_entry(source: Seq<char>, entry: (Seq<char>, Seq<char>)) -> Seq<char> {
    if lacks(source, entry) {
        match include_point(source) {
            Some(at) => insert(source, at, include_text(source, at, entry.1)),
            None => source,
        }
    } else {
        source
    }
}

/// `source` after the first `count` entries of `table`, taken in order.
pub open spec fn with_entries(
    source: Seq<char>,
    table: Seq<(Seq<char>, Seq<char>)>,
    count: nat,
) -> Seq<char>
    decreases count,
{
    if count == 0 {
        source
    } else {
        with_entry(with_entries(source, table, (count - 1) as nat), table[count - 1])
    }
}

/// The patched form of `source`.
pub open spec fn patched(source: Seq<char>) -> Seq<char> {
    with_entries(source, type_headers(), type_headers().len())
}

/// Some entry was found lacking when its turn came among the first `count`.
pub open spec fn found_lacking(
    source: Seq<char>,
    table: Seq<(Seq<char>, Seq<char>)>,
    count: nat,
) -> bool {
    exists|k: int|
        0 <= k < count && #[trigger] lacks(with_entries(source, table, k as nat), table[k])
}

proof fn lemma_found_lacking_step(
    source: Seq<char>,
    table: Seq<(Seq<char>, Seq<char>)>,
    count: nat,
)
    ensures
        found_lacking(source, table, count + 1) == (found_lacking(source, table, count) || lacks(
            with_entries(source, table, count),
            table[count as int],
        )),
{
    if lacks(with_entries(source, table, count), table[count as int]) {
        let k = count as int;
        assert(0 <= k < count + 1 && lacks(with_entries(source, table, k as nat), table[k]));
    } else if found_lacking(source, table, count + 1) {
        let k = choose|k: int|
            0 <= k < count + 1 && #[trigger] lacks(
                with_entries(source, table, k as nat),
                table[k],
            );
        assert(k != count as int);
    }
}

/// The file name extensions of C++ sources.
pub open spec fn source_extensions() -> Seq<Seq<char>> {
    seq!["cpp"@, "hpp"@, "h"@]
}

/// The C++ sources in and below the directory `dir` with these entries.
pub fn librnp_sources(entries: &Vec<Node>, dir: &Location) -> (files: Vec<Location>)
    ensures
        places(files@) == files_in(entries@, dir@, source_extensions()),
{
    let mut extensions: Vec<String> = Vec::new();
    extensions.push("cpp".to_string());
    extensions.push("hpp".to_string());
    extensions.push("h".to_string());
    assert(texts(extensions@) =~= source_extensions());
    let mut files: Vec<Location> = Vec::new();
    collect_files(entries, dir, &extensions, &mut files);
    assert(places(files@) =~= files_in(entries@, dir@, source_extensions()));
    files
}

/// The table of types and headers.
fn header_table() -> (table: Vec<(&'static str, &'static str)>)
    ensures
        table@.len() == type_headers().len(),
        forall|i: int|
            0 <= i < table@.len() ==> (#[trigger] table@[i]).0@ == type_headers()[i].0
                && table@[i].1@ == type_headers()[i].1,
{
    vec![
        ("Botan::EC_Group", "botan/ec_group.h"),
        ("Botan::EC_AffinePoint", "botan/ec_apoint.h"),
        ("Botan::BigInt", "botan/bigint.h"),
        ("Botan::ECDH_PrivateKey", "botan/ecdh.h"),
        ("Botan::ECDSA_PrivateKey", "botan/ecdsa.h"),
        ("Botan::Ed25519_PrivateKey", "botan/ed25519.h"),
        ("Botan::Ed448_PrivateKey", "botan/ed448.h"),
        ("Botan::X25519_PrivateKey", "botan/x25519.h"),
        ("Botan::X448_PrivateKey", "botan/x448.h"),
    ]
}

/// The index of the first include of a Botan header, in either form.
fn find_botan_include(source: &Vec<char>) -> (found: Option<usize>)
    ensures
        match found {
            Some(at) => botan_include(source@) == Some(at as int) && at <= source@.len(),
            None => botan_include(source@) is None,
        },
{
    let angled: Option<usize> = find(source, &chars_of("#include <botan/"));
    let quoted: Option<usize> = find(source, &chars_of("#include \"botan/"));
    match (angled, quoted) {
        (Some(i), Some(j)) => if i <= j {
            Some(i)
        } else {
            Some(j)
        },
        (Some(i), None) => Some(i),
        (None, Some(j)) => Some(j),
        (None, None) => None,
    }
}

/// The index in `source` at which an include goes.
fn find_include_point(source: &Vec<char>) -> (point: Option<usize>)
    ensures
        match point {
            Some(at) => include_point(source@) == Some(at as int) && 0 < at <= source@.len(),
            None => include_point(source@) is None,
        },
{
    proof {
        lemma_include_point(source@);
    }
    match find_botan_include(source) {
        Some(at) => Some(find_line_end(source, at)),
        None => match find(source, &chars_of("#include")) {
            Some(at) => Some(find_line_end(source, at)),
            None => None,
        },
    }
}

/// Adds the Botan includes that a C++ source lacks. `None` where none was
/// lacking; otherwise the text to write back, which is the source itself where it
/// includes nothing at all.
pub fn patch_librnp_botan_includes(source: &str) -> (result: Option<String>)
    ensures
        match result {
            Some(text) => found_lacking(source@, type_headers(), type_headers().len())
                && text@ == patched(source@),
            None => !found_lacking(source@, type_headers(), type_headers().len())
                && patched(source@) == source@,
        },
{
    let table: Vec<(&'static str, &'static str)> = header_table();
    let mut text: String = source.to_string();
    let mut changed: bool = false;
    let mut k: usize = 0;
    while k < table.len()
        invariant
            k <= table@.len() == type_headers().len(),
            forall|i: int|
                0 <= i < table@.len() ==> (#[trigger] table@[i]).0@ == type_headers()[i].0
                    && table@[i].1@ == type_headers()[i].1,
            text@ == with_entries(source@, type_headers(), k as nat),
            changed == found_lacking(source@, type_headers(), k as nat),
            !changed ==> text@ == source@,
        decreases table@.len() - k,
    {
        let ghost before = text@;
        let ghost entry = type_headers()[k as int];
        let mut line: String = "#include <".to_string();
        line.append(table[k].1);
        line.append(">");
        let mut quoted: String = "#include \"".to_string();
        quoted.append(table[k].1);
        quoted.append("\"");
        let chars: Vec<char> = chars_of(text.as_str());
        let included: bool = find(&chars, &chars_of(line.as_str())).is_some() || find(
            &chars,
            &chars_of(quoted.as_str()),
        ).is_some();
        let named: bool = find(&chars, &chars_of(table[k].0)).is_some();
        assert(included == includes(before, entry.1));
        assert(named == contains(before, entry.0));
        if !included && named {
            assert(lacks(before, entry));
            match find_include_point(&chars) {
                Some(at) => {
                    let mut piece: String = String::new();
                    if at == chars.len() && chars[at - 1] != '\n' {
                        piece.append("\n");
                    }
                    piece.append(line.as_str());
                    piece.append("\n");
                    assert(piece@ =~= include_text(before, at as int, entry.1));
                    text = insert_at(text.as_str(), at, piece.as_str());
                },
                None => {},
            }
            changed = true;
        }
        proof {
            assert(text@ == with_entry(before, entry));
            lemma_found_lacking_step(source@, type_headers(), k as nat);
        }
        k = k + 1;
    }
    if changed {
        Some(text)
    } else {
        None
    }
}

/// `pattern` lies within one line and can hold a `#` only as its first character.
spec fn one_directive(pattern: Seq<char>) -> bool {
    &&& forall|i: int| 0 <= i < pattern.len() ==> #[trigger] pattern[i] != '\n'
    &&& forall|i: int| 0 < i < pattern.len() ==> #[trigger] pattern[i] != '#'
}

/// What is put in at the start of a line, or at the end of the text, and starts with
/// a directive or a line break and ends with a line break, neither makes nor breaks
/// an occurrence of `pattern` outside itself.
proof fn lemma_insert_contains(
    text: Seq<char>,
    at: int,
    line: Seq<char>,
    pattern: Seq<char>,
)
    requires
        0 <= at <= text.len(),
        at < text.len() ==> 0 < at && text[at - 1] == '\n',
        line.len() > 0,
        line[0] == '#' || line[0] == '\n',
        line[line.len() - 1] == '\n',
        one_directive(pattern),
    ensures
        contains(insert(text, at, line), pattern) == (
        contains(text, pattern) || contains(line, pattern)),
{
    let edited = insert(text, at, line);
    let size = pattern.len() as int;
    let shift = line.len() as int;
    if contains(text, pattern) {
        let i = choose|i: int| occurs_at(text, pattern, i);
        assert(pattern =~= text.subrange(i, i + size));
        if i + size <= at {
            assert(edited.subrange(i, i + size) =~= pattern);
            assert(occurs_at(edited, pattern, i));
        } else if i >= at {
            assert(edited.subrange(i + shift, i + shift + size) =~= pattern);
            assert(occurs_at(edited, pattern, i + shift));
        } else {
            assert(pattern[at - 1 - i] == text[at - 1]);
        }
    }
    if contains(line, pattern) {
        let i = choose|i: int| occurs_at(line, pattern, i);
        assert(pattern =~= line.subrange(i, i + size));
        assert(edited.subrange(at + i, at + i + size) =~= pattern);
        assert(occurs_at(edited, pattern, at + i));
    }
    if contains(edited, pattern) {
        let i = choose|i: int| occurs_at(edited, pattern, i);
        assert(pattern =~= edited.subrange(i, i + size));
        if i + size <= at {
            assert(text.subrange(i, i + size) =~= pattern);
            assert(occurs_at(text, pattern, i));
        } else if i >= at + shift {
            assert(text.subrange(i - shift, i - shift + size) =~= pattern);
            assert(occurs_at(text, pattern, i - shift));
        } else if i < at {
            assert(pattern[at - i] == edited[at]);
        } else if i + size > at + shift {
            assert(pattern[at + shift - 1 - i] == edited[at + shift - 1]);
        } else {
            assert(line.subrange(i - at, i - at + size) =~= pattern);
            assert(occurs_at(line, pattern, i - at));
        }
    }
}

/// Where `long` stands, the shorter text that it starts with stands too.
proof fn lemma_start_occurs(source: Seq<char>, long: Seq<char>, short: Seq<char>, at: int)
    requires
        occurs_at(source, long, at),
        short.len() <= long.len(),
        forall|i: int| 0 <= i < short.len() ==> #[trigger] long[i] == short[i],
    ensures
        occurs_at(source, short, at),
{
    assert forall|i: int| 0 <= i < short.len() implies source[at + i] == #[trigger] short[i] by {
        assert(source.subrange(at, at + long.len())[i] == long[i]);
    }
    assert(source.subrange(at, at + short.len()) =~= short);
}

/// An include point is the start of a line that is not the first, or the end of the
/// source, and there is one exactly where the source includes something.
proof fn lemma_include_point(source: Seq<char>)
    ensures
        include_point(source) is Some <==> contains(source, "#include"@),
        match include_point(source) {
            Some(at) => 0 < at <= source.len() && (at < source.len() ==> source[at - 1] == '\n'),
            None => true,
        },
{
    lemma_first(source, "#include <botan/"@);
    lemma_first(source, "#include \"botan/"@);
    lemma_first(source, "#include"@);
    reveal_strlit("#include <botan/");
    reveal_strlit("#include \"botan/");
    reveal_strlit("#include");
    match botan_include(source) {
        Some(at) => {
            if occurs_at(source, "#include <botan/"@, at) {
                lemma_start_occurs(source, "#include <botan/"@, "#include"@, at);
            } else {
                lemma_start_occurs(source, "#include \"botan/"@, "#include"@, at);
            }
            lemma_line_end(source, at);
        },
        None => match first(source, "#include"@) {
            Some(at) => {
                lemma_line_end(source, at);
            },
            None => {},
        },
    }
}

/// What one entry's turn does to the questions that are asked of a source: no
/// answer changes but that the entry's own header may now be included.
proof fn lemma_with_entry(source: Seq<char>, entry: (Seq<char>, Seq<char>))
    requires
        plain_entry(entry),
    ensures
        forall|other: (Seq<char>, Seq<char>)| #[trigger]
            plain_entry(other) ==> {
                &&& contains(with_entry(source, entry), other.0)
                    == contains(source, other.0)
                &&& includes(source, other.1) ==> includes(with_entry(source, entry), other.1)
            },
        contains(with_entry(source, entry), "#include"@) == contains(
            source,
            "#include"@,
        ),
        contains(source, "#include"@) ==> !lacks(with_entry(source, entry), entry),
        !contains(source, "#include"@) ==> with_entry(source, entry) == source,
{
    lemma_include_point(source);
    reveal_strlit("#include <");
    reveal_strlit(">");
    reveal_strlit("#include \"");
    reveal_strlit("\"");
    reveal_strlit("\n");
    reveal_strlit("#include");
    if lacks(source, entry) && include_point(source) is Some {
        let at = include_point(source)->0;
        let line = include_text(source, at, entry.1);
        let skip: int = if in_open_line(source, at) {
            1
        } else {
            0
        };
        let after = with_entry(source, entry);
        assert(one_directive("#include"@));
        lemma_insert_contains(source, at, line, "#include"@);
        assert forall|other: (Seq<char>, Seq<char>)| #[trigger] plain_entry(other) implies {
            &&& contains(after, other.0) == contains(source, other.0)
            &&& includes(source, other.1) ==> includes(after, other.1)
        } by {
            assert(one_directive(other.0));
            lemma_insert_contains(source, at, line, other.0);
            assert(one_directive(directive(other.1)));
            lemma_insert_contains(source, at, line, directive(other.1));
            assert(one_directive(quoted_directive(other.1)));
            lemma_insert_contains(source, at, line, quoted_directive(other.1));
            if contains(line, other.0) {
                let i = choose|i: int| occurs_at(line, other.0, i);
                assert(line.subrange(i, i + other.0.len())[0] == 'B');
                assert(line[i] == 'B');
            }
        }
        assert(one_directive(directive(entry.1)));
        lemma_insert_contains(source, at, line, directive(entry.1));
        assert(line.subrange(skip, skip + directive(entry.1).len()) =~= directive(entry.1));
        assert(occurs_at(line, directive(entry.1), skip));
    }
}

/// After the first `count` entries none of them is lacking in a source that
/// includes something, and one that includes nothing is as it was.
proof fn lemma_with_entries(source: Seq<char>, table: Seq<(Seq<char>, Seq<char>)>, count: nat)
    requires
        count <= table.len(),
        forall|k: int| 0 <= k < table.len() ==> plain_entry(#[trigger] table[k]),
    ensures
        contains(with_entries(source, table, count), "#include"@)
            == contains(source, "#include"@),
        forall|other: (Seq<char>, Seq<char>)| #[trigger]
            plain_entry(other) ==> contains(
                with_entries(source, table, count),
                other.0,
            ) == contains(source, other.0),
        contains(source, "#include"@) ==> forall|k: int|
            0 <= k < count ==> !lacks(with_entries(source, table, count), #[trigger] table[k]),
        !contains(source, "#include"@) ==> with_entries(source, table, count)
            == source,
    decreases count,
{
    if count > 0 {
        let before = with_entries(source, table, (count - 1) as nat);
        lemma_with_entries(source, table, (count - 1) as nat);
        assert(plain_entry(table[count - 1]));
        lemma_with_entry(before, table[count - 1]);
        if contains(source, "#include"@) {
            assert forall|k: int| 0 <= k < count implies !lacks(
                with_entries(source, table, count),
                #[trigger] table[k],
            ) by {
                assert(plain_entry(table[k]));
            }
        }
    }
}

/// A source in which no entry is lacking stays as it is.
proof fn lemma_nothing_lacking(source: Seq<char>, table: Seq<(Seq<char>, Seq<char>)>, count: nat)
    requires
        count <= table.len(),
        forall|k: int| 0 <= k < count ==> !lacks(source, #[trigger] table[k]),
    ensures
        with_entries(source, table, count) == source,
        !found_lacking(source, table, count),
    decreases count,
{
    if count > 0 {
        lemma_nothing_lacking(source, table, (count - 1) as nat);
        assert(!lacks(source, table[count - 1]));
        lemma_found_lacking_step(source, table, (count - 1) as nat);
    }
}

/// The table's entries have the form that the lemmas above ask for.
proof fn lemma_table_is_plain()
    ensures
        forall|k: int| 0 <= k < type_headers().len() ==> plain_entry(#[trigger] type_headers()[k]),
{
    reveal_strlit("Botan::EC_Group");
    reveal_strlit("botan/ec_group.h");
    assert(plain_entry(type_headers()[0]));
    reveal_strlit("Botan::EC_AffinePoint");
    reveal_strlit("botan/ec_apoint.h");
    assert(plain_entry(type_headers()[1]));
    reveal_strlit("Botan::BigInt");
    reveal_strlit("botan/bigint.h");
    assert(plain_entry(type_headers()[2]));
    reveal_strlit("Botan::ECDH_PrivateKey");
    reveal_strlit("botan/ecdh.h");
    assert(plain_entry(type_headers()[3]));
    reveal_strlit("Botan::ECDSA_PrivateKey");
    reveal_strlit("botan/ecdsa.h");
    assert(plain_entry(type_headers()[4]));
    reveal_strlit("Botan::Ed25519_PrivateKey");
    reveal_strlit("botan/ed25519.h");
    assert(plain_entry(type_headers()[5]));
    reveal_strlit("Botan::Ed448_PrivateKey");
    reveal_strlit("botan/ed448.h");
    assert(plain_entry(type_headers()[6]));
    reveal_strlit("Botan::X25519_PrivateKey");
    reveal_strlit("botan/x25519.h");
    assert(plain_entry(type_headers()[7]));
    reveal_strlit("Botan::X448_PrivateKey");
    reveal_strlit("botan/x448.h");
    assert(plain_entry(type_headers()[8]));
}

/// What is put in is a line of its own: the directive stands between two line breaks,
/// and the line before it is that of the include that it goes after.
pub proof fn law_added_include_is_a_line(source: Seq<char>, entry: (Seq<char>, Seq<char>))
    requires
        lacks(source, entry),
        contains(source, "#include"@),
    ensures
        include_point(source) is Some,
        ({
            let after = with_entry(source, entry);
            let point = include_point(source)->0;
            let start: int = if in_open_line(source, point) {
                point + 1
            } else {
                point
            };
            &&& 0 < point <= source.len()
            &&& after.take(point) == source.take(point)
            &&& occurs_at(after, directive(entry.1), start)
            &&& after[start - 1] == '\n'
            &&& start + directive(entry.1).len() < after.len()
            &&& after[start + directive(entry.1).len() as int] == '\n'
            &&& after.skip(start + directive(entry.1).len() + 1) == source.skip(point)
        }),
{
    lemma_include_point(source);
    reveal_strlit("\n");
    let after = with_entry(source, entry);
    let point = include_point(source)->0;
    let piece = include_text(source, point, entry.1);
    let start: int = if in_open_line(source, point) {
        point + 1
    } else {
        point
    };
    let size = directive(entry.1).len() as int;
    assert(after =~= source.take(point) + piece + source.skip(point));
    assert(after.take(point) =~= source.take(point));
    assert(after.subrange(start, start + size) =~= directive(entry.1));
    assert(after.skip(start + size + 1) =~= source.skip(point));
}

/// Patching is idempotent: patching a patched source leaves it as it is.
pub proof fn law_patching_is_idempotent(source: Seq<char>)
    ensures
        patched(patched(source)) == patched(source),
{
    let count = type_headers().len();
    lemma_table_is_plain();
    lemma_with_entries(source, type_headers(), count);
    if contains(source, "#include"@) {
        lemma_nothing_lacking(patched(source), type_headers(), count);
    }
}

/// A patched source that includes anything includes the header of every listed
/// type that it names, and a second pass over it finds nothing lacking.
pub proof fn law_patched_source_is_complete(source: Seq<char>)
    requires
        contains(source, "#include"@),
    ensures
        forall|k: int|
            0 <= k < type_headers().len() ==> !lacks(
                patched(source),
                #[trigger] type_headers()[k],
            ),
        !found_lacking(patched(source), type_headers(), type_headers().len()),
{
    let count = type_headers().len();
    lemma_table_is_plain();
    lemma_with_entries(source, type_headers(), count);
    lemma_nothing_lacking(patched(source), type_headers(), count);
}

/// Patching changes neither which of the listed types a source names nor whether
/// it includes anything, and a source that includes nothing is left as it is.
pub proof fn law_patching_only_adds_includes(source: Seq<char>)
    ensures
        forall|k: int|
            0 <= k < type_headers().len() ==> contains(
                patched(source),
                (#[trigger] type_headers()[k]).0,
            ) == contains(source, type_headers()[k].0),
        contains(patched(source), "#include"@) == contains(
            source,
            "#include"@,
        ),
        !contains(source, "#include"@) ==> patched(source) == source,
{
    lemma_table_is_plain();
    lemma_with_entries(source, type_headers(), type_headers().len());
    assert forall|k: int| 0 <= k < type_headers().len() implies contains(
        patched(source),
        (#[trigger] type_headers()[k]).0,
    ) == contains(source, type_headers()[k].0) by {
        assert(plain_entry(type_headers()[k]));
    }
}

/// A header's name as the table has it: below `botan/`, and without a character that
/// ends or starts a directive.
spec fn clean_header(header: Seq<char>) -> bool {
    &&& header.len() >= 6
    &&& header.take(6) == "botan/"@
    &&& forall|i: int|
        0 <= i < header.len() ==> #[trigger] header[i] != '>' && header[i] != '"' && header[i]
            != '\n' && header[i] != '#'
}

/// The table's headers have that form, and no two are the same.
proof fn lemma_table_headers()
    ensures
        forall|k: int|
            0 <= k < type_headers().len() ==> clean_header((#[trigger] type_headers()[k]).1),
        forall|j: int, k: int|
            0 <= j < k < type_headers().len() ==> (#[trigger] type_headers()[j]).1 != (
            #[trigger] type_headers()[k]).1,
{
    reveal_strlit("botan/");
    reveal_strlit("botan/ec_group.h");
    assert("botan/ec_group.h"@.take(6) =~= "botan/"@);
    assert(clean_header(type_headers()[0].1));
    reveal_strlit("botan/ec_apoint.h");
    assert("botan/ec_apoint.h"@.take(6) =~= "botan/"@);
    assert(clean_header(type_headers()[1].1));
    reveal_strlit("botan/bigint.h");
    assert("botan/bigint.h"@.take(6) =~= "botan/"@);
    assert(clean_header(type_headers()[2].1));
    reveal_strlit("botan/ecdh.h");
    assert("botan/ecdh.h"@.take(6) =~= "botan/"@);
    assert(clean_header(type_headers()[3].1));
    reveal_strlit("botan/ecdsa.h");
    assert("botan/ecdsa.h"@.take(6) =~= "botan/"@);
    assert(clean_header(type_headers()[4].1));
    reveal_strlit("botan/ed25519.h");
    assert("botan/ed25519.h"@.take(6) =~= "botan/"@);
    assert(clean_header(type_headers()[5].1));
    reveal_strlit("botan/ed448.h");
    assert("botan/ed448.h"@.take(6) =~= "botan/"@);
    assert(clean_header(type_headers()[6].1));
    reveal_strlit("botan/x25519.h");
    assert("botan/x25519.h"@.take(6) =~= "botan/"@);
    assert(clean_header(type_headers()[7].1));
    reveal_strlit("botan/x448.h");
    assert("botan/x448.h"@.take(6) =~= "botan/"@);
    assert(clean_header(type_headers()[8].1));
    assert("botan/bigint.h"@[6] == 'b' && "botan/x25519.h"@[6] == 'x');
    assert("botan/ecdh.h"@[6] == 'e' && "botan/x448.h"@[6] == 'x');
    assert("botan/ecdsa.h"@[7] == 'c' && "botan/ed448.h"@[7] == 'd');
}

/// The line that includes one header includes no other.
proof fn lemma_line_includes_one(header: Seq<char>, other: Seq<char>, opening: Seq<char>)
    requires
        clean_header(header),
        clean_header(other),
        opening == Seq::<char>::empty() || opening == "\n"@,
    ensures
        contains(opening + directive(header) + "\n"@, directive(other)) <==> header == other,
        !contains(opening + directive(header) + "\n"@, quoted_directive(other)),
{
    reveal_strlit("#include <");
    reveal_strlit(">");
    reveal_strlit("#include \"");
    reveal_strlit("\"");
    reveal_strlit("\n");
    let line = opening + directive(header) + "\n"@;
    let start = opening.len() as int;
    if header == other {
        assert(line.subrange(start, start + directive(header).len()) =~= directive(header));
        assert(occurs_at(line, directive(other), start));
    }
    if contains(line, directive(other)) {
        let i = choose|i: int| occurs_at(line, directive(other), i);
        let found = line.subrange(i, i + directive(other).len());
        assert(found =~= directive(other));
        assert(directive(other)[0] == "#include <"@[0]);
        assert(found[0] == '#' && line[i] == found[0]);
        assert(i == start);
        assert forall|j: int| 0 <= j < other.len() && j < header.len() implies other[j]
            == header[j] by {
            assert(found[10 + j] == other[j]);
            assert(line[start + 10 + j] == header[j]);
        }
        assert(found[10 + other.len() as int] == '>');
        assert(line[start + 10 + header.len() as int] == '>');
        if other.len() < header.len() {
            assert(line[start + 10 + other.len() as int] == header[other.len() as int]);
        } else if header.len() < other.len() {
            assert(found[10 + header.len() as int] == other[header.len() as int]);
        }
        assert(other =~= header);
    }
    if contains(line, quoted_directive(other)) {
        let i = choose|i: int| occurs_at(line, quoted_directive(other), i);
        let found = line.subrange(i, i + quoted_directive(other).len());
        assert(found =~= quoted_directive(other));
        assert(quoted_directive(other)[0] == "#include \""@[0]);
        assert(found[0] == '#' && line[i] == found[0]);
        assert(i == start);
        assert(found[9] == '"' && line[start + 9] == '<');
    }
}

/// One entry's turn includes its own header where it is lacking, and no other header.
proof fn lemma_with_entry_includes(
    source: Seq<char>,
    entry: (Seq<char>, Seq<char>),
    other: (Seq<char>, Seq<char>),
)
    requires
        plain_entry(entry),
        plain_entry(other),
        clean_header(entry.1),
        clean_header(other.1),
    ensures
        contains(with_entry(source, entry), quoted_directive(other.1)) == contains(
            source,
            quoted_directive(other.1),
        ),
        contains(with_entry(source, entry), directive(other.1)) == (contains(
            source,
            directive(other.1),
        ) || (other.1 == entry.1 && lacks(source, entry) && contains(source, "#include"@))),
        contains(with_entry(source, entry), other.0) == contains(source, other.0),
        contains(with_entry(source, entry), "#include"@) == contains(source, "#include"@),
{
    lemma_with_entry(source, entry);
    lemma_include_point(source);
    reveal_strlit("#include <");
    reveal_strlit(">");
    reveal_strlit("#include \"");
    reveal_strlit("\"");
    reveal_strlit("\n");
    if lacks(source, entry) && include_point(source) is Some {
        let at = include_point(source)->0;
        let opening = if in_open_line(source, at) {
            "\n"@
        } else {
            seq![]
        };
        let line = include_text(source, at, entry.1);
        assert(line =~= opening + directive(entry.1) + "\n"@);
        lemma_line_includes_one(entry.1, other.1, opening);
        assert(one_directive(directive(other.1)));
        assert(one_directive(quoted_directive(other.1)));
        lemma_insert_contains(source, at, line, directive(other.1));
        lemma_insert_contains(source, at, line, quoted_directive(other.1));
    }
}

/// What the first `count` entries do to the question for one entry's header.
proof fn lemma_with_entries_includes(source: Seq<char>, count: nat, k: int)
    requires
        count <= type_headers().len(),
        0 <= k < type_headers().len(),
    ensures
        contains(with_entries(source, type_headers(), count), quoted_directive(type_headers()[k].1))
            == contains(source, quoted_directive(type_headers()[k].1)),
        contains(with_entries(source, type_headers(), count), directive(type_headers()[k].1)) == (
        contains(source, directive(type_headers()[k].1)) || (k < count && lacks(
            source,
            type_headers()[k],
        ) && contains(source, "#include"@))),
        contains(with_entries(source, type_headers(), count), type_headers()[k].0) == contains(
            source,
            type_headers()[k].0,
        ),
        contains(with_entries(source, type_headers(), count), "#include"@) == contains(
            source,
            "#include"@,
        ),
    decreases count,
{
    if count > 0 {
        let last = count - 1;
        let before = with_entries(source, type_headers(), last as nat);
        lemma_table_is_plain();
        lemma_table_headers();
        lemma_with_entries_includes(source, last as nat, k);
        lemma_with_entries_includes(source, last as nat, last);
        assert(plain_entry(type_headers()[last]) && plain_entry(type_headers()[k]));
        assert(clean_header(type_headers()[last].1) && clean_header(type_headers()[k].1));
        lemma_with_entry_includes(before, type_headers()[last], type_headers()[k]);
        if k < last {
            assert(type_headers()[k].1 != type_headers()[last].1);
        } else if k > last {
            assert(type_headers()[last].1 != type_headers()[k].1);
        }
    }
}

/// A source that includes anything ends up with the header of every listed type that it
/// names, at whatever place and whatever stands around the name.
pub proof fn law_named_types_get_their_headers(source: Seq<char>, k: int)
    requires
        0 <= k < type_headers().len(),
        contains(source, "#include"@),
        contains(source, type_headers()[k].0),
    ensures
        contains(patched(source), "#include <"@ + type_headers()[k].1 + ">"@) || contains(
            patched(source),
            "#include \""@ + type_headers()[k].1 + "\""@,
        ),
{
    lemma_with_entries_includes(source, type_headers().len(), k);
}

/// An include of a listed header is put in exactly where the source includes something,
/// names the type and does not include the header in either form. The form in quotes is
/// never put in, and no include is taken out.
pub proof fn law_exactly_the_missing_headers_are_included(source: Seq<char>, k: int)
    requires
        0 <= k < type_headers().len(),
    ensures
        contains(patched(source), "#include <"@ + type_headers()[k].1 + ">"@) <==> contains(
            source,
            "#include <"@ + type_headers()[k].1 + ">"@,
        ) || (contains(source, "#include"@) && contains(source, type_headers()[k].0) && !contains(
            source,
            "#include \""@ + type_headers()[k].1 + "\""@,
        )),
        contains(patched(source), "#include \""@ + type_headers()[k].1 + "\""@) <==> contains(
            source,
            "#include \""@ + type_headers()[k].1 + "\""@,
        ),
{
    lemma_with_entries_includes(source, type_headers().len(), k);
}

/// A source is written back exactly where it names a listed type and includes the type's
/// header in neither form.
pub proof fn law_written_back_where_a_header_is_missing(source: Seq<char>)
    ensures
        found_lacking(source, type_headers(), type_headers().len()) <==> exists|k: int|
            0 <= k < type_headers().len() && contains(source, (#[trigger] type_headers()[k]).0)
                && !contains(source, "#include <"@ + type_headers()[k].1 + ">"@) && !contains(
                source,
                "#include \""@ + type_headers()[k].1 + "\""@,
            ),
{
    let table = type_headers();
    if found_lacking(source, table, table.len()) {
        let k = choose|k: int|
            0 <= k < table.len() && #[trigger] lacks(
                with_entries(source, table, k as nat),
                table[k],
            );
        lemma_with_entries_includes(source, k as nat, k);
        assert(contains(source, table[k].0));
    }
    if exists|k: int| 0 <= k < table.len() && lacks(source, #[trigger] table[k]) {
        let k = choose|k: int| 0 <= k < table.len() && lacks(source, #[trigger] table[k]);
        lemma_with_entries_includes(source, k as nat, k);
        assert(lacks(with_entries(source, table, k as nat), table[k]));
    }
    assert forall|k: int|
        0 <= k < table.len() && contains(source, (#[trigger] table[k]).0) && !contains(
            source,
            "#include <"@ + table[k].1 + ">"@,
        ) && !contains(source, "#include \""@ + table[k].1 + "\""@) implies lacks(
        source,
        table[k],
    ) by {}
}

/// `text` includes `header`, in one form or the other.
pub open spec fn included_in(text: Seq<char>, header: Seq<char>) -> bool {
    contains(text, "#include <"@ + header + ">"@) || contains(
        text,
        "#include \""@ + header + "\""@,
    )
}

/// `text` names `name` and includes `header` in neither form.
pub open spec fn missing_from(text: Seq<char>, name: Seq<char>, header: Seq<char>) -> bool {
    contains(text, name) && !included_in(text, header)
}

/// The header of each of Botan's opaque types is there in the end, in a source that
/// includes anything and names the type.
pub proof fn law_opaque_types_are_declared(source: Seq<char>, result: Seq<char>)
    requires
        contains(source, "#include"@),
        result == patched(source),
    ensures
        contains(source, "Botan::EC_Group"@) ==> included_in(result, "botan/ec_group.h"@),
        contains(source, "Botan::EC_AffinePoint"@) ==> included_in(result, "botan/ec_apoint.h"@),
        contains(source, "Botan::BigInt"@) ==> included_in(result, "botan/bigint.h"@),
        contains(source, "Botan::ECDH_PrivateKey"@) ==> included_in(result, "botan/ecdh.h"@),
        contains(source, "Botan::ECDSA_PrivateKey"@) ==> included_in(result, "botan/ecdsa.h"@),
        contains(source, "Botan::Ed25519_PrivateKey"@) ==> included_in(result, "botan/ed25519.h"@),
        contains(source, "Botan::Ed448_PrivateKey"@) ==> included_in(result, "botan/ed448.h"@),
        contains(source, "Botan::X25519_PrivateKey"@) ==> included_in(result, "botan/x25519.h"@),
        contains(source, "Botan::X448_PrivateKey"@) ==> included_in(result, "botan/x448.h"@),
{
    if contains(source, "Botan::EC_Group"@) {
        law_named_types_get_their_headers(source, 0);
    }
    if contains(source, "Botan::EC_AffinePoint"@) {
        law_named_types_get_their_headers(source, 1);
    }
    if contains(source, "Botan::BigInt"@) {
        law_named_types_get_their_headers(source, 2);
    }
    if contains(source, "Botan::ECDH_PrivateKey"@) {
        law_named_types_get_their_headers(source, 3);
    }
    if contains(source, "Botan::ECDSA_PrivateKey"@) {
        law_named_types_get_their_headers(source, 4);
    }
    if contains(source, "Botan::Ed25519_PrivateKey"@) {
        law_named_types_get_their_headers(source, 5);
    }
    if contains(source, "Botan::Ed448_PrivateKey"@) {
        law_named_types_get_their_headers(source, 6);
    }
    if contains(source, "Botan::X25519_PrivateKey"@) {
        law_named_types_get_their_headers(source, 7);
    }
    if contains(source, "Botan::X448_PrivateKey"@) {
        law_named_types_get_their_headers(source, 8);
    }
}

/// A source is written back for these types and for no other reason.
pub proof fn law_written_back_for_opaque_types_only(source: Seq<char>)
    ensures
        found_lacking(source, type_headers(), type_headers().len()) <==> (
        missing_from(source, "Botan::EC_Group"@, "botan/ec_group.h"@)
            || missing_from(source, "Botan::EC_AffinePoint"@, "botan/ec_apoint.h"@)
            || missing_from(source, "Botan::BigInt"@, "botan/bigint.h"@)
            || missing_from(source, "Botan::ECDH_PrivateKey"@, "botan/ecdh.h"@)
            || missing_from(source, "Botan::ECDSA_PrivateKey"@, "botan/ecdsa.h"@)
            || missing_from(source, "Botan::Ed25519_PrivateKey"@, "botan/ed25519.h"@)
            || missing_from(source, "Botan::Ed448_PrivateKey"@, "botan/ed448.h"@)
            || missing_from(source, "Botan::X25519_PrivateKey"@, "botan/x25519.h"@)
            || missing_from(source, "Botan::X448_PrivateKey"@, "botan/x448.h"@)),
{
    law_written_back_where_a_header_is_missing(source);
    let table = type_headers();
    assert(table[0] == ("Botan::EC_Group"@, "botan/ec_group.h"@));
    assert(table[1] == ("Botan::EC_AffinePoint"@, "botan/ec_apoint.h"@));
    assert(table[2] == ("Botan::BigInt"@, "botan/bigint.h"@));
    assert(table[3] == ("Botan::ECDH_PrivateKey"@, "botan/ecdh.h"@));
    assert(table[4] == ("Botan::ECDSA_PrivateKey"@, "botan/ecdsa.h"@));
    assert(table[5] == ("Botan::Ed25519_PrivateKey"@, "botan/ed25519.h"@));
    assert(table[6] == ("Botan::Ed448_PrivateKey"@, "botan/ed448.h"@));
    assert(table[7] == ("Botan::X25519_PrivateKey"@, "botan/x25519.h"@));
    assert(table[8] == ("Botan::X448_PrivateKey"@, "botan/x448.h"@));
    if found_lacking(source, table, table.len()) {
        let k = choose|k: int|
            0 <= k < table.len() && contains(source, (#[trigger] table[k]).0) && !contains(
                source,
                "#include <"@ + table[k].1 + ">"@,
            ) && !contains(source, "#include \""@ + table[k].1 + "\""@);
        assert(missing_from(source, table[k].0, table[k].1));
    }
}

/// The lines that include `headers`, in order.
pub open spec fn include_lines(headers: Seq<Seq<char>>) -> Seq<char>
    decreases headers.len(),
{
    if headers.len() == 0 {
        seq![]
    } else {
        "#include <"@ + headers[0] + ">\n"@ + include_lines(headers.drop_first())
    }
}

/// `at` is where the first of the Botan includes of `source` stands, or, where it has
/// none, the first include.
pub open spec fn first_include(source: Seq<char>, at: int) -> bool {
    let botan = contains(source, "#include <botan/"@) || contains(source, "#include \"botan/"@);
    if botan {
        &&& occurs_at(source, "#include <botan/"@, at) || occurs_at(
            source,
            "#include \"botan/"@,
            at,
        )
        &&& forall|i: int|
            (#[trigger] occurs_at(source, "#include <botan/"@, i)) ==> at <= i
        &&& forall|i: int|
            (#[trigger] occurs_at(source, "#include \"botan/"@, i)) ==> at <= i
    } else {
        &&& occurs_at(source, "#include"@, at)
        &&& forall|i: int| (#[trigger] occurs_at(source, "#include"@, i)) ==> at <= i
    }
}

/// The line through `at` ends before `end`, its line break counted if it has one.
pub open spec fn line_through(source: Seq<char>, at: int, end: int) -> bool {
    &&& at < end <= source.len()
    &&& forall|i: int| at <= i < end - 1 ==> #[trigger] source[i] != '\n'
    &&& source[end - 1] == '\n' || end == source.len()
}

/// `result` is `source` with the lines that include `headers` put in after the line of
/// its first include, and nothing else changed. A last line without a line break gets
/// one first.
pub open spec fn lines_put_in(
    source: Seq<char>,
    at: int,
    end: int,
    headers: Seq<Seq<char>>,
    result: Seq<char>,
) -> bool {
    &&& first_include(source, at)
    &&& line_through(source, at, end)
    &&& result == source.take(end) + (if headers.len() > 0 && source[end - 1] != '\n' {
        "\n"@
    } else {
        seq![]
    }) + include_lines(headers) + source.skip(end)
}

/// The missing headers among the first `count` of the table, from the last to the first.
pub open spec fn missing_backwards(source: Seq<char>, count: nat) -> Seq<Seq<char>>
    decreases count,
{
    if count == 0 {
        seq![]
    } else {
        let entry = type_headers()[count - 1];
        let others = missing_backwards(source, (count - 1) as nat);
        if missing_from(source, entry.0, entry.1) {
            seq![entry.1] + others
        } else {
            others
        }
    }
}

/// The order in which the missing headers end up: each goes after the first Botan
/// include, and so before those that came earlier; but where there is none yet, the
/// first of them is that include.
pub open spec fn missing_in_order(source: Seq<char>, count: nat) -> Seq<Seq<char>> {
    let backwards = missing_backwards(source, count);
    if backwards.len() == 0 || contains(source, "#include <botan/"@) || contains(
        source,
        "#include \"botan/"@,
    ) {
        backwards
    } else {
        seq![backwards.last()] + backwards.drop_last()
    }
}

proof fn lemma_line_through(source: Seq<char>, at: int)
    requires
        0 <= at < source.len(),
    ensures
        line_through(source, at, line_end(source, at)),
    decreases source.len() - at,
{
    if source[at] != '\n' && at + 1 < source.len() {
        lemma_line_through(source, at + 1);
    } else if source[at] != '\n' {
        assert(line_end(source, at + 1) == source.len());
    }
}

proof fn lemma_line_end_is(source: Seq<char>, at: int, end: int)
    requires
        0 <= at < end <= source.len(),
        forall|i: int| at <= i < end - 1 ==> #[trigger] source[i] != '\n',
        source[end - 1] == '\n',
    ensures
        line_end(source, at) == end,
    decreases end - at,
{
    if at < end - 1 {
        assert(source[at] != '\n');
        lemma_line_end_is(source, at + 1, end);
    }
}

/// Where the first include stands, and where its line ends.
proof fn lemma_first_include(source: Seq<char>) -> (at: int)
    requires
        contains(source, "#include"@),
    ensures
        0 <= at < source.len(),
        first_include(source, at),
        include_point(source) == Some(line_end(source, at)),
        line_through(source, at, line_end(source, at)),
        botan_include(source) is Some ==> botan_include(source) == Some(at) && at + 16
            <= line_end(source, at),
{
    reveal_strlit("#include <botan/");
    reveal_strlit("#include \"botan/");
    reveal_strlit("#include");
    lemma_first(source, "#include <botan/"@);
    lemma_first(source, "#include \"botan/"@);
    lemma_first(source, "#include"@);
    match botan_include(source) {
        Some(at) => {
            lemma_line_through(source, at);
            let end = line_end(source, at);
            let found = source.subrange(at, at + 16);
            if end < at + 16 {
                assert(source[end - 1] == found[end - 1 - at]);
                if occurs_at(source, "#include <botan/"@, at) {
                    assert(found =~= "#include <botan/"@);
                } else {
                    assert(found =~= "#include \"botan/"@);
                }
            }
            at
        },
        None => {
            let at = first(source, "#include"@)->0;
            lemma_line_through(source, at);
            at
        },
    }
}

proof fn lemma_include_lines_cons(header: Seq<char>, others: Seq<Seq<char>>)
    ensures
        include_lines(seq![header] + others) == directive(header) + "\n"@ + include_lines(others),
{
    reveal_strlit(">");
    reveal_strlit(">\n");
    reveal_strlit("\n");
    assert((seq![header] + others).drop_first() =~= others);
    assert(">"@ + "\n"@ =~= ">\n"@);
    assert("#include <"@ + header + ">\n"@ =~= directive(header) + "\n"@);
}

/// No Botan include stands before `limit` in a text that agrees with `source` up to
/// `end` and has a line break next to it, where `source` has none there.
proof fn lemma_no_earlier(
    source: Seq<char>,
    text: Seq<char>,
    end: int,
    limit: int,
    pattern: Seq<char>,
)
    requires
        0 < end <= source.len(),
        end <= limit <= text.len(),
        text.take(end) == source.take(end),
        limit == end || (limit == end + 1 && text[end] == '\n'),
        text[limit - 1] == '\n',
        pattern.len() > 0,
        forall|i: int| 0 <= i < pattern.len() ==> #[trigger] pattern[i] != '\n',
        !contains(source, pattern),
    ensures
        forall|i: int| i < limit ==> !#[trigger] occurs_at(text, pattern, i),
{
    let size = pattern.len() as int;
    assert forall|i: int| i < limit implies !#[trigger] occurs_at(text, pattern, i) by {
        if occurs_at(text, pattern, i) {
            let found = text.subrange(i, i + size);
            assert(found =~= pattern);
            if i + size <= end {
                assert(source.subrange(i, i + size) =~= pattern) by {
                    assert forall|j: int| i <= j < i + size implies source[j] == text[j] by {
                        assert(text.take(end)[j] == text[j]);
                        assert(source.take(end)[j] == source[j]);
                    }
                }
                assert(occurs_at(source, pattern, i));
            } else if i + size >= limit {
                assert(found[limit - 1 - i] == '\n');
            }
        }
    }
}

/// The text after the first `count` entries: the source with include lines put in. The
/// headers of those lines are the missing ones among the entries, each once.
proof fn lemma_lines_after(source: Seq<char>, at: int, count: nat) -> (headers: Seq<Seq<char>>)
    requires
        count <= type_headers().len(),
        contains(source, "#include"@),
        0 <= at < source.len(),
        first_include(source, at),
        include_point(source) == Some(line_end(source, at)),
        line_through(source, at, line_end(source, at)),
        botan_include(source) is Some ==> botan_include(source) == Some(at) && at + 16
            <= line_end(source, at),
    ensures
        lines_put_in(
            source,
            at,
            line_end(source, at),
            headers,
            with_entries(source, type_headers(), count),
        ),
        headers.no_duplicates(),
        forall|h: Seq<char>| #[trigger]
            headers.contains(h) <==> exists|k: int|
                0 <= k < count && lacks(source, #[trigger] type_headers()[k])
                    && type_headers()[k].1 == h,
        headers == missing_in_order(source, count),
    decreases count,
{
    let table = type_headers();
    let end = line_end(source, at);
    reveal_strlit("\n");
    if count == 0 {
        let headers = Seq::<Seq<char>>::empty();
        assert(source =~= source.take(end) + Seq::<char>::empty() + include_lines(headers)
            + source.skip(end));
        headers
    } else {
        let last = count - 1;
        let entry = table[last];
        let old = lemma_lines_after(source, at, last as nat);
        let text = with_entries(source, table, last as nat);
        lemma_table_headers();
        lemma_with_entries_includes(source, last as nat, last);
        assert(lacks(text, entry) == lacks(source, entry));
        assert(lacks(source, entry) == missing_from(source, entry.0, entry.1));
        assert(botan_include(source) is Some <==> contains(source, "#include <botan/"@)
            || contains(source, "#include \"botan/"@));
        if !lacks(source, entry) {
            assert forall|h: Seq<char>| #[trigger] old.contains(h) <==> exists|k: int|
                0 <= k < count && lacks(source, #[trigger] table[k]) && table[k].1 == h by {
                if old.contains(h) {
                    let k = choose|k: int|
                        0 <= k < last && lacks(source, #[trigger] table[k]) && table[k].1 == h;
                    assert(0 <= k < count && lacks(source, table[k]) && table[k].1 == h);
                }
            }
            old
        } else {
            assert(!old.contains(entry.1)) by {
                if old.contains(entry.1) {
                    let k = choose|k: int|
                        0 <= k < last && lacks(source, #[trigger] table[k]) && table[k].1
                            == entry.1;
                    assert(table[k].1 != table[last].1);
                }
            }
            let headers = lemma_one_line_more(source, at, old, text, entry.1);
            let backwards = missing_backwards(source, last as nat);
            if backwards.len() > 0 && botan_include(source) is None {
                assert((seq![entry.1] + backwards).drop_last() =~= seq![entry.1]
                    + backwards.drop_last());
                assert(old.drop_first() =~= backwards.drop_last());
            } else if botan_include(source) is None {
                assert((seq![entry.1] + backwards) =~= seq![entry.1]);
                assert((seq![entry.1] + backwards).drop_last() =~= backwards);
                assert(headers =~= missing_in_order(source, count));
            }
            assert forall|h: Seq<char>| #[trigger] headers.contains(h) <==> exists|k: int|
                0 <= k < count && lacks(source, #[trigger] table[k]) && table[k].1 == h by {
                if headers.contains(h) {
                    if h == entry.1 {
                        assert(0 <= last < count && lacks(source, table[last]) && table[last].1
                            == h);
                    } else {
                        assert(old.contains(h));
                        let k = choose|k: int|
                            0 <= k < last && lacks(source, #[trigger] table[k]) && table[k].1
                                == h;
                        assert(0 <= k < count && lacks(source, table[k]) && table[k].1 == h);
                    }
                }
                if exists|k: int|
                    0 <= k < count && lacks(source, #[trigger] table[k]) && table[k].1 == h {
                    let k = choose|k: int|
                        0 <= k < count && lacks(source, #[trigger] table[k]) && table[k].1 == h;
                    if k < last {
                        assert(old.contains(h));
                    }
                }
            }
            headers
        }
    }
}

/// One header more in front of a list that does not hold it.
proof fn lemma_in_front(header: Seq<char>, old: Seq<Seq<char>>)
    requires
        old.no_duplicates(),
        !old.contains(header),
    ensures
        (seq![header] + old).no_duplicates(),
        forall|h: Seq<char>| #[trigger]
            (seq![header] + old).contains(h) <==> (old.contains(h) || h == header),
{
    let front = seq![header] + old;
    assert forall|h: Seq<char>| #[trigger] front.contains(h) <==> (old.contains(h) || h
        == header) by {
        if old.contains(h) {
            let j = choose|j: int| 0 <= j < old.len() && old[j] == h;
            assert(front[j + 1] == h);
        }
        assert(front[0] == header);
        if front.contains(h) {
            let j = choose|j: int| 0 <= j < front.len() && front[j] == h;
            if j > 0 {
                assert(old[j - 1] == h);
            }
        }
    }
    assert forall|i: int, j: int| 0 <= i < front.len() && 0 <= j < front.len() && i != j implies
        front[i] != front[j] by {
        if i == 0 {
            assert(old.contains(old[j - 1]));
        } else if j == 0 {
            assert(old.contains(old[i - 1]));
        } else {
            assert(old[i - 1] != old[j - 1]);
        }
    }
}

/// What stands before the lines that are put in after `end`.
spec fn before_lines(source: Seq<char>, end: int) -> Seq<char> {
    source.take(end) + (if source[end - 1] != '\n' {
        "\n"@
    } else {
        seq![]
    })
}

/// `source` with the lines that include `headers` put in after `end`.
spec fn put_in(source: Seq<char>, end: int, headers: Seq<Seq<char>>) -> Seq<char> {
    before_lines(source, end) + include_lines(headers) + source.skip(end)
}

/// Putting in one include more, where the source has a Botan include: it goes in front
/// of the others.
proof fn lemma_line_in_front(
    source: Seq<char>,
    at: int,
    old: Seq<Seq<char>>,
    text: Seq<char>,
    header: Seq<char>,
)
    requires
        0 <= at < source.len(),
        line_through(source, at, line_end(source, at)),
        old.len() > 0,
        text == put_in(source, line_end(source, at), old),
        botan_include(source) == Some(at),
        at + 16 <= line_end(source, at),
    ensures
        include_point(text) is Some,
        insert(text, include_point(text)->0, include_text(text, include_point(text)->0, header))
            == put_in(source, line_end(source, at), seq![header] + old),
{
    reveal_strlit("\n");
    reveal_strlit(">\n");
    let end = line_end(source, at);
    let head = before_lines(source, end);
    let start = head.len() as int;
    let lines = include_lines(old);
    assert(text.take(end) =~= source.take(end));
    assert(text.take(start) =~= head);
    assert(text.skip(start) =~= lines + source.skip(end));
    assert(lines.len() > 0);
    lemma_botan_include_stays(source, text, at, end);
    assert forall|i: int| at <= i < start - 1 implies #[trigger] text[i] != '\n' by {
        assert(text[i] == head[i]);
        assert(head[i] == source[i]);
    }
    assert(text[start - 1] == head[start - 1]);
    lemma_line_end_is(text, at, start);
    lemma_include_lines_cons(header, old);
    let line = directive(header) + "\n"@;
    assert(!in_open_line(text, start));
    assert(insert(text, start, line) =~= head + line + (lines + source.skip(end)));
    assert(head + line + (lines + source.skip(end)) =~= head + (line + lines) + source.skip(end));
}

/// Putting in one include more, where the source has no Botan include: it goes after the
/// first that was put in.
proof fn lemma_line_after_first(
    source: Seq<char>,
    at: int,
    old: Seq<Seq<char>>,
    text: Seq<char>,
    header: Seq<char>,
)
    requires
        0 <= at < source.len(),
        line_through(source, at, line_end(source, at)),
        old.len() > 0,
        text == put_in(source, line_end(source, at), old),
        botan_include(source) is None,
        clean_header(old[0]),
    ensures
        include_point(text) is Some,
        insert(text, include_point(text)->0, include_text(text, include_point(text)->0, header))
            == put_in(
            source,
            line_end(source, at),
            seq![old[0]] + (seq![header] + old.drop_first()),
        ),
{
    reveal_strlit("\n");
    reveal_strlit(">");
    reveal_strlit("#include <");
    reveal_strlit("#include <botan/");
    reveal_strlit("#include \"botan/");
    reveal_strlit("botan/");
    let end = line_end(source, at);
    let head = before_lines(source, end);
    let start = head.len() as int;
    let top = old[0];
    let rest = old.drop_first();
    let line = directive(top) + "\n"@;
    let after = start + line.len();
    assert(old =~= seq![top] + rest);
    lemma_include_lines_cons(top, rest);
    assert(text =~= head + line + (include_lines(rest) + source.skip(end)));
    assert(text.take(end) =~= source.take(end));
    assert(text[start - 1] == head[start - 1]);
    assert(text.subrange(start, after) =~= line);
    lemma_first(source, "#include <botan/"@);
    lemma_first(source, "#include \"botan/"@);
    lemma_no_earlier(source, text, end, start, "#include <botan/"@);
    lemma_no_earlier(source, text, end, start, "#include \"botan/"@);
    assert forall|i: int| 0 <= i < 16 implies text[start + i] == "#include <botan/"@[i] by {
        assert(text.subrange(start, after)[i] == line[i]);
        if i >= 10 {
            assert(line[i] == top[i - 10]);
            assert(top.take(6)[i - 10] == "botan/"@[i - 10]);
        }
    }
    assert(text.subrange(start, start + 16) =~= "#include <botan/"@);
    assert(is_first(text, "#include <botan/"@, start));
    lemma_first_is(text, "#include <botan/"@, start);
    lemma_first(text, "#include \"botan/"@);
    assert(botan_include(text) == Some(start)) by {
        match first(text, "#include \"botan/"@) {
            Some(j) => {
                assert(occurs_at(text, "#include \"botan/"@, j));
                assert(j >= start);
                if j == start {
                    assert(text.subrange(j, j + 16)[9] == text[start + 9]);
                }
            },
            None => {},
        }
    }
    assert forall|i: int| start <= i < after - 1 implies #[trigger] text[i] != '\n' by {
        assert(text.subrange(start, after)[i - start] == line[i - start]);
        if 10 <= i - start < 10 + top.len() {
            assert(line[i - start] == top[i - start - 10]);
        }
    }
    assert(text.subrange(start, after)[line.len() - 1] == line[line.len() - 1]);
    lemma_line_end_is(text, start, after);
    let added = directive(header) + "\n"@;
    lemma_include_lines_cons(header, rest);
    lemma_include_lines_cons(top, seq![header] + rest);
    assert(text.take(after) =~= head + line);
    assert(text.skip(after) =~= include_lines(rest) + source.skip(end));
    assert(!in_open_line(text, after));
    assert(insert(text, after, added) =~= head + line + added + (include_lines(rest)
        + source.skip(end)));
    assert(head + line + added + (include_lines(rest) + source.skip(end)) =~= head + (line + (added
        + include_lines(rest))) + source.skip(end));
}

/// Putting in one include more adds one line to those that were put in.
proof fn lemma_one_line_more(
    source: Seq<char>,
    at: int,
    old: Seq<Seq<char>>,
    text: Seq<char>,
    header: Seq<char>,
) -> (headers: Seq<Seq<char>>)
    requires
        0 <= at < source.len(),
        first_include(source, at),
        include_point(source) == Some(line_end(source, at)),
        line_through(source, at, line_end(source, at)),
        botan_include(source) is Some ==> botan_include(source) == Some(at) && at + 16
            <= line_end(source, at),
        lines_put_in(source, at, line_end(source, at), old, text),
        old.no_duplicates(),
        !old.contains(header),
        forall|h: Seq<char>| #[trigger] old.contains(h) ==> clean_header(h),
    ensures
        include_point(text) is Some,
        lines_put_in(
            source,
            at,
            line_end(source, at),
            headers,
            insert(
                text,
                include_point(text)->0,
                include_text(text, include_point(text)->0, header),
            ),
        ),
        headers.no_duplicates(),
        forall|h: Seq<char>| #[trigger]
            headers.contains(h) <==> (old.contains(h) || h == header),
        headers == if old.len() == 0 || botan_include(source) is Some {
            seq![header] + old
        } else {
            seq![old[0]] + (seq![header] + old.drop_first())
        },
{
    let end = line_end(source, at);
    let front = seq![header] + old;
    lemma_in_front(header, old);
    if old.len() == 0 {
        reveal_strlit("\n");
        lemma_include_lines_cons(header, old);
        assert(include_lines(old) =~= Seq::<char>::empty());
        assert(text =~= source);
        assert(insert(text, end, include_text(text, end, header)) =~= put_in(
            source,
            end,
            front,
        ));
        front
    } else if botan_include(source) is Some {
        assert(text == put_in(source, end, old));
        lemma_line_in_front(source, at, old, text, header);
        front
    } else {
        assert(text == put_in(source, end, old));
        assert(old.contains(old[0]));
        lemma_line_after_first(source, at, old, text, header);
        let headers = seq![old[0]] + (seq![header] + old.drop_first());
        assert(old =~= seq![old[0]] + old.drop_first());
        lemma_swapped(front, headers, old[0], header, old.drop_first());
        headers
    }
}

/// Two headers change places at the front of a list.
proof fn lemma_swapped(
    a: Seq<Seq<char>>,
    b: Seq<Seq<char>>,
    top: Seq<char>,
    header: Seq<char>,
    rest: Seq<Seq<char>>,
)
    requires
        a == seq![header] + (seq![top] + rest),
        b == seq![top] + (seq![header] + rest),
        a.no_duplicates(),
    ensures
        b.no_duplicates(),
        forall|h: Seq<char>| #[trigger] b.contains(h) <==> a.contains(h),
{
    let place = |i: int|
        if i == 0 {
            1int
        } else if i == 1 {
            0int
        } else {
            i
        };
    assert(forall|i: int| 0 <= i < b.len() ==> b[i] == a[#[trigger] place(i)]);
    assert forall|i: int, j: int| 0 <= i < b.len() && 0 <= j < b.len() && i != j implies b[i]
        != b[j] by {
        assert(b[i] == a[place(i)] && b[j] == a[place(j)]);
    }
    assert forall|h: Seq<char>| #[trigger] b.contains(h) <==> a.contains(h) by {
        if b.contains(h) {
            let i = choose|i: int| 0 <= i < b.len() && b[i] == h;
            assert(a[place(i)] == h);
        }
        if a.contains(h) {
            let i = choose|i: int| 0 <= i < a.len() && a[i] == h;
            assert(b[place(i)] == h);
        }
    }
}

/// The first Botan include of a source stays the first where text is put in after its
/// line.
proof fn lemma_botan_include_stays(source: Seq<char>, text: Seq<char>, at: int, end: int)
    requires
        botan_include(source) == Some(at),
        0 <= at,
        at + 16 <= end <= source.len(),
        end <= text.len(),
        text.take(end) == source.take(end),
    ensures
        botan_include(text) == Some(at),
{
    reveal_strlit("#include <botan/");
    reveal_strlit("#include \"botan/");
    let angled = "#include <botan/"@;
    let quoted = "#include \"botan/"@;
    lemma_first(source, angled);
    lemma_first(source, quoted);
    lemma_first(text, angled);
    lemma_first(text, quoted);
    assert forall|i: int| 0 <= i <= at implies text.subrange(i, i + 16) == #[trigger] source.subrange(
        i,
        i + 16,
    ) by {
        assert forall|j: int| i <= j < i + 16 implies text[j] == source[j] by {
            assert(text.take(end)[j] == text[j]);
            assert(source.take(end)[j] == source[j]);
        }
        assert(text.subrange(i, i + 16) =~= source.subrange(i, i + 16));
    }
    assert forall|i: int| 0 <= i <= at implies (#[trigger] occurs_at(text, angled, i)) == occurs_at(
        source,
        angled,
        i,
    ) by {
        assert(text.subrange(i, i + 16) == source.subrange(i, i + 16));
    }
    assert forall|i: int| 0 <= i <= at implies (#[trigger] occurs_at(text, quoted, i)) == occurs_at(
        source,
        quoted,
        i,
    ) by {
        assert(text.subrange(i, i + 16) == source.subrange(i, i + 16));
    }
    assert(occurs_at(text, angled, at) || occurs_at(text, quoted, at));
}

/// What patching does to a source that includes anything: after the line of its first
/// Botan include, or else of its first include, it puts in one line for each missing
/// header, each once, and it changes nothing else.
pub proof fn law_missing_includes_are_put_in_as_lines(source: Seq<char>)
    requires
        contains(source, "#include"@),
    ensures
        exists|at: int, end: int| #[trigger]
            lines_put_in(
                source,
                at,
                end,
                missing_in_order(source, type_headers().len()),
                patched(source),
            ),
        missing_in_order(source, type_headers().len()).no_duplicates(),
        forall|h: Seq<char>| #[trigger]
            missing_in_order(source, type_headers().len()).contains(h) <==> exists|k: int|
                0 <= k < type_headers().len() && missing_from(
                    source,
                    (#[trigger] type_headers()[k]).0,
                    type_headers()[k].1,
                ) && type_headers()[k].1 == h,
{
    let at = lemma_first_include(source);
    let end = line_end(source, at);
    let headers = lemma_lines_after(source, at, type_headers().len());
    assert forall|k: int| 0 <= k < type_headers().len() implies lacks(
        source,
        #[trigger] type_headers()[k],
    ) == missing_from(source, type_headers()[k].0, type_headers()[k].1) by {}
    assert forall|h: Seq<char>| #[trigger] headers.contains(h) <==> exists|k: int|
        0 <= k < type_headers().len() && missing_from(
            source,
            (#[trigger] type_headers()[k]).0,
            type_headers()[k].1,
        ) && type_headers()[k].1 == h by {
        if headers.contains(h) {
            let k = choose|k: int|
                0 <= k < type_headers().len() && lacks(source, #[trigger] type_headers()[k])
                    && type_headers()[k].1 == h;
            assert(missing_from(source, type_headers()[k].0, type_headers()[k].1));
        }
        if exists|k: int|
            0 <= k < type_headers().len() && missing_from(
                source,
                (#[trigger] type_headers()[k]).0,
                type_headers()[k].1,
            ) && type_headers()[k].1 == h {
            let k = choose|k: int|
                0 <= k < type_headers().len() && missing_from(
                    source,
                    (#[trigger] type_headers()[k]).0,
                    type_headers()[k].1,
                ) && type_headers()[k].1 == h;
            assert(lacks(source, type_headers()[k]));
        }
    }
    assert(lines_put_in(source, at, end, headers, patched(source)));
}

/// The sources that are looked at are the files whose names end in `.cpp`, `.hpp` or
/// `.h`, from whatever depth, and no others.
pub proof fn law_cpp_sources_and_headers_are_looked_at(
    entries: Seq<Node>,
    dir: LocationView,
    names: Seq<Seq<char>>,
)
    ensures
        files_in(entries, dir, source_extensions()).contains(descend(dir, names)) <==>
            leads_to_match(entries, names, seq!["cpp"@, "hpp"@, "h"@]),
{
    law_exactly_the_matching_files_are_collected(entries, dir, source_extensions(), names);
}

} // verus!
