//! Staging a Botan build as an installed package.

use vstd::prelude::*;

use crate::host::{joined, Host, HostView, Os};
use crate::location::{Location, LocationView, Root};
use crate::outside::{botan_release, botan_version};
use crate::plan::{Plan, Step, StepView};
use crate::text::{
    first, law_replacing_keeps_the_first, law_replacing_takes_the_start, lemma_first,
    lemma_replacing_keeps_start, occurs_at, replace, replaced,
};

verus! {

/// What the platform's build calls the static library.
pub open spec fn static_library(host: HostView) -> Seq<char> {
    if host.os == Os::Windows {
        "botan-3.lib"@
    } else {
        "libbotan-3.a"@
    }
}

/// The directory of the CMake package description.
pub open spec fn cmake_directory(botan_prefix: LocationView) -> LocationView {
    botan_prefix.join("lib"@).join("cmake"@).join("Botan-"@ + botan_release())
}

/// The text of the package's version file.
pub open spec fn version_file() -> Seq<char> {
    "set(PACKAGE_VERSION \""@ + botan_release() + "\")\n"@
}

/// The steps that describe the Botan installed in `botan_prefix` to CMake.
pub open spec fn config_steps(botan_prefix: LocationView) -> Seq<StepView> {
    let dir = cmake_directory(botan_prefix);
    seq![
        StepView::CreateDirs(dir),
        StepView::WriteBotanConfig(
            dir.join("BotanConfig.cmake"@),
            botan_prefix,
            "rnp-src: failed to write BotanConfig.cmake"@,
        ),
        StepView::Write(
            dir.join("BotanConfigVersion.cmake"@),
            version_file(),
            "rnp-src: failed to write BotanConfigVersion.cmake"@,
        ),
    ]
}

/// The steps that build Botan and bring its library, always as `libbotan-3.a`, and
/// its public headers to `prefix`.
pub open spec fn botan_steps(host: HostView, prefix: LocationView) -> Seq<StepView> {
    let botan_prefix = prefix.join("botan"@);
    let built = LocationView::root(Root::BotanBuild);
    seq![
        StepView::CreateDirs(botan_prefix.join("lib"@)),
        StepView::CreateDirs(botan_prefix.join("include"@)),
        StepView::BuildBotan,
        StepView::Require(built.join(static_library(host))),
        StepView::Copy(
            built.join(static_library(host)),
            botan_prefix.join("lib"@).join("libbotan-3.a"@),
            "rnp-src: failed to copy Botan static library into prefix"@,
        ),
        StepView::CopyTree(
            built.join("build"@).join("include"@).join("public"@),
            botan_prefix.join("include"@).join("botan-3"@),
            "rnp-src: failed to copy Botan public headers into prefix"@,
        ),
    ] + config_steps(botan_prefix)
}

/// The package description that `template` becomes for a Botan installed in the
/// directory with the path `prefix`.
pub open spec fn package_config(template: Seq<char>, prefix: Seq<char>) -> Seq<char> {
    replaced(
        replaced(template, "@BOTAN_VERSION@"@, botan_release()),
        "@BOTAN_PREFIX@"@,
        prefix,
    )
}

/// Fills in a package description's template.
pub fn botan_config(template: &str, prefix: &str) -> (config: String)
    ensures
        config@ == package_config(template@, prefix@),
{
    proof {
        reveal_strlit("@BOTAN_VERSION@");
        reveal_strlit("@BOTAN_PREFIX@");
    }
    let versioned: String = replace(template, "@BOTAN_VERSION@", botan_version());
    replace(versioned.as_str(), "@BOTAN_PREFIX@", prefix)
}

/// The steps that describe the Botan installed in `botan_prefix` to CMake.
pub fn write_botan_cmake_config(botan_prefix: &Location) -> (plan: Plan)
    ensures
        plan.wf(),
        plan@ == config_steps(botan_prefix@),
{
    let dir: Location = botan_prefix.join("lib").join("cmake").join(
        joined("Botan-", botan_version()).as_str(),
    );
    let mut plan: Plan = Plan::new();
    plan.push(Step::CreateDirs { path: dir.clone() });
    plan.push(
        Step::WriteBotanConfig {
            path: dir.join("BotanConfig.cmake"),
            prefix: botan_prefix.clone(),
            failure: "rnp-src: failed to write BotanConfig.cmake".to_string(),
        },
    );
    plan.push(
        Step::Write {
            path: dir.join("BotanConfigVersion.cmake"),
            text: joined(joined("set(PACKAGE_VERSION \"", botan_version()).as_str(), "\")\n"),
            failure: "rnp-src: failed to write BotanConfigVersion.cmake".to_string(),
        },
    );
    assert(plan@ =~= config_steps(botan_prefix@));
    plan
}

fn static_library_name(host: &Host) -> (name: &'static str)
    ensures
        name@ == static_library(host@),
{
    match host.os {
        Os::Windows => "botan-3.lib",
        _ => "libbotan-3.a",
    }
}

/// The steps that build Botan and bring it to `prefix`.
pub fn build_botan(host: &Host, prefix: &Location) -> (plan: Plan)
    ensures
        plan.wf(),
        plan@ == botan_steps(host@, prefix@),
{
    let botan_prefix: Location = prefix.join("botan");
    let lib: Location = botan_prefix.join("lib");
    let headers: Location = botan_prefix.join("include");
    let built: Location = Location::at(Root::BotanBuild);
    let library: Location = built.join(static_library_name(host));
    let mut plan: Plan = Plan::new();
    plan.push(Step::CreateDirs { path: lib.clone() });
    plan.push(Step::CreateDirs { path: headers.clone() });
    plan.push(Step::BuildBotan);
    plan.push(Step::Require { path: library.clone() });
    plan.push(
        Step::Copy {
            from: library,
            to: lib.join("libbotan-3.a"),
            failure: "rnp-src: failed to copy Botan static library into prefix".to_string(),
        },
    );
    plan.push(
        Step::CopyTree {
            from: built.join("build").join("include").join("public"),
            to: headers.join("botan-3"),
            failure: "rnp-src: failed to copy Botan public headers into prefix".to_string(),
        },
    );
    plan.append(write_botan_cmake_config(&botan_prefix));
    assert(plan@ =~= botan_steps(host@, prefix@));
    plan
}

/// A template without placeholders comes out as it is.
pub proof fn law_plain_template_is_kept(template: Seq<char>, prefix: Seq<char>)
    requires
        !crate::text::contains(template, "@BOTAN_VERSION@"@),
        !crate::text::contains(template, "@BOTAN_PREFIX@"@),
    ensures
        package_config(template, prefix) == template,
{
}

/// What starts a text with its versions filled in, and holds nothing of a version,
/// starts the text.
proof fn lemma_start_is_older_than_version(text: Seq<char>, start: Seq<char>)
    requires
        occurs_at(replaced(text, "@BOTAN_VERSION@"@, botan_release()), start, 0),
        forall|i: int| 0 <= i < start.len() ==> #[trigger] start[i] != '3',
    ensures
        occurs_at(text, start, 0),
{
    reveal_strlit("@BOTAN_VERSION@");
    reveal_strlit("3.13.0");
    let pattern = "@BOTAN_VERSION@"@;
    let filled = replaced(text, pattern, botan_release());
    lemma_first(text, pattern);
    match first(text, pattern) {
        Some(at) => {
            let size = start.len() as int;
            assert(filled.subrange(0, size) =~= start);
            if at < size {
                assert(filled[at] == '3');
                assert(filled.subrange(0, size)[at] == start[at]);
            }
            assert forall|i: int| 0 <= i < size implies text[i] == #[trigger] start[i] by {
                assert(filled.subrange(0, size)[i] == start[i]);
            }
            assert(text.subrange(0, size) =~= start);
        },
        None => {},
    }
}

/// The empty template comes out empty.
pub proof fn law_empty_template_stays_empty(prefix: Seq<char>)
    ensures
        package_config(Seq::<char>::empty(), prefix) == Seq::<char>::empty(),
{
    reveal_strlit("@BOTAN_VERSION@");
    reveal_strlit("@BOTAN_PREFIX@");
    let nothing = Seq::<char>::empty();
    lemma_first(nothing, "@BOTAN_VERSION@"@);
    lemma_first(nothing, "@BOTAN_PREFIX@"@);
}

/// A placeholder for the version is filled in wherever it stands: in front of any
/// template it becomes the version, and the template comes out as it does alone.
pub proof fn law_version_is_filled_in(rest: Seq<char>, prefix: Seq<char>)
    ensures
        package_config("@BOTAN_VERSION@"@ + rest, prefix) == "3.13.0"@ + package_config(
            rest,
            prefix,
        ),
{
    reveal_strlit("@BOTAN_VERSION@");
    reveal_strlit("@BOTAN_PREFIX@");
    reveal_strlit("3.13.0");
    let versioned = replaced(rest, "@BOTAN_VERSION@"@, botan_release());
    law_replacing_takes_the_start("@BOTAN_VERSION@"@, botan_release(), rest);
    let text = botan_release() + versioned;
    assert forall|i: int| 0 <= i < botan_release().len() implies !#[trigger] occurs_at(
        text,
        "@BOTAN_PREFIX@"@,
        i,
    ) by {
        if occurs_at(text, "@BOTAN_PREFIX@"@, i) {
            assert(text.subrange(i, i + 14)[0] == '@');
            assert(text[i] == botan_release()[i]);
        }
    }
    lemma_replacing_keeps_start(botan_release(), versioned, "@BOTAN_PREFIX@"@, prefix);
}

/// A placeholder for the prefix is filled in wherever it stands: in front of any
/// template it becomes the prefix, and the template comes out as it does alone. Left
/// out is only a template whose start makes the placeholder's last character that of a
/// placeholder for the version.
pub proof fn law_prefix_is_filled_in(rest: Seq<char>, prefix: Seq<char>)
    requires
        !occurs_at(rest, "BOTAN_VERSION@"@, 0),
    ensures
        package_config("@BOTAN_PREFIX@"@ + rest, prefix) == prefix + package_config(rest, prefix),
{
    reveal_strlit("@BOTAN_VERSION@");
    reveal_strlit("BOTAN_VERSION@");
    reveal_strlit("@BOTAN_PREFIX@");
    let place = "@BOTAN_PREFIX@"@;
    let text = place + rest;
    assert forall|i: int| 0 <= i < place.len() implies !#[trigger] occurs_at(
        text,
        "@BOTAN_VERSION@"@,
        i,
    ) by {
        if occurs_at(text, "@BOTAN_VERSION@"@, i) {
            let found = text.subrange(i, i + 15);
            assert(found =~= "@BOTAN_VERSION@"@);
            assert(found[0] == '@' && text[i] == place[i]);
            if i == 0 {
                assert(found[7] == text[7] && text[7] == place[7]);
            } else {
                assert(i == 13);
                assert forall|j: int| 0 <= j < 14 implies rest[j] == "BOTAN_VERSION@"@[j] by {
                    assert(found[j + 1] == text[14 + j]);
                }
                assert(rest.subrange(0, 14) =~= "BOTAN_VERSION@"@);
            }
        }
    }
    lemma_replacing_keeps_start(place, rest, "@BOTAN_VERSION@"@, botan_release());
    law_replacing_takes_the_start(
        place,
        prefix,
        replaced(rest, "@BOTAN_VERSION@"@, botan_release()),
    );
}

/// What belongs to no placeholder stays: a character with which no placeholder starts
/// comes out as it is, and what follows it comes out as it does alone.
pub proof fn law_other_text_is_kept(c: char, rest: Seq<char>, prefix: Seq<char>)
    requires
        !occurs_at(seq![c] + rest, "@BOTAN_VERSION@"@, 0),
        !occurs_at(seq![c] + rest, "@BOTAN_PREFIX@"@, 0),
    ensures
        package_config(seq![c] + rest, prefix) == seq![c] + package_config(rest, prefix),
{
    reveal_strlit("@BOTAN_VERSION@");
    reveal_strlit("@BOTAN_PREFIX@");
    let place = "@BOTAN_PREFIX@"@;
    let versioned = replaced(rest, "@BOTAN_VERSION@"@, botan_release());
    law_replacing_keeps_the_first(c, rest, "@BOTAN_VERSION@"@, botan_release());
    if occurs_at(seq![c] + versioned, place, 0) {
        let others = place.drop_first();
        let found = (seq![c] + versioned).subrange(0, 14);
        assert(found =~= place);
        assert(found[0] == c);
        assert forall|i: int| 0 <= i < 13 implies versioned[i] == others[i] by {
            assert(found[i + 1] == versioned[i]);
        }
        assert(versioned.subrange(0, 13) =~= others);
        lemma_start_is_older_than_version(rest, others);
        assert forall|i: int| 0 <= i < 14 implies (seq![c] + rest)[i] == place[i] by {
            if i > 0 {
                assert(rest.subrange(0, 13)[i - 1] == others[i - 1]);
            }
        }
        assert((seq![c] + rest).subrange(0, 14) =~= place);
    }
    law_replacing_keeps_the_first(c, versioned, place, prefix);
}

/// `pieces`, with `between` after each of them but the last.
pub open spec fn joined_by(pieces: Seq<Seq<char>>, between: Seq<char>) -> Seq<char>
    decreases pieces.len(),
{
    if pieces.len() == 0 {
        seq![]
    } else if pieces.len() == 1 {
        pieces[0]
    } else {
        pieces[0] + between + joined_by(pieces.drop_first(), between)
    }
}

/// `text` holds no `@`.
pub open spec fn without_at(text: Seq<char>) -> bool {
    forall|i: int| 0 <= i < text.len() ==> #[trigger] text[i] != '@'
}

/// Text without an `@` stays in front of whatever follows.
proof fn lemma_plain_start_is_kept(start: Seq<char>, rest: Seq<char>, prefix: Seq<char>)
    requires
        without_at(start),
    ensures
        package_config(start + rest, prefix) == start + package_config(rest, prefix),
    decreases start.len(),
{
    if start.len() == 0 {
        assert(start + rest =~= rest);
        assert(start + package_config(rest, prefix) =~= package_config(rest, prefix));
    } else {
        reveal_strlit("@BOTAN_VERSION@");
        reveal_strlit("@BOTAN_PREFIX@");
        let others = start.drop_first();
        let text = start + rest;
        assert(text =~= seq![start[0]] + (others + rest));
        if occurs_at(text, "@BOTAN_VERSION@"@, 0) {
            assert(text.subrange(0, 15)[0] == '@');
        }
        if occurs_at(text, "@BOTAN_PREFIX@"@, 0) {
            assert(text.subrange(0, 14)[0] == '@');
        }
        law_other_text_is_kept(start[0], others + rest, prefix);
        lemma_plain_start_is_kept(others, rest, prefix);
        assert(package_config(text, prefix) =~= start + package_config(rest, prefix));
    }
}

/// Every placeholder for the prefix is filled in, however many there are: a template
/// that is `pieces` with a placeholder between each two comes out as the pieces with the
/// prefix between them. Where the prefix holds no `@`, no placeholder is left.
pub proof fn law_every_prefix_is_filled_in(pieces: Seq<Seq<char>>, prefix: Seq<char>)
    requires
        forall|i: int| 0 <= i < pieces.len() ==> without_at(#[trigger] pieces[i]),
        forall|i: int| 0 < i < pieces.len() - 1 ==> #[trigger] pieces[i] != "BOTAN_VERSION"@,
    ensures
        package_config(joined_by(pieces, "@BOTAN_PREFIX@"@), prefix) == joined_by(pieces, prefix),
        without_at(prefix) ==> without_at(
            package_config(joined_by(pieces, "@BOTAN_PREFIX@"@), prefix),
        ),
    decreases pieces.len(),
{
    reveal_strlit("@BOTAN_PREFIX@");
    reveal_strlit("BOTAN_VERSION@");
    reveal_strlit("BOTAN_VERSION");
    let place = "@BOTAN_PREFIX@"@;
    if pieces.len() == 0 {
        law_empty_template_stays_empty(prefix);
    } else if pieces.len() == 1 {
        let nothing = Seq::<char>::empty();
        law_empty_template_stays_empty(prefix);
        lemma_plain_start_is_kept(pieces[0], nothing, prefix);
        assert(pieces[0] + nothing =~= pieces[0]);
        assert(without_at(pieces[0]));
    } else {
        let others = pieces.drop_first();
        let rest = joined_by(others, place);
        assert forall|i: int| 0 <= i < others.len() implies without_at(#[trigger] others[i]) by {
            assert(others[i] == pieces[i + 1]);
        }
        assert forall|i: int| 0 < i < others.len() - 1 implies #[trigger] others[i]
            != "BOTAN_VERSION"@ by {
            assert(others[i] == pieces[i + 1]);
        }
        law_every_prefix_is_filled_in(others, prefix);
        if occurs_at(rest, "BOTAN_VERSION@"@, 0) {
            let piece = pieces[1];
            let found = rest.subrange(0, 14);
            assert(found =~= "BOTAN_VERSION@"@);
            assert(others[0] == piece);
            assert(without_at(piece));
            assert forall|i: int| 0 <= i < 13 && i < piece.len() implies piece[i]
                == "BOTAN_VERSION"@[i] by {
                assert(found[i] == piece[i]);
            }
            if piece.len() > 13 {
                assert(found[13] == piece[13]);
            } else if piece.len() < 13 {
                if others.len() > 1 {
                    assert(found[piece.len() as int] == '@');
                }
            } else {
                assert(piece =~= "BOTAN_VERSION"@);
                assert(others.len() > 1);
            }
        }
        lemma_plain_start_is_kept(pieces[0], place + rest, prefix);
        assert(pieces[0] + place + rest =~= pieces[0] + (place + rest));
        law_prefix_is_filled_in(rest, prefix);
        assert(joined_by(pieces, prefix) =~= pieces[0] + (prefix + joined_by(others, prefix)));
        if without_at(prefix) {
            let whole = joined_by(pieces, prefix);
            let end = joined_by(others, prefix);
            assert(without_at(pieces[0]));
            assert forall|i: int| 0 <= i < whole.len() implies #[trigger] whole[i] != '@' by {
                if i >= pieces[0].len() + prefix.len() {
                    assert(whole[i] == end[i - pieces[0].len() - prefix.len()]);
                }
            }
        }
    }
}

/// The course of staging Botan: it is built; its static library must be there under the
/// name that the platform gives it, and is copied under one name on every platform; its
/// public headers are copied; and its package description is written for the place it is
/// in.
pub proof fn law_botan_is_staged_as_a_package(host: HostView, prefix: LocationView)
    ensures
        ({
            let list = botan_steps(host, prefix);
            let botan = prefix.join("botan"@);
            let built = LocationView { root: Root::BotanBuild, parts: seq![] };
            let library = list[3]->Require_0;
            let cmake = botan.join("lib"@).join("cmake"@).join("Botan-3.13.0"@);
            &&& list.len() == 9
            &&& list[0] == StepView::CreateDirs(botan.join("lib"@))
            &&& list[1] == StepView::CreateDirs(botan.join("include"@))
            &&& list[2] == StepView::BuildBotan
            &&& list[3] is Require
            &&& host.os == Os::Windows ==> library == built.join("botan-3.lib"@)
            &&& host.os != Os::Windows ==> library == built.join("libbotan-3.a"@)
            &&& list[4] == StepView::Copy(
                library,
                botan.join("lib"@).join("libbotan-3.a"@),
                "rnp-src: failed to copy Botan static library into prefix"@,
            )
            &&& list[5] == StepView::CopyTree(
                built.join("build"@).join("include"@).join("public"@),
                botan.join("include"@).join("botan-3"@),
                "rnp-src: failed to copy Botan public headers into prefix"@,
            )
            &&& list[6] == StepView::CreateDirs(cmake)
            &&& list[7] == StepView::WriteBotanConfig(
                cmake.join("BotanConfig.cmake"@),
                botan,
                "rnp-src: failed to write BotanConfig.cmake"@,
            )
            &&& list[8] == StepView::Write(
                cmake.join("BotanConfigVersion.cmake"@),
                "set(PACKAGE_VERSION \"3.13.0\")\n"@,
                "rnp-src: failed to write BotanConfigVersion.cmake"@,
            )
        }),
{
    reveal_strlit("Botan-");
    reveal_strlit("3.13.0");
    reveal_strlit("Botan-3.13.0");
    reveal_strlit("set(PACKAGE_VERSION \"");
    reveal_strlit("\")\n");
    reveal_strlit("set(PACKAGE_VERSION \"3.13.0\")\n");
    assert("Botan-"@ + botan_release() =~= "Botan-3.13.0"@);
    assert(version_file() =~= "set(PACKAGE_VERSION \"3.13.0\")\n"@);
    assert(LocationView::root(Root::BotanBuild) =~= (LocationView {
        root: Root::BotanBuild,
        parts: seq![],
    }));
}

} // verus!
