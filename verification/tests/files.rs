use rnp_src::aliases::{apply_lib_aliases, is_before};
use rnp_src::includes::librnp_sources;
use rnp_src::location::{Location, Root};
use rnp_src::tree::{collect_files, copy_dir_recursive, Node, TreeStep};

fn pairs(list: &[(&str, &str)]) -> Vec<(String, String)> {
    list.iter()
        .map(|(a, b)| (a.to_string(), b.to_string()))
        .collect()
}

fn names(list: &[&str]) -> Vec<String> {
    list.iter().map(|s| s.to_string()).collect()
}

fn path(location: &Location) -> String {
    let root = match location.root {
        Root::OutDir => "OUT",
        Root::BotanBuild => "BOTAN",
    };
    let mut text = root.to_string();
    for part in &location.parts {
        text.push('/');
        text.push_str(part);
    }
    text
}

fn file(name: &str, extension: Option<&str>) -> Node {
    Node::File {
        name: name.to_string(),
        extension: extension.map(|e| e.to_string()),
    }
}

fn sample() -> Vec<Node> {
    vec![
        file("a.cpp", Some("cpp")),
        Node::Dir {
            name: "sub".to_string(),
            entries: vec![
                file("b.h", Some("h")),
                file("c.txt", Some("txt")),
                Node::Dir {
                    name: "closed".to_string(),
                    entries: vec![Node::Broken],
                },
            ],
        },
        file("README", None),
        file("d.hpp", Some("hpp")),
    ]
}

#[test]
fn an_alias_copies_the_file_that_is_there() {
    let aliases = pairs(&[("libzlibstatic.a", "libz.a")]);
    let plan = apply_lib_aliases(&aliases, &names(&["libzlibstatic.a"]));
    assert_eq!(plan.copies, aliases);
    assert!(plan.missing.is_empty());
}

#[test]
fn an_alias_overwrites_nothing() {
    let aliases = pairs(&[("libzlibstatic.a", "libz.a")]);
    let plan = apply_lib_aliases(&aliases, &names(&["libzlibstatic.a", "libz.a"]));
    assert!(plan.copies.is_empty());
    assert!(plan.missing.is_empty());
}

#[test]
fn missing_names_are_sorted_and_listed_once() {
    let aliases = pairs(&[("x", "libz.a"), ("y", "liba.a"), ("w", "libz.a"), ("v", "liba")]);
    let plan = apply_lib_aliases(&aliases, &names(&[]));
    assert!(plan.copies.is_empty());
    assert_eq!(plan.missing, ["liba", "liba.a", "libz.a"]);
}

#[test]
fn aliases_see_what_earlier_ones_made() {
    let aliases = pairs(&[("a", "b"), ("b", "c")]);
    let plan = apply_lib_aliases(&aliases, &names(&["a"]));
    assert_eq!(plan.copies, aliases);
    assert!(plan.missing.is_empty());
}

#[test]
fn aliasing_again_copies_nothing() {
    let aliases = pairs(&[("libzlibstatic.a", "libz.a"), ("libzs.a", "libz.a")]);
    let plan = apply_lib_aliases(&aliases, &names(&["libzs.a", "libz.a"]));
    assert!(plan.copies.is_empty());
    let plan = apply_lib_aliases(&aliases, &names(&["libzs.a"]));
    assert_eq!(plan.copies, pairs(&[("libzs.a", "libz.a")]));
}

#[test]
fn an_alias_whose_source_comes_later_is_taken_up_again() {
    let aliases = pairs(&[("a", "b"), ("c", "a")]);
    let plan = apply_lib_aliases(&aliases, &names(&["c"]));
    assert_eq!(plan.copies, pairs(&[("c", "a"), ("a", "b")]));
    assert!(plan.missing.is_empty());
    let plan = apply_lib_aliases(&aliases, &names(&["c", "a", "b"]));
    assert!(plan.copies.is_empty());
    assert!(plan.missing.is_empty());
}

#[test]
fn a_chain_in_any_order_is_followed_to_its_end() {
    let aliases = pairs(&[("c", "d"), ("b", "c"), ("a", "b"), ("x", "y")]);
    let plan = apply_lib_aliases(&aliases, &names(&["a"]));
    assert_eq!(plan.copies, pairs(&[("a", "b"), ("b", "c"), ("c", "d")]));
    assert_eq!(plan.missing, ["y"]);
    let plan = apply_lib_aliases(&aliases, &names(&["a", "b", "c", "d"]));
    assert!(plan.copies.is_empty());
    assert_eq!(plan.missing, ["y"]);
}

#[test]
fn aliases_in_a_circle_end() {
    let aliases = pairs(&[("b", "a"), ("a", "b"), ("a", "a")]);
    let plan = apply_lib_aliases(&aliases, &names(&["a"]));
    assert_eq!(plan.copies, pairs(&[("a", "b")]));
    assert!(plan.missing.is_empty());
    let plan = apply_lib_aliases(&aliases, &names(&[]));
    assert!(plan.copies.is_empty());
    assert_eq!(plan.missing, ["a", "b"]);
}

#[test]
fn the_order_of_texts_is_that_of_strings() {
    let samples = ["", "a", "ab", "b", "B", "é", "z", "\u{ffff}", "\u{10000}"];
    for a in samples {
        for b in samples {
            assert_eq!(is_before(a, b), a < b, "{a:?} {b:?}");
        }
    }
}

#[test]
fn sources_are_collected_in_order() {
    let dir = Location::at(Root::OutDir).join("src");
    let found: Vec<String> = librnp_sources(&sample(), &dir).iter().map(path).collect();
    assert_eq!(
        found,
        ["OUT/src/a.cpp", "OUT/src/sub/b.h", "OUT/src/d.hpp"]
    );
}

#[test]
fn collecting_appends() {
    let dir = Location::at(Root::OutDir);
    let mut out = vec![dir.join("first")];
    collect_files(&sample(), &dir, &names(&["txt"]), &mut out);
    let found: Vec<String> = out.iter().map(path).collect();
    assert_eq!(found, ["OUT/first", "OUT/sub/c.txt"]);
}

#[test]
fn a_tree_is_copied_to_the_same_places() {
    let src = Location::at(Root::BotanBuild).join("public");
    let dst = Location::at(Root::OutDir).join("botan-3");
    let shown: Vec<String> = copy_dir_recursive(&sample(), &src, &dst)
        .iter()
        .map(|step| match step {
            TreeStep::CreateDirs { path: p } => format!("mkdir {}", path(p)),
            TreeStep::Replace { from, to } => format!("cp {} {}", path(from), path(to)),
            TreeStep::Fail { path: p } => format!("fail {}", path(p)),
        })
        .collect();
    assert_eq!(
        shown,
        [
            "mkdir OUT/botan-3",
            "cp BOTAN/public/a.cpp OUT/botan-3/a.cpp",
            "mkdir OUT/botan-3/sub",
            "cp BOTAN/public/sub/b.h OUT/botan-3/sub/b.h",
            "cp BOTAN/public/sub/c.txt OUT/botan-3/sub/c.txt",
            "mkdir OUT/botan-3/sub/closed",
            "fail BOTAN/public/sub/closed",
            "cp BOTAN/public/README OUT/botan-3/README",
            "cp BOTAN/public/d.hpp OUT/botan-3/d.hpp",
        ]
    );
}

#[test]
fn a_directory_that_cannot_be_read_fails_after_it_is_made() {
    let src = Location::at(Root::BotanBuild);
    let dst = Location::at(Root::OutDir);
    let steps = copy_dir_recursive(&vec![Node::Broken], &src, &dst);
    assert_eq!(steps.len(), 2);
    assert!(matches!(&steps[0], TreeStep::CreateDirs { path: p } if path(p) == "OUT"));
    assert!(matches!(&steps[1], TreeStep::Fail { path: p } if path(p) == "BOTAN"));
}

#[test]
fn a_listing_that_breaks_off_fails_after_what_came_before() {
    let src = Location::at(Root::BotanBuild);
    let dst = Location::at(Root::OutDir);
    let steps = copy_dir_recursive(&vec![file("a.h", Some("h")), Node::Broken], &src, &dst);
    assert_eq!(steps.len(), 3);
    assert!(matches!(&steps[1], TreeStep::Replace { to, .. } if path(to) == "OUT/a.h"));
    assert!(matches!(&steps[2], TreeStep::Fail { path: p } if path(p) == "BOTAN"));
}

#[test]
fn joined_names_stay_apart() {
    let a = Location::at(Root::OutDir).join("a");
    assert_eq!(path(&a.join("b")), "OUT/a/b");
    assert_eq!(path(&a.clone()), "OUT/a");
    assert_ne!(path(&a.join("b")), path(&a.join("c")));
}
