use rnp_src::includes::patch_librnp_botan_includes;
use rnp_src::text::{chars_of, find, find_line_end, insert_at, replace};
use rnp_src::words::{decimal, has_words, holds, is_white, split_whitespace, trim};

#[test]
fn white_space_is_the_unicode_property() {
    for code in 0..=0x10ffffu32 {
        if let Some(c) = char::from_u32(code) {
            assert_eq!(is_white(c), c.is_whitespace(), "{code:x}");
        }
    }
}

#[test]
fn trim_and_split_agree_with_the_standard_library() {
    let samples = [
        "",
        " ",
        "\t\n",
        "a",
        " a ",
        "a b",
        "  -DA=1\t -DB=2\n",
        "\u{3000}x\u{a0}y\u{85}",
        "é  ü",
    ];
    for s in samples {
        assert_eq!(trim(s), s.trim());
        assert_eq!(has_words(s), !s.trim().is_empty());
        let expected: Vec<&str> = s.split_whitespace().collect();
        assert_eq!(split_whitespace(s), expected);
    }
}

#[test]
fn words_keep_the_text() {
    let s = " -DA=1  -DB=2 ";
    let joined: String = split_whitespace(s).concat();
    let kept: String = s.chars().filter(|c| !c.is_whitespace()).collect();
    assert_eq!(joined, kept);
    for word in split_whitespace(s) {
        assert!(!word.is_empty());
        assert!(!word.chars().any(|c| c.is_whitespace()));
    }
}

#[test]
fn decimal_numerals() {
    for n in [0u64, 1, 9, 10, 11, 99, 100, 536870912, u64::MAX] {
        assert_eq!(decimal(n), n.to_string());
    }
}

#[test]
fn membership() {
    let list = vec!["a".to_string(), "b".to_string()];
    assert!(holds(&list, &"b".to_string()));
    assert!(!holds(&list, &"c".to_string()));
}

#[test]
fn find_is_leftmost() {
    let text = chars_of("xaabaab");
    assert_eq!(find(&text, &chars_of("aab")), Some(1));
    assert_eq!(find(&text, &chars_of("b")), Some(3));
    assert_eq!(find(&text, &chars_of("c")), None);
    assert_eq!(find(&text, &chars_of("xaabaabx")), None);
    assert_eq!(find(&text, &chars_of("")), Some(0));
}

#[test]
fn lines_end_after_their_break() {
    let text = chars_of("ab\ncd");
    assert_eq!(find_line_end(&text, 0), 3);
    assert_eq!(find_line_end(&text, 2), 3);
    assert_eq!(find_line_end(&text, 3), 5);
    assert_eq!(find_line_end(&text, 5), 5);
}

#[test]
fn insertion_counts_characters() {
    assert_eq!(insert_at("äöü", 1, "-"), "ä-öü");
    assert_eq!(insert_at("ab", 2, "c"), "abc");
}

#[test]
fn replace_agrees_with_the_standard_library() {
    for (text, from, to) in [
        ("aaa", "aa", "b"),
        ("v@V@ and @V@", "@V@", "1"),
        ("@V@", "@V@", "@V@@V@"),
        ("none", "@V@", "1"),
        ("", "x", "y"),
    ] {
        assert_eq!(replace(text, from, to), text.replace(from, to));
    }
}

#[test]
fn adds_an_include_after_the_first_botan_one() {
    let source = "#include \"a.h\"\n#include <botan/ecdh.h>\n#include <x>\nBotan::EC_Group g;\n";
    let expected = "#include \"a.h\"\n#include <botan/ecdh.h>\n#include <botan/ec_group.h>\n#include <x>\nBotan::EC_Group g;\n";
    assert_eq!(patch_librnp_botan_includes(source).unwrap(), expected);
}

#[test]
fn adds_an_include_after_the_first_one_of_any_kind() {
    let source = "// x\n#include <cstring>\nBotan::BigInt n;";
    let expected = "// x\n#include <cstring>\n#include <botan/bigint.h>\nBotan::BigInt n;";
    assert_eq!(patch_librnp_botan_includes(source).unwrap(), expected);
}

#[test]
fn later_entries_go_after_the_first_added_one() {
    let source = "#include <a>\nBotan::EC_Group g; Botan::BigInt n;\n";
    let expected = "#include <a>\n#include <botan/ec_group.h>\n#include <botan/bigint.h>\nBotan::EC_Group g; Botan::BigInt n;\n";
    assert_eq!(patch_librnp_botan_includes(source).unwrap(), expected);
}

#[test]
fn a_last_line_without_a_break_is_ended_first() {
    let source = "Botan::X448_PrivateKey k; #include <a>";
    let expected = "Botan::X448_PrivateKey k; #include <a>\n#include <botan/x448.h>\n";
    assert_eq!(patch_librnp_botan_includes(source).unwrap(), expected);
    let source = "// Botan::BigInt\n#include <botan/ecdh.h>";
    let patched = patch_librnp_botan_includes(source).unwrap();
    let lines: Vec<&str> = patched.lines().collect();
    assert_eq!(
        lines,
        [
            "// Botan::BigInt",
            "#include <botan/ecdh.h>",
            "#include <botan/bigint.h>"
        ]
    );
}

#[test]
fn an_include_in_quotes_counts() {
    let source = "#include \"botan/bigint.h\"\nBotan::BigInt n;\n";
    assert_eq!(patch_librnp_botan_includes(source), None);
}

#[test]
fn an_include_goes_after_a_botan_one_in_quotes() {
    let source = "#include <a>\n#include \"botan/rng.h\"\n#include <botan/ecdh.h>\nBotan::BigInt n;\n";
    let expected = "#include <a>\n#include \"botan/rng.h\"\n#include <botan/bigint.h>\n#include <botan/ecdh.h>\nBotan::BigInt n;\n";
    assert_eq!(patch_librnp_botan_includes(source).unwrap(), expected);
    let source = "#include <botan/ecdh.h>\n#include \"botan/rng.h\"\nBotan::BigInt n;\n";
    let expected = "#include <botan/ecdh.h>\n#include <botan/bigint.h>\n#include \"botan/rng.h\"\nBotan::BigInt n;\n";
    assert_eq!(patch_librnp_botan_includes(source).unwrap(), expected);
}

#[test]
fn a_source_without_includes_is_written_back_as_it_is() {
    let source = "Botan::BigInt n;\n";
    assert_eq!(patch_librnp_botan_includes(source).unwrap(), source);
}

#[test]
fn a_complete_source_is_left_alone() {
    assert_eq!(patch_librnp_botan_includes("int main() {}\n"), None);
    assert_eq!(
        patch_librnp_botan_includes("#include <botan/bigint.h>\nBotan::BigInt n;\n"),
        None
    );
}

#[test]
fn every_listed_type_gets_its_header() {
    let table = [
        ("Botan::EC_Group", "botan/ec_group.h"),
        ("Botan::EC_AffinePoint", "botan/ec_apoint.h"),
        ("Botan::BigInt", "botan/bigint.h"),
        ("Botan::ECDH_PrivateKey", "botan/ecdh.h"),
        ("Botan::ECDSA_PrivateKey", "botan/ecdsa.h"),
        ("Botan::Ed25519_PrivateKey", "botan/ed25519.h"),
        ("Botan::Ed448_PrivateKey", "botan/ed448.h"),
        ("Botan::X25519_PrivateKey", "botan/x25519.h"),
        ("Botan::X448_PrivateKey", "botan/x448.h"),
    ];
    for (name, header) in table {
        let source = format!("#include <a>\n{name} x;\n");
        let expected = format!("#include <a>\n#include <{header}>\n{name} x;\n");
        assert_eq!(patch_librnp_botan_includes(&source).unwrap(), expected);
    }
}

#[test]
fn patching_twice_is_patching_once() {
    let source = "#include <botan/rng.h>\nBotan::EC_Group g; Botan::Ed448_PrivateKey k;\n";
    let once = patch_librnp_botan_includes(source).unwrap();
    assert_eq!(patch_librnp_botan_includes(&once), None);
    let bare = "Botan::BigInt n;\n";
    let once = patch_librnp_botan_includes(bare).unwrap();
    assert_eq!(patch_librnp_botan_includes(&once).unwrap(), once);
}
