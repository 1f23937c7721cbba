use archbrew::text::{
    chars_of, contains, copy_strings, ends_with, is_white_space, join, lines, list_contains,
    matches_at, replace, same, starts_with, string_of, strip_prefix, to_ascii_lowercase, trim,
    trim_end, trim_start,
};

fn samples() -> Vec<&'static str> {
    vec![
        "",
        " ",
        "a",
        "\t a \n",
        "\u{a0}x\u{3000}",
        "\u{85}\u{1680}y\u{2028}\u{2029}\u{202f}\u{205f}",
        "[core]",
        "Server = https://x/$repo/os/$arch",
        "a\nb\r\nc\r",
        "\n\n",
        "a\r\r\nb",
        "ÄÖÜ mixed CASE é",
        "ababab",
        "aaaa",
        "$repo$repo",
    ]
}

#[test]
fn white_space_is_that_of_char() {
    let mut code: u32 = 0;
    while code <= 0x10ffff {
        if let Some(c) = char::from_u32(code) {
            assert_eq!(is_white_space(c), c.is_whitespace(), "{code:x}");
        }
        code += 1;
    }
}

#[test]
fn trimming_is_that_of_str() {
    for s in samples() {
        assert_eq!(trim(s), s.trim());
        assert_eq!(trim_start(s), s.trim_start());
        assert_eq!(trim_end(s), s.trim_end());
    }
}

#[test]
fn lower_case_is_that_of_str() {
    for s in samples() {
        assert_eq!(to_ascii_lowercase(s), s.to_ascii_lowercase());
    }
    assert_eq!(to_ascii_lowercase("AZaz@[`{09"), "azaz@[`{09");
}

#[test]
fn searching_is_that_of_str() {
    for s in samples() {
        for p in vec!["", "a", "ab", "aa", "\n", "$repo", "É", "]", "aba"] {
            assert_eq!(contains(s, p), s.contains(p), "{s:?} {p:?}");
            assert_eq!(starts_with(s, p), s.starts_with(p));
            assert_eq!(ends_with(s, p), s.ends_with(p));
            assert_eq!(strip_prefix(s, p), s.strip_prefix(p));
        }
    }
}

#[test]
fn replacing_is_that_of_str() {
    for s in samples() {
        for p in vec!["a", "ab", "aa", "$repo", "$arch"] {
            for w in vec!["", "x", "aa", "$repo"] {
                assert_eq!(replace(s, p, w), s.replace(p, w), "{s:?} {p:?} {w:?}");
            }
        }
    }
}

#[test]
fn lines_are_those_of_str() {
    for s in samples() {
        let expected: Vec<String> = s.lines().map(|l| l.to_string()).collect();
        assert_eq!(lines(s), expected, "{s:?}");
    }
}

#[test]
fn joining_is_that_of_slices() {
    let none: Vec<String> = Vec::new();
    assert_eq!(join(&none, ", "), "");
    let three = vec!["a".to_string(), "".to_string(), "c".to_string()];
    assert_eq!(join(&three, ", "), "a, , c");
    assert_eq!(join(&vec!["one".to_string()], "/"), "one");
}

#[test]
fn characters_and_back() {
    let chars = chars_of("aé漢");
    assert_eq!(chars, vec!['a', 'é', '漢']);
    assert_eq!(string_of(&chars, 0, 3), "aé漢");
    assert_eq!(string_of(&chars, 1, 2), "é");
    assert_eq!(string_of(&chars, 2, 2), "");
    assert!(matches_at(&chars, &chars_of("é漢"), 1));
    assert!(!matches_at(&chars, &chars_of("é漢"), 2));
    assert!(same("é", "é"));
    assert!(!same("é", "e"));
}

#[test]
fn lists_of_strings() {
    let list = vec!["a".to_string(), "b".to_string()];
    assert!(list_contains(&list, "b"));
    assert!(!list_contains(&list, "c"));
    assert_eq!(copy_strings(&list), list);
}
