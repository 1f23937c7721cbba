use archbrew::suggest::{levenshtein, parse_error_report, suggest_command};

#[test]
fn distances() {
    assert_eq!(levenshtein("", ""), 0);
    assert_eq!(levenshtein("", "abc"), 3);
    assert_eq!(levenshtein("abc", ""), 3);
    assert_eq!(levenshtein("kitten", "sitting"), 3);
    assert_eq!(levenshtein("flaw", "lawn"), 2);
    assert_eq!(levenshtein("né", "ne"), 1);
    assert_eq!(levenshtein("instal", "install"), 1);
}

#[test]
fn distance_is_a_metric() {
    let words = vec!["", "a", "ab", "ba", "install", "uninstall", "list"];
    for a in words.iter() {
        for b in words.iter() {
            assert_eq!(levenshtein(a, b), levenshtein(b, a));
            assert_eq!(levenshtein(a, b) == 0, a == b);
            assert!(levenshtein(a, b) <= a.len().max(b.len()));
            for c in words.iter() {
                assert!(levenshtein(a, c) <= levenshtein(a, b) + levenshtein(b, c));
            }
        }
    }
}

#[test]
fn known_commands_suggest_themselves() {
    for c in vec![
        "install", "update", "upgrade", "search", "info", "uninstall", "list", "doctor", "clean",
        "help",
    ] {
        assert_eq!(suggest_command(c), Some(c));
        assert_eq!(suggest_command(&c.to_uppercase()), Some(c));
    }
}

#[test]
fn near_misses_are_suggested() {
    assert_eq!(suggest_command("instal"), Some("install"));
    assert_eq!(suggest_command("serach"), Some("search"));
    assert_eq!(suggest_command("updaet"), Some("update"));
    assert_eq!(suggest_command("LSIT"), Some("list"));
    assert_eq!(suggest_command("doct"), Some("doctor"));
    assert_eq!(suggest_command("installxyzuvw"), Some("install"));
}

#[test]
fn far_misses_are_not() {
    assert_eq!(suggest_command("frobnicate"), None);
    assert_eq!(suggest_command("zzzzzzzzzzzz"), None);
}

#[test]
fn the_first_of_equally_near_commands_wins() {
    // "info", "list" and "help" are four edits away, and the empty text begins each of them.
    assert_eq!(suggest_command(""), Some("info"));
}

#[test]
fn unknown_commands_are_explained() {
    assert_eq!(
        parse_error_report(true, Some("instal")),
        Some(vec![
            "\x1b[31merror:\x1b[0m unknown command 'instal'".to_string(),
            "Did you meant brew install ?".to_string(),
            "For help, use 'brew help'.".to_string(),
        ])
    );
    assert_eq!(parse_error_report(true, Some("frobnicate")), None);
    assert_eq!(parse_error_report(true, Some("--instal")), None);
    assert_eq!(parse_error_report(true, None), None);
    assert_eq!(parse_error_report(false, Some("instal")), None);
}
