use archbrew::number::{parse_usize, to_decimal};
use archbrew::order::{precedes, sorted_order};
use archbrew::text::chars_of;

#[test]
fn decimals_are_those_of_display() {
    for n in vec![0u128, 1, 9, 10, 99, 100, 1234567890, u64::MAX as u128, u128::MAX] {
        assert_eq!(to_decimal(n), n.to_string());
    }
}

#[test]
fn parsing_is_that_of_usize() {
    let max = usize::MAX.to_string();
    let over = format!("{}0", usize::MAX);
    let next = "18446744073709551616".to_string();
    for s in vec![
        "", "0", "1", "007", "+5", "+", "-1", "-0", "++1", "1 ", " 1", "1a", "٣", "12345", &max,
        &over, &next,
    ] {
        assert_eq!(parse_usize(s), s.parse::<usize>().ok(), "{s:?}");
    }
}

#[test]
fn parsing_reads_what_was_written() {
    for n in vec![0usize, 1, 10, 4096, usize::MAX] {
        assert_eq!(parse_usize(&to_decimal(n as u128)), Some(n));
    }
}

#[test]
fn order_is_that_of_str() {
    let words = vec!["", "a", "aa", "ab", "b", "Z", "é", "漢", "z\u{10ffff}", "z"];
    for a in words.iter() {
        for b in words.iter() {
            assert_eq!(precedes(&chars_of(a), &chars_of(b)), a < b, "{a:?} {b:?}");
        }
    }
}

#[test]
fn sorting_is_stable_in_both_directions() {
    let keys: Vec<String> =
        vec!["b", "a", "c", "a", "b"].into_iter().map(|s| s.to_string()).collect();
    assert_eq!(sorted_order(&keys, false), vec![1, 3, 0, 4, 2]);
    assert_eq!(sorted_order(&keys, true), vec![2, 0, 4, 1, 3]);
    let none: Vec<String> = Vec::new();
    assert!(sorted_order(&none, true).is_empty());
}

#[test]
fn every_place_is_listed_once() {
    let keys: Vec<String> = (0..50).map(|i| format!("{}", (i * 37) % 11)).collect();
    let mut places = sorted_order(&keys, false);
    for w in 1..places.len() {
        assert!(keys[places[w - 1]] <= keys[places[w]]);
    }
    places.sort();
    assert_eq!(places, (0..50).collect::<Vec<usize>>());
}
