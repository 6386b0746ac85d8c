use grep_engine::CharCls::{Literal, PosCharGroup};
use grep_engine::Quantifier::{One, OneOrMore};
use grep_engine::{extract_char_class, extract_pattern, match_char, match_pattern};

#[test]
fn test_extract_char_class() {
    let pattern: Vec<char> = "[abcd]".chars().collect();
    let (cls, size) = extract_char_class(&pattern);
    assert_eq!(size, 6);
    assert_eq!(cls, PosCharGroup(&vec!['a', 'b', 'c', 'd']));
}

#[test]
fn test_match_char() {
    let group: Vec<char> = "abcd".chars().collect();
    let matched_count = match_char(&vec!['a'], &PosCharGroup(&group), One);
    assert_eq!(matched_count, 1);
}

#[test]
fn test_match_one_or_more_chars() {
    let matched_count = match_char(&vec!['a', 'a', 't'], &Literal('a'), OneOrMore);
    assert_eq!(matched_count, 2);
}

#[test]
fn test_extract_char_cls_quantifier() {
    let pattern: Vec<char> = "ca+t".chars().collect();
    let (c1, q1, m1) = extract_pattern(&pattern[0..]);
    let (c2, q2, m2) = extract_pattern(&pattern[m1..]);
    let (c3, q3, m3) = extract_pattern(&pattern[m1 + m2..]);

    assert_eq!(c1, Literal('c'));
    assert_eq!(q1, One);
    assert_eq!(m1, 1);
    assert_eq!(c2, Literal('a'));
    assert_eq!(q2, OneOrMore);
    assert_eq!(m2, 2);
    assert_eq!(c3, Literal('t'));
    assert_eq!(q3, One);
    assert_eq!(m3, 1);
}

#[test]
fn test_literal_match() {
    assert!(match_pattern("tcat", "cat"));
    assert!(!match_pattern("ca", "cat"));
}

#[test]
fn test_one_more_match_pattern() {
    assert!(match_pattern("caaat", "ca+t"));
    assert!(match_pattern("caaat", "ca+at"));
    assert!(!match_pattern("ca", "ca+t"));
}

#[test]
fn test_zero_or_one_match_pattern() {
    assert!(match_pattern("dogs", "dogs?"));
    assert!(match_pattern("dog", "dogs?"));
}
