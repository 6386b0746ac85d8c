use grep_engine::CharCls::{AlphaNumeric, Digit, Literal, NegCharGroup, PosCharGroup};
use grep_engine::Quantifier::{One, OneOrMore, ZeroOrMore, ZeroOrOne};
use grep_engine::{
    extract_char_class, extract_pattern, extract_quantifier, match_char, match_next,
    match_pattern,
};

fn chars(s: &str) -> Vec<char> {
    s.chars().collect()
}

#[test]
fn literal_and_quantified_examples() {
    assert!(match_pattern("tcat", "cat"));
    assert!(!match_pattern("ca", "cat"));
    assert!(match_pattern("caaat", "ca+t"));
    assert!(!match_pattern("ca", "ca+t"));
    assert!(match_pattern("dog", "dogs?"));
    assert!(match_pattern("dogs", "dogs?"));
}

#[test]
fn plain_pattern_is_substring_search() {
    assert!(match_pattern("hello world", "o w"));
    assert!(match_pattern("abc", "abc"));
    assert!(!match_pattern("abc", "abd"));
    assert!(!match_pattern("abc", "abcd"));
    assert!(!match_pattern("", "a"));
}

#[test]
fn empty_input_never_matches() {
    assert!(!match_pattern("", ""));
    assert!(!match_pattern("", "a?"));
    assert!(match_pattern("x", ""));
}

#[test]
fn digit_class() {
    assert!(match_pattern("abc1", "\\d"));
    assert!(!match_pattern("abc", "\\d"));
    assert!(match_pattern("x\u{663}", "\\d"));
    assert!(match_pattern("a12b", "a\\d\\db"));
    assert!(!match_pattern("a1b", "a\\d\\db"));
}

#[test]
fn word_class() {
    assert!(match_pattern("!a", "\\w"));
    assert!(!match_pattern("!? -", "\\w"));
    assert!(match_pattern("\u{e9}", "\\w"));
    assert!(match_pattern("7", "\\w"));
}

#[test]
fn class_accepts_per_variant() {
    let group = chars("xy");
    assert!(Digit.accepts('5'));
    assert!(!Digit.accepts('a'));
    assert!(AlphaNumeric.accepts('a'));
    assert!(!AlphaNumeric.accepts('_'));
    assert!(PosCharGroup(&group).accepts('y'));
    assert!(!PosCharGroup(&group).accepts('z'));
    assert!(NegCharGroup(&group).accepts('z'));
    assert!(!NegCharGroup(&group).accepts('x'));
    assert!(Literal('q').accepts('q'));
    assert!(!Literal('q').accepts('Q'));
}

#[test]
fn positive_and_negative_groups() {
    assert!(match_pattern("xyzb", "[abc]"));
    assert!(!match_pattern("xyz", "[abc]"));
    assert!(!match_pattern("abcabc", "[^abc]"));
    assert!(match_pattern("abcd", "[^abc]"));
    let pattern = chars("[^xy]");
    let (cls, size) = extract_char_class(&pattern);
    assert_eq!(cls, NegCharGroup(&['x', 'y']));
    assert_eq!(size, 5);
}

#[test]
fn unclosed_group_is_a_literal_bracket() {
    let pattern = chars("[ab");
    let (cls, size) = extract_char_class(&pattern);
    assert_eq!(cls, Literal('['));
    assert_eq!(size, 1);
    assert!(match_pattern("x[ab", "[ab"));
    assert!(!match_pattern("xab", "[ab"));
}

#[test]
fn lone_backslash_is_a_literal() {
    let (cls, size) = extract_char_class(&['\\']);
    assert_eq!(cls, Literal('\\'));
    assert_eq!(size, 1);
    let (cls, size) = extract_char_class(&['\\', 'd']);
    assert_eq!(cls, Digit);
    assert_eq!(size, 2);
    let (cls, size) = extract_char_class(&['\\', 'w']);
    assert_eq!(cls, AlphaNumeric);
    assert_eq!(size, 2);
}

#[test]
fn start_anchor() {
    assert!(match_pattern("abcd", "^abc"));
    assert!(!match_pattern("xabc", "^abc"));
    assert!(match_pattern("x\nabc", "^abc"));
}

#[test]
fn end_anchor() {
    assert!(match_pattern("xabc", "abc$"));
    assert!(!match_pattern("abcx", "abc$"));
    assert!(match_pattern("abc\nx", "abc$"));
    assert!(!match_pattern("abc", "$"));
}

#[test]
fn quantifier_reading() {
    assert_eq!(extract_quantifier(&[]), (One, 0));
    assert_eq!(extract_quantifier(&['+']), (OneOrMore, 1));
    assert_eq!(extract_quantifier(&['*']), (ZeroOrMore, 1));
    assert_eq!(extract_quantifier(&['?']), (ZeroOrOne, 1));
    assert_eq!(extract_quantifier(&['x']), (One, 0));
}

#[test]
fn quantifier_counts_are_greedy() {
    let input = chars("aaab");
    assert_eq!(match_char(&input, &Literal('a'), One), 1);
    assert_eq!(match_char(&input, &Literal('a'), OneOrMore), 3);
    assert_eq!(match_char(&input, &Literal('a'), ZeroOrMore), 3);
    assert_eq!(match_char(&input, &Literal('a'), ZeroOrOne), 3);
    assert_eq!(match_char(&input, &Literal('b'), ZeroOrMore), 0);
    assert_eq!(match_char(&[], &Literal('a'), ZeroOrMore), 0);
    assert_eq!(match_char(&input, &NegCharGroup(&['b']), OneOrMore), 3);
}

#[test]
fn quantifiers_in_patterns() {
    assert!(match_pattern("b", "a?"));
    assert!(match_pattern("colour", "colou?r"));
    assert!(match_pattern("color", "colou?r"));
    assert!(!match_pattern("bbb", "a+"));
    assert!(match_pattern("bab", "a+"));
    assert!(match_pattern("caat", "ca*t"));
    assert!(!match_pattern("ct", "ca*t"));
}

#[test]
fn repetition_is_never_given_back() {
    assert!(!match_pattern("aa", "a*a"));
    assert!(!match_pattern("ab1", "\\w+1"));
}

#[test]
fn one_or_more_merges_following_atoms_of_the_same_class() {
    let pattern = chars("[ab]+[ab]x");
    let (cls, q, size) = extract_pattern(&pattern);
    assert_eq!(cls, PosCharGroup(&['a', 'b']));
    assert_eq!(q, OneOrMore);
    assert_eq!(size, 9);
    assert!(match_pattern("a", "a+a"));
    assert!(match_pattern("aaa", "a+a"));
}

#[test]
fn one_or_more_at_end_of_pattern() {
    let (cls, q, size) = extract_pattern(&['b', '+']);
    assert_eq!(cls, Literal('b'));
    assert_eq!(q, OneOrMore);
    assert_eq!(size, 2);
    assert!(match_pattern("abbb", "ab+"));
    assert!(match_pattern("abb", "ab+$"));
    assert!(!match_pattern("abbc", "ab+$"));
}

#[test]
fn match_at_a_given_offset() {
    let input = chars("xcat");
    let pattern = chars("cat");
    assert!(!match_next(&input, 0, &pattern));
    assert!(match_next(&input, 1, &pattern));
    assert!(!match_next(&input, 4, &pattern));
    let caret = chars("^cat");
    assert!(!match_next(&input, 1, &caret));
}

#[test]
fn same_question_same_answer() {
    let first = match_pattern("the 3 cats", "\\d ca+ts?$");
    let second = match_pattern("the 3 cats", "\\d ca+ts?$");
    assert_eq!(first, second);
    assert!(first);
}
