use file_analyzer::search::{contains_chars, line_matches, search_word};
use file_analyzer::text::chars_of;

fn owned(v: &[(usize, &str)]) -> Vec<(usize, String)> {
    v.iter().map(|(n, s)| (*n, s.to_string())).collect()
}

#[test]
fn search_ignores_case() {
    assert_eq!(search_word("Hello World\nfoo", "hello"), owned(&[(1, "Hello World")]));
    assert_eq!(search_word("hello\nHELLO there", "HeLLo"), owned(&[(1, "hello"), (2, "HELLO there")]));
}

#[test]
fn search_without_matches() {
    assert_eq!(search_word("abc\ndef", "xyz"), owned(&[]));
    assert_eq!(search_word("", "a"), owned(&[]));
}

#[test]
fn search_empty_query_matches_every_line() {
    assert_eq!(search_word("a\nb", ""), owned(&[(1, "a"), (2, "b")]));
    assert_eq!(search_word("", ""), owned(&[]));
}

#[test]
fn search_keeps_line_numbers_and_text() {
    let text = "first Cat\r\nsecond\ncat third\n\nCATS";
    assert_eq!(
        search_word(text, "cat"),
        owned(&[(1, "first Cat"), (3, "cat third"), (5, "CATS")])
    );
}

#[test]
fn search_twice_gives_same_result() {
    let text = "alpha\nbeta\nAlphabet";
    assert_eq!(search_word(text, "alpha"), search_word(text, "alpha"));
}

#[test]
fn substring_tests() {
    assert!(line_matches("hello world", "lo w"));
    assert!(!line_matches("abc", "abd"));
    assert!(line_matches("", ""));
    assert!(!line_matches("", "a"));
    assert!(!line_matches("ab", "abc"));
    assert!(contains_chars(&chars_of("abcabd"), &chars_of("abd")));
    assert!(!contains_chars(&chars_of("Hello"), &chars_of("hello")));
}
