use file_analyzer::analysis::{analyze_text, AnalysisResult};
use file_analyzer::lines::line_spans;
use file_analyzer::text::{chars_of, substring};
use file_analyzer::words::{is_whitespace, word_spans};

fn average(r: &AnalysisResult) -> f32 {
    if r.words == 0 {
        0.0
    } else {
        r.total_word_length as f32 / r.words as f32
    }
}

#[test]
fn empty_text_has_no_stats() {
    let r = analyze_text("");
    assert_eq!(r.characters, 0);
    assert_eq!(r.words, 0);
    assert_eq!(r.lines, 0);
    assert_eq!(r.longest_word, "");
    assert_eq!(r.total_word_length, 0);
    assert_eq!(average(&r), 0.0);
}

#[test]
fn blank_text_has_no_words() {
    let r = analyze_text("  \t\n \r\n");
    assert_eq!(r.words, 0);
    assert_eq!(r.longest_word, "");
    assert_eq!(average(&r), 0.0);
    let r = analyze_text("\u{3000}\u{a0}\u{2028}\u{85}");
    assert_eq!(r.words, 0);
    let r = analyze_text("   x  ");
    assert_eq!(r.words, 1);
    assert_eq!(r.longest_word, "x");
}

#[test]
fn unicode_whitespace_separates_words() {
    let r = analyze_text("a\u{3000}b\u{a0}c\u{2009}d");
    assert_eq!(r.words, 4);
    assert!(is_whitespace('\u{205f}'));
    assert!(!is_whitespace('\u{200b}'));
    assert!(!is_whitespace('x'));
}

#[test]
fn analyze_twice_gives_same_result() {
    let text = "one two\nthree four five\n";
    let a = analyze_text(text);
    let b = analyze_text(text);
    assert_eq!(a.characters, b.characters);
    assert_eq!(a.words, b.words);
    assert_eq!(a.lines, b.lines);
    assert_eq!(a.longest_word, b.longest_word);
    assert_eq!(a.total_word_length, b.total_word_length);
}

#[test]
fn longest_word_first_on_tie() {
    let r = analyze_text("a bb cc");
    assert_eq!(r.longest_word, "bb");
    assert_eq!(r.words, 3);
    assert_eq!(r.total_word_length, 5);
}

#[test]
fn longest_word_counts_characters_not_bytes() {
    let r = analyze_text("\u{e9}\u{e9}\u{e9} abcd");
    assert_eq!(r.longest_word, "abcd");
    assert_eq!(r.characters, 8);
    assert_eq!(r.total_word_length, 7);
}

#[test]
fn line_counting() {
    assert_eq!(analyze_text("a\nb\nc").lines, 3);
    assert_eq!(analyze_text("a\nb\nc\n").lines, 3);
    assert_eq!(analyze_text("\n").lines, 1);
    assert_eq!(analyze_text("a\n\nb").lines, 3);
    assert_eq!(analyze_text("a\r\nb\r\n").lines, 2);
}

#[test]
fn end_to_end_sample() {
    let r = analyze_text("The quick brown fox\njumps over the lazy dog\n");
    assert_eq!(r.characters, 44);
    assert_eq!(r.words, 9);
    assert_eq!(r.lines, 2);
    assert_eq!(r.longest_word, "quick");
    assert_eq!(r.total_word_length, 35);
    assert!((average(&r) - 4.0).abs() < 0.15);
}

#[test]
fn spans_of_words_and_lines() {
    let cs = chars_of(" ab  c\r\nd\n");
    assert_eq!(word_spans(&cs), vec![(1, 3), (5, 6), (8, 9)]);
    assert_eq!(line_spans(&cs), vec![(0, 6), (8, 9)]);
    assert_eq!(substring(&cs, 1, 3), "ab");
    assert_eq!(substring(&cs, 2, 2), "");
}
