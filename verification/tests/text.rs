use hgrep::syntect_printer::syntax_override;
use hgrep::text::{char_columns, char_len_utf8, chars_of, num_digits, suffix, text_len_utf8};

fn chars(s: &str) -> Vec<char> {
    s.chars().collect()
}

#[test]
fn num_digits_counts_decimal_digits() {
    assert_eq!(num_digits(0), 1);
    assert_eq!(num_digits(9), 1);
    assert_eq!(num_digits(10), 2);
    assert_eq!(num_digits(999), 3);
    assert_eq!(num_digits(1000), 4);
    assert_eq!(num_digits(999_999_999_999_999_999), 18);
    assert_eq!(num_digits(1_000_000_000_000_000_000), 19);
    assert_eq!(num_digits(u64::MAX), 20);
}

#[test]
fn utf8_lengths() {
    assert_eq!(char_len_utf8('a'), 1);
    assert_eq!(char_len_utf8('\u{7f}'), 1);
    assert_eq!(char_len_utf8('\u{80}'), 2);
    assert_eq!(char_len_utf8('é'), 2);
    assert_eq!(char_len_utf8('\u{7ff}'), 2);
    assert_eq!(char_len_utf8('\u{800}'), 3);
    assert_eq!(char_len_utf8('あ'), 3);
    assert_eq!(char_len_utf8('\u{ffff}'), 3);
    assert_eq!(char_len_utf8('\u{10000}'), 4);
    assert_eq!(char_len_utf8('\u{1f600}'), 4);
    for c in ['a', 'é', 'あ', '\u{1f600}', '\u{0}', '\u{10ffff}'] {
        assert_eq!(char_len_utf8(c), c.len_utf8());
    }
    assert_eq!(text_len_utf8(&chars("aéあ\u{1f600}")), 10);
    assert_eq!(text_len_utf8(&chars("")), 0);
}

#[test]
fn columns_of_characters() {
    assert_eq!(char_columns('a'), 1);
    assert_eq!(char_columns(' '), 1);
    assert_eq!(char_columns('あ'), 2);
    assert_eq!(char_columns('\u{1f600}'), 2);
    assert_eq!(char_columns('\t'), 0);
    assert_eq!(char_columns('\n'), 0);
    assert_eq!(char_columns('\u{200d}'), 0);
    // Ambiguous characters are wide, as in CJK contexts.
    assert_eq!(char_columns('─'), 2);
    // The widest character there is.
    assert_eq!(char_columns('\u{17d8}'), 3);
}

#[test]
fn characters_of_a_string() {
    assert_eq!(chars_of("aあ\u{1f600}"), vec!['a', 'あ', '\u{1f600}']);
    assert!(chars_of("").is_empty());
    assert_eq!(suffix(&chars("hello"), 2), chars("llo"));
    assert_eq!(suffix(&chars("hello"), 5), chars(""));
    assert_eq!(suffix(&chars("hello"), 0), chars("hello"));
}

#[test]
fn extensions_with_a_syntax_of_their_own() {
    assert_eq!(syntax_override(&chars("fs")), Some("F#"));
    assert_eq!(syntax_override(&chars("h")), Some("C++"));
    assert_eq!(syntax_override(&chars("pac")), Some("JavaScript (Babel)"));
    assert_eq!(syntax_override(&chars("rs")), None);
    assert_eq!(syntax_override(&chars("FS")), None);
    assert_eq!(syntax_override(&chars("")), None);
    assert_eq!(syntax_override(&chars("hh")), None);
}
