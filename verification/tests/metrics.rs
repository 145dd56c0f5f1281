use wordcount::error::EmptyContentError;
use wordcount::metrics::{bytes, chars, lines, max_line_length, whitespace, words};

#[test]
fn bytes_counts_encoded_bytes() {
    assert_eq!(bytes(""), 0);
    assert_eq!(bytes("hello world\n"), 12);
    assert_eq!(bytes("h\u{e9}llo"), 6);
    assert_eq!(bytes("\u{20ac}"), 3);
    assert_eq!(bytes("\u{1f600}"), 4);
}

#[test]
fn chars_counts_scalar_values() {
    assert_eq!(chars(""), 0);
    assert_eq!(chars("hello world\n"), 12);
    assert_eq!(chars("h\u{e9}llo"), 5);
    assert_eq!(chars("\u{1f600}\u{20ac}"), 2);
    // a letter and a combining accent are two scalar values
    assert_eq!(chars("e\u{301}"), 2);
}

#[test]
fn bytes_are_never_fewer_than_chars() {
    for text in ["", "abc", "h\u{e9}llo", "\u{20ac}\u{1f600}", "a\nb\r\n", "\u{3000}x"] {
        assert!(bytes(text) >= chars(text));
        assert_eq!(bytes(text) == chars(text), text.is_ascii());
    }
}

#[test]
fn lines_counts_segments() {
    assert_eq!(lines(""), 0);
    assert_eq!(lines("hello world\n"), 1);
    assert_eq!(lines("hello world"), 1);
    assert_eq!(lines("a\nb"), 2);
    assert_eq!(lines("a\nb\n"), 2);
    assert_eq!(lines("\n"), 1);
    assert_eq!(lines("\n\n"), 2);
    assert_eq!(lines("a\r\nb\r\n"), 2);
    assert_eq!(lines("a\rb"), 1);
    assert_eq!(lines("\r"), 1);
}

#[test]
fn lines_agrees_with_the_standard_library() {
    for text in [
        "", "a", "\n", "\r", "\r\n", "a\n", "a\r\n", "a\r", "a\n\nb", "a\r\r\n", "\n\r", "x\ny\nz",
        "one\r\ntwo\nthree\r", "\u{2028}a\u{2029}", "tab\tsep\n",
    ] {
        assert_eq!(lines(text), text.lines().count(), "{:?}", text);
    }
}

#[test]
fn words_counts_runs_between_white_space() {
    assert_eq!(words(""), 0);
    assert_eq!(words("hello world\n"), 2);
    assert_eq!(words("  hello   world  "), 2);
    assert_eq!(words("one"), 1);
    assert_eq!(words("a\tb\nc\r\nd\u{b}e\u{c}f"), 6);
    assert_eq!(words("a\u{a0}b\u{3000}c\u{2003}d"), 4);
    // a zero width space is no white space
    assert_eq!(words("a\u{200b}b"), 1);
}

#[test]
fn words_is_zero_exactly_on_blank_text() {
    for text in ["", " ", "\t\n\r ", "\u{85}\u{a0}\u{1680}\u{2028}\u{2029}\u{202f}\u{205f}\u{3000}"] {
        assert_eq!(words(text), 0, "{:?}", text);
        assert!(text.chars().all(|c| c.is_whitespace()));
    }
    for text in ["a", " a ", "\n.\n", "\u{200b}"] {
        assert!(words(text) > 0, "{:?}", text);
    }
}

#[test]
fn words_agrees_with_the_standard_library() {
    for text in [
        "", "a", " a", "a ", "a b", "a  b", "\ta\nb\r\nc ", "\u{a0}x\u{2000}y\u{200a}z", "x\u{200b}y",
        "\u{1f600} \u{20ac}", "a\u{85}b", "\u{feff}a b",
    ] {
        assert_eq!(words(text), text.split_whitespace().count(), "{:?}", text);
    }
}

#[test]
fn whitespace_agrees_with_the_standard_library_on_every_char() {
    let mut code: u32 = 0;
    while code <= 0x10FFFF {
        if let Some(c) = char::from_u32(code) {
            assert_eq!(whitespace(c), c.is_whitespace(), "U+{:04X}", code);
        }
        code += 1;
    }
}

#[test]
fn max_line_length_is_the_longest_line() {
    assert_eq!(max_line_length("hello world\n"), Ok(11));
    assert_eq!(max_line_length("a\nbcd\nef"), Ok(3));
    assert_eq!(max_line_length("abc\r\nde"), Ok(3));
    assert_eq!(max_line_length("\n"), Ok(0));
    assert_eq!(max_line_length("\r\n"), Ok(0));
    assert_eq!(max_line_length("ab\r"), Ok(3));
    assert_eq!(max_line_length("ab\r\r\n"), Ok(3));
    assert_eq!(max_line_length("x"), Ok(1));
}

#[test]
fn max_line_length_counts_chars_not_bytes() {
    assert_eq!(max_line_length("h\u{e9}llo\nab"), Ok(5));
    assert_eq!(max_line_length("\u{1f600}\u{1f600}\nabc"), Ok(3));
}

#[test]
fn max_line_length_of_empty_content_is_an_error() {
    assert_eq!(max_line_length(""), Err(EmptyContentError));
}

#[test]
fn max_line_length_agrees_with_the_standard_library() {
    for text in ["a", "\n", "a\r\nbb\nccc", "long line\nshort\r", "x\r\r\ny", "\u{20ac}\u{20ac}\n1"] {
        let expected = text.lines().map(|line| line.chars().count()).max().unwrap();
        assert_eq!(max_line_length(text), Ok(expected), "{:?}", text);
    }
}

#[test]
fn metrics_give_the_same_value_twice() {
    let text = "one two\nthree\r\n\u{20ac} four";
    assert_eq!(bytes(text), bytes(text));
    assert_eq!(chars(text), chars(text));
    assert_eq!(lines(text), lines(text));
    assert_eq!(words(text), words(text));
    assert_eq!(max_line_length(text), max_line_length(text));
}
