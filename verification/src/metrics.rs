//! The five metrics of a text, each defined on the text's characters.

use crate::error::EmptyContentError;
use vstd::prelude::*;
use vstd::std_specs::iter::IteratorSpec;
use vstd::utf8::{encode_scalar, encode_utf8, is_ascii_chars};

verus! {

/// Whether `c` is white space: the characters that Unicode classes as
/// `White_Space`.
pub open spec fn is_whitespace(c: char) -> bool {
    ||| '\u{9}' <= c <= '\u{D}'
    ||| c == ' '
    ||| c == '\u{85}'
    ||| c == '\u{A0}'
    ||| c == '\u{1680}'
    ||| '\u{2000}' <= c <= '\u{200A}'
    ||| c == '\u{2028}'
    ||| c == '\u{2029}'
    ||| c == '\u{202F}'
    ||| c == '\u{205F}'
    ||| c == '\u{3000}'
}

/// Tests a character for white space.
pub fn whitespace(c: char) -> (b: bool)
    ensures
        b == is_whitespace(c),
{
    let u: u32 = c as u32;
    (0x09 <= u && u <= 0x0D) || u == 0x20 || u == 0x85 || u == 0xA0 || u == 0x1680 || (0x2000 <= u
        && u <= 0x200A) || u == 0x2028 || u == 0x2029 || u == 0x202F || u == 0x205F || u == 0x3000
}

/// The number of bytes that the text takes in UTF-8.
pub open spec fn byte_count(text: Seq<char>) -> nat {
    encode_utf8(text).len()
}

/// Counts the bytes of `content`.
pub fn bytes(content: &str) -> (n: usize)
    ensures
        n == byte_count(content@),
{
    content.as_bytes().len()
}

/// Counts the characters of `content`.
pub fn chars(content: &str) -> (n: usize)
    ensures
        n == content@.len(),
{
    content.unicode_len()
}

/// A character is its code point, which is not negative.
proof fn lemma_char_range(c: char)
    ensures
        '\0' <= c,
        c as u32 == c as int,
{
}

/// A text never takes fewer bytes than it has characters, and takes as many
/// exactly when all of its characters are ASCII.
pub proof fn lemma_bytes_and_chars(text: Seq<char>)
    ensures
        byte_count(text) >= text.len(),
        byte_count(text) == text.len() <==> is_ascii_chars(text),
    decreases text.len(),
{
    if text.len() > 0 {
        let rest = text.drop_first();
        lemma_bytes_and_chars(rest);
        lemma_char_range(text[0]);
        if is_ascii_chars(text) {
            assert forall|i: int| 0 <= i < rest.len() implies #[trigger] rest[i] <= '\u{7f}' by {
                assert(rest[i] == text[i + 1]);
            }
        }
        if is_ascii_chars(rest) && text[0] <= '\u{7f}' {
            assert forall|i: int| 0 <= i < text.len() implies '\0' <= #[trigger] text[i]
                <= '\u{7f}' by {
                if i > 0 {
                    assert(text[i] == rest[i - 1]);
                }
            }
        }
    }
}

/// Whether a word starts at position `i` of the text: a character that is no
/// white space, at the start of the text or right after white space.
pub open spec fn starts_word(text: Seq<char>, i: int) -> bool {
    &&& 0 <= i < text.len()
    &&& !is_whitespace(text[i])
    &&& (i == 0 || is_whitespace(text[i - 1]))
}

/// The number of words of the text: the number of positions at which one starts.
pub open spec fn word_count(text: Seq<char>) -> nat
    decreases text.len(),
{
    if text.len() == 0 {
        0
    } else {
        word_count(text.drop_last()) + if starts_word(text, text.len() - 1) {
            1nat
        } else {
            0nat
        }
    }
}

/// Counts the words of `content`.
pub fn words(content: &str) -> (n: usize)
    ensures
        n == word_count(content@),
{
    let size = bytes(content);
    proof {
        lemma_bytes_and_chars(content@);
    }
    let mut it = content.chars();
    let mut n: usize = 0;
    let mut in_word = false;
    let ghost mut i: int = 0;
    loop
        invariant
            0 <= i <= content@.len() <= size,
            it.remaining() == content@.skip(i),
            n == word_count(content@.take(i)),
            n <= i,
            in_word == (i > 0 && !is_whitespace(content@[i - 1])),
        decreases content@.len() - i,
    {
        match it.next() {
            None => {
                assert(content@.take(i) == content@);
                return n;
            },
            Some(c) => {
                let space = whitespace(c);
                if !space && !in_word {
                    n = n + 1;
                }
                in_word = !space;
                proof {
                    assert(content@.take(i + 1).drop_last() == content@.take(i));
                    i = i + 1;
                }
            },
        }
    }
}

/// The words of a text are none exactly when all of it is white space.
pub proof fn lemma_no_words_iff_blank(text: Seq<char>)
    ensures
        word_count(text) == 0 <==> forall|i: int| 0 <= i < text.len() ==> is_whitespace(text[i]),
    decreases text.len(),
{
    if text.len() > 0 {
        let front = text.drop_last();
        let last = text.len() - 1;
        lemma_no_words_iff_blank(front);
        if word_count(front) == 0 && is_whitespace(text[last]) {
            assert forall|i: int| 0 <= i < text.len() implies is_whitespace(text[i]) by {
                if i < last {
                    assert(front[i] == text[i]);
                }
            }
        }
    }
}

/// The number of characters before the first line feed of the text, or the
/// length of the text where it holds none.
pub open spec fn first_line_len(text: Seq<char>) -> nat
    decreases text.len(),
{
    if text.len() == 0 || text[0] == '\n' {
        0
    } else {
        1 + first_line_len(text.drop_first())
    }
}

/// The line without the carriage return that ends it, if one does.
pub open spec fn without_cr(line: Seq<char>) -> Seq<char> {
    if line.len() > 0 && line.last() == '\r' {
        line.drop_last()
    } else {
        line
    }
}

/// The lines of the text. A line ends at a line feed; the line feed, and a
/// carriage return right before it, belong to no line. What follows the last
/// line feed is a line too, as it stands, unless it is empty.
pub open spec fn split_lines(text: Seq<char>) -> Seq<Seq<char>>
    decreases text.len(),
{
    let k = first_line_len(text) as int;
    if text.len() == 0 {
        Seq::empty()
    } else if k < text.len() {
        seq![without_cr(text.take(k))] + split_lines(text.skip(k + 1))
    } else {
        seq![text]
    }
}

/// The number of lines of the text.
pub open spec fn line_count(text: Seq<char>) -> nat {
    split_lines(text).len()
}

/// The length of the longest of the lines, 0 where there is none.
pub open spec fn max_len(lines: Seq<Seq<char>>) -> nat
    decreases lines.len(),
{
    if lines.len() == 0 {
        0
    } else {
        let rest = max_len(lines.drop_last());
        if lines.last().len() > rest {
            lines.last().len()
        } else {
            rest
        }
    }
}

/// The number of characters of the longest line of the text.
pub open spec fn longest_line(text: Seq<char>) -> nat {
    max_len(split_lines(text))
}

/// The first line of a text ends at the first line feed, or where the text
/// ends without one.
proof fn lemma_first_line_len(text: Seq<char>, k: int)
    requires
        0 <= k <= text.len(),
        forall|j: int| 0 <= j < k ==> text[j] != '\n',
        k == text.len() || text[k] == '\n',
    ensures
        first_line_len(text) == k,
    decreases k,
{
    if k > 0 {
        lemma_first_line_len(text.drop_first(), k - 1);
    }
}

/// Counts the lines of `content` and measures the longest of them.
fn scan_lines(content: &str) -> (r: (usize, usize))
    ensures
        r.0 == line_count(content@),
        r.1 == longest_line(content@),
{
    let size = bytes(content);
    proof {
        lemma_bytes_and_chars(content@);
    }
    let ghost text = content@;
    let mut it = content.chars();
    let mut count: usize = 0;
    let mut best: usize = 0;
    let mut cur: usize = 0;
    let mut after_cr = false;
    let ghost mut i: int = 0;
    let ghost mut start: int = 0;
    let ghost mut done: Seq<Seq<char>> = Seq::empty();
    loop
        invariant
            text == content@,
            0 <= start <= i <= text.len() <= size,
            it.remaining() == text.skip(i),
            split_lines(text) == done + split_lines(text.skip(start)),
            forall|j: int| start <= j < i ==> text[j] != '\n',
            cur == i - start,
            after_cr == (i > start && text[i - 1] == '\r'),
            count == done.len(),
            count <= start,
            best == max_len(done),
        decreases text.len() - i,
    {
        let ghost tail = text.skip(start);
        match it.next() {
            None => {
                proof {
                    lemma_first_line_len(tail, tail.len() as int);
                }
                if cur > 0 {
                    proof {
                        assert(split_lines(text) == done.push(tail));
                        assert(done.push(tail).drop_last() == done);
                    }
                    count = count + 1;
                    if cur > best {
                        best = cur;
                    }
                }
                return (count, best);
            },
            Some(c) => {
                if c == '\n' {
                    let len = if after_cr {
                        cur - 1
                    } else {
                        cur
                    };
                    proof {
                        let k = i - start;
                        lemma_first_line_len(tail, k);
                        let line = without_cr(tail.take(k));
                        assert(tail.skip(k + 1) == text.skip(i + 1));
                        assert(done.push(line).drop_last() == done);
                        done = done.push(line);
                        start = i + 1;
                    }
                    count = count + 1;
                    if len > best {
                        best = len;
                    }
                    cur = 0;
                    after_cr = false;
                } else {
                    cur = cur + 1;
                    after_cr = c == '\r';
                }
                proof {
                    i = i + 1;
                }
            },
        }
    }
}

/// Counts the lines of `content`.
pub fn lines(content: &str) -> (n: usize)
    ensures
        n == line_count(content@),
{
    scan_lines(content).0
}

/// A text has no line exactly when it is empty.
pub proof fn lemma_no_lines_iff_empty(text: Seq<char>)
    ensures
        line_count(text) == 0 <==> text.len() == 0,
{
}

/// The number of line feeds of a text.
pub open spec fn line_feeds(text: Seq<char>) -> nat
    decreases text.len(),
{
    if text.len() == 0 {
        0
    } else {
        line_feeds(text.drop_first()) + if text[0] == '\n' {
            1nat
        } else {
            0nat
        }
    }
}

/// The first line of a text holds no line feed and ends at one or at the end
/// of the text; what follows it holds all line feeds but that one.
proof fn lemma_first_line(text: Seq<char>)
    ensures
        first_line_len(text) <= text.len(),
        forall|j: int| 0 <= j < first_line_len(text) ==> text[j] != '\n',
        first_line_len(text) < text.len() ==> text[first_line_len(text) as int] == '\n',
        line_feeds(text) == if first_line_len(text) < text.len() {
            line_feeds(text.skip(first_line_len(text) as int + 1)) + 1
        } else {
            0
        },
    decreases text.len(),
{
    if text.len() > 0 {
        let rest = text.drop_first();
        if text[0] == '\n' {
            assert(text.skip(1) == rest);
        } else {
            lemma_first_line(rest);
            let k = first_line_len(rest) as int;
            assert forall|j: int| 0 <= j < k + 1 implies text[j] != '\n' by {
                if j > 0 {
                    assert(text[j] == rest[j - 1]);
                }
            }
            if k < rest.len() {
                assert(text[k + 1] == rest[k]);
                assert(text.skip(k + 2) == rest.skip(k + 1));
            }
        }
    }
}

/// A text has a line for each of its line feeds, and one more where it does
/// not end with a line feed, unless it is empty.
pub proof fn lemma_line_count(text: Seq<char>)
    ensures
        line_count(text) == line_feeds(text) + if text.len() > 0 && text.last() != '\n' {
            1nat
        } else {
            0nat
        },
    decreases text.len(),
{
    lemma_first_line(text);
    let k = first_line_len(text) as int;
    if k < text.len() {
        let rest = text.skip(k + 1);
        lemma_line_count(rest);
        if rest.len() > 0 {
            assert(rest.last() == text.last());
        }
    } else if text.len() > 0 {
        assert(text.last() == text[text.len() - 1]);
    }
}

/// The longest line of a text is one of its lines, and none of them is longer.
pub proof fn lemma_longest_line_is_longest(text: Seq<char>)
    ensures
        forall|i: int|
            0 <= i < split_lines(text).len() ==> (#[trigger] split_lines(text)[i]).len()
                <= longest_line(text),
        text.len() > 0 ==> exists|i: int|
            0 <= i < split_lines(text).len() && (#[trigger] split_lines(text)[i]).len()
                == longest_line(text),
{
    lemma_no_lines_iff_empty(text);
    lemma_max_len(split_lines(text));
}

/// The greatest length of some lines is that of one of them, and none of
/// them is longer.
proof fn lemma_max_len(lines: Seq<Seq<char>>)
    ensures
        forall|i: int| 0 <= i < lines.len() ==> (#[trigger] lines[i]).len() <= max_len(lines),
        lines.len() > 0 ==> exists|i: int|
            0 <= i < lines.len() && (#[trigger] lines[i]).len() == max_len(lines),
    decreases lines.len(),
{
    if lines.len() > 0 {
        let front = lines.drop_last();
        lemma_max_len(front);
        assert forall|i: int| 0 <= i < lines.len() implies (#[trigger] lines[i]).len() <= max_len(
            lines,
        ) by {
            if i < front.len() {
                assert(front[i] == lines[i]);
            }
        }
        if front.len() > 0 && lines.last().len() <= max_len(front) {
            let i = choose|i: int|
                0 <= i < front.len() && (#[trigger] front[i]).len() == max_len(front);
            assert(lines[i].len() == max_len(lines));
        } else {
            assert(lines[lines.len() - 1].len() == max_len(lines));
        }
    }
}

/// Measures the longest line of `content`, in characters. An empty text has
/// no line, and so no longest one.
pub fn max_line_length(content: &str) -> (r: Result<usize, EmptyContentError>)
    ensures
        match r {
            Ok(n) => content@.len() > 0 && n == longest_line(content@),
            Err(_) => content@.len() == 0,
        },
{
    let (count, longest) = scan_lines(content);
    proof {
        lemma_no_lines_iff_empty(content@);
    }
    if count == 0 {
        Err(EmptyContentError)
    } else {
        Ok(longest)
    }
}

} // verus!
