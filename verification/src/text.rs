//! Small facts and helpers about texts that the rest of the library shares.

use vstd::prelude::*;
use vstd::string::*;
use vstd::utf8::*;

verus! {

/// The bytes of a text whose characters are all ASCII: one byte for each
/// character, with the character's own code.
pub open spec fn text_bytes(text: Seq<char>) -> Seq<u8> {
    Seq::new(text.len(), |i: int| text[i] as u8)
}

/// Two texts with the same encoding are the same text.
pub proof fn lemma_same_bytes_same_text(a: Seq<char>, b: Seq<char>)
    requires
        encode_utf8(a) == encode_utf8(b),
    ensures
        a == b,
{
    encode_utf8_decode_utf8(a);
    encode_utf8_decode_utf8(b);
}

/// Whether two texts are equal, character for character.
pub fn same_text(a: &str, b: &str) -> (same: bool)
    ensures
        same == (a@ == b@),
{
    let left = a.as_bytes();
    let right = b.as_bytes();
    if left.len() != right.len() {
        return false;
    }
    let mut i: usize = 0;
    while i < left.len()
        invariant
            i <= left.len(),
            left.len() == right.len(),
            left@ == a.spec_bytes(),
            right@ == b.spec_bytes(),
            forall|j: int| 0 <= j < i ==> left@[j] == right@[j],
        decreases left.len() - i,
    {
        if left[i] != right[i] {
            return false;
        }
        i += 1;
    }
    proof {
        assert(left@ =~= right@);
        lemma_same_bytes_same_text(a@, b@);
    }
    true
}

/// The number of characters of an ASCII text.
pub(crate) fn ascii_len(text: &str) -> (n: usize)
    requires
        text.is_ascii(),
    ensures
        n == text@.len(),
{
    proof {
        is_ascii_spec_bytes(text);
    }
    text.as_bytes().len()
}

/// Whether a character is a decimal digit.
pub open spec fn is_digit(c: char) -> bool {
    '0' <= c <= '9'
}

/// The number that a decimal digit stands for.
pub open spec fn digit_value(c: char) -> nat {
    (c as nat - '0' as nat) as nat
}

/// Whether every character of a text is a decimal digit.
pub open spec fn all_digits(text: Seq<char>) -> bool {
    forall|i: int| 0 <= i < text.len() ==> is_digit(#[trigger] text[i])
}

/// The number that a text of decimal digits stands for, the empty text
/// standing for zero.
pub open spec fn decimal_value(text: Seq<char>) -> nat
    decreases text.len(),
{
    if text.len() == 0 {
        0
    } else {
        10 * decimal_value(text.drop_last()) + digit_value(text.last())
    }
}

/// A number in decimal notation is at least the number that any of its
/// beginnings stands for.
pub proof fn lemma_decimal_value_grows(text: Seq<char>, k: int)
    requires
        all_digits(text),
        0 <= k <= text.len(),
    ensures
        decimal_value(text.take(k)) <= decimal_value(text),
    decreases text.len(),
{
    if k == text.len() {
        assert(text.take(k) =~= text);
    } else {
        lemma_decimal_value_grows(text.drop_last(), k);
        assert(text.drop_last().take(k) =~= text.take(k));
    }
}

/// The number below `limit` that a text writes in decimal notation: the text
/// is one digit or more, and leading zeros do not count. A text that is
/// anything else, or that stands for `limit` or more, writes none.
pub open spec fn number_below(text: Seq<char>, limit: nat) -> Option<nat> {
    if text.len() > 0 && all_digits(text) && decimal_value(text) < limit {
        Some(decimal_value(text))
    } else {
        None
    }
}

/// Reads the number that an ASCII text writes, where it is at most `max`.
pub(crate) fn parse_number(text: &str, max: u32) -> (number: Option<u32>)
    requires
        text.is_ascii(),
        max < 100_000_000,
    ensures
        number_below(text@, max as nat + 1) == match number {
            Some(n) => Some(n as nat),
            None => None,
        },
{
    let n = ascii_len(text);
    if n == 0 {
        return None;
    }
    let mut value: u32 = 0;
    let mut i: usize = 0;
    while i < n
        invariant
            text.is_ascii(),
            n == text@.len(),
            i <= n,
            max < 100_000_000,
            value <= max,
            all_digits(text@.take(i as int)),
            value == decimal_value(text@.take(i as int)),
        decreases n - i,
    {
        let b = text.get_ascii(i);
        if b < 48 || b > 57 {
            assert(!is_digit(text@[i as int]));
            return None;
        }
        let digit: u32 = (b - 48) as u32;
        let next: u32 = value * 10 + digit;
        proof {
            assert(text@.take(i + 1).drop_last() =~= text@.take(i as int));
            assert(text@.take(i + 1).last() == text@[i as int]);
            assert(digit == digit_value(text@[i as int]));
            assert(next == decimal_value(text@.take(i + 1)));
            assert forall|j: int| 0 <= j < i + 1 implies is_digit(#[trigger] text@.take(i + 1)[j]) by {
                if j < i {
                    assert(text@.take(i + 1)[j] == text@.take(i as int)[j]);
                }
            }
        }
        if next > max {
            proof {
                if all_digits(text@) {
                    lemma_decimal_value_grows(text@, i + 1);
                }
            }
            return None;
        }
        value = next;
        i += 1;
    }
    proof {
        assert(text@.take(n as int) =~= text@);
    }
    Some(value)
}

/// Where `c` first stands in a text: the number of characters before it, or
/// the length of the text where it does not occur.
pub open spec fn first_index(text: Seq<char>, c: char) -> int
    decreases text.len(),
{
    if text.len() == 0 || text[0] == c {
        0
    } else {
        1 + first_index(text.drop_first(), c)
    }
}

/// `first_index` is the one place before which `c` does not stand and at
/// which it does, or the text ends.
pub proof fn lemma_first_index(text: Seq<char>, c: char, at: int)
    requires
        0 <= at <= text.len(),
        forall|j: int| 0 <= j < at ==> text[j] != c,
        at < text.len() ==> text[at] == c,
    ensures
        first_index(text, c) == at,
    decreases text.len(),
{
    if at > 0 {
        lemma_first_index(text.drop_first(), c, at - 1);
    }
}

/// Before `first_index` the character does not stand, and at it the
/// character stands or the text ends.
pub proof fn lemma_first_index_found(text: Seq<char>, c: char)
    ensures
        0 <= first_index(text, c) <= text.len(),
        forall|j: int| 0 <= j < first_index(text, c) ==> text[j] != c,
        first_index(text, c) < text.len() ==> text[first_index(text, c)] == c,
    decreases text.len(),
{
    if !(text.len() == 0 || text[0] == c) {
        let rest = text.drop_first();
        lemma_first_index_found(rest, c);
        assert forall|j: int| 0 <= j < first_index(text, c) implies text[j] != c by {
            if j > 0 {
                assert(rest[j - 1] == text[j]);
            }
        }
    }
}

/// Finds where the ASCII character with code `code` first stands in an
/// ASCII text.
pub(crate) fn find_first(text: &str, code: u8) -> (at: usize)
    requires
        text.is_ascii(),
        code < 128,
    ensures
        at == first_index(text@, code as char),
        at <= text@.len(),
        forall|j: int| 0 <= j < at ==> text@[j] != code as char,
        at < text@.len() ==> text@[at as int] == code as char,
{
    let n = ascii_len(text);
    let mut i: usize = 0;
    while i < n && text.get_ascii(i) != code
        invariant
            text.is_ascii(),
            n == text@.len(),
            i <= n,
            code < 128,
            forall|j: int| 0 <= j < i ==> text@[j] != code as char,
        decreases n - i,
    {
        i += 1;
    }
    proof {
        lemma_first_index(text@, code as char, i as int);
    }
    i
}

/// Whether a character is blank: a space, a tab or a carriage return.
pub open spec fn is_blank(c: char) -> bool {
    c == ' ' || c == '\t' || c == '\r'
}

/// Whether the ASCII character with this code is blank.
pub(crate) fn is_blank_code(code: u8) -> (blank: bool)
    ensures
        blank == (code == 32 || code == 9 || code == 13),
{
    code == 32 || code == 9 || code == 13
}

/// A text without the blanks at its two ends.
pub open spec fn trimmed(text: Seq<char>) -> Seq<char>
    decreases text.len(),
{
    if text.len() == 0 {
        text
    } else if is_blank(text[0]) {
        trimmed(text.drop_first())
    } else if is_blank(text.last()) {
        trimmed(text.drop_last())
    } else {
        text
    }
}

/// `trimmed` is the stretch of the text that has only blanks before it and
/// after it and, unless it is empty, no blank at either end.
pub proof fn lemma_trimmed(text: Seq<char>, from: int, to: int)
    requires
        0 <= from <= to <= text.len(),
        forall|j: int| 0 <= j < from ==> is_blank(text[j]),
        forall|j: int| to <= j < text.len() ==> is_blank(text[j]),
        from < to ==> !is_blank(text[from]) && !is_blank(text[to - 1]),
    ensures
        trimmed(text) == text.subrange(from, to),
    decreases text.len(),
{
    if text.len() == 0 {
        assert(text.subrange(from, to) =~= text);
    } else if is_blank(text[0]) {
        let rest = text.drop_first();
        if from < to {
            lemma_trimmed(rest, from - 1, to - 1);
            assert(rest.subrange(from - 1, to - 1) =~= text.subrange(from, to));
        } else {
            lemma_trimmed(rest, 0, 0);
            assert(rest.subrange(0, 0) =~= text.subrange(from, to));
        }
    } else if is_blank(text.last()) {
        let rest = text.drop_last();
        if from < to {
            lemma_trimmed(rest, from, to);
            assert(rest.subrange(from, to) =~= text.subrange(from, to));
        } else {
            assert(false);
        }
    } else {
        assert(text.subrange(from, to) =~= text);
    }
}

/// A text is ASCII where what is left of it without the blanks at its ends
/// is ASCII.
pub proof fn lemma_trimmed_ascii(text: Seq<char>)
    requires
        is_ascii_chars(trimmed(text)),
    ensures
        is_ascii_chars(text),
    decreases text.len(),
{
    if text.len() == 0 {
    } else if is_blank(text[0]) {
        let rest = text.drop_first();
        lemma_trimmed_ascii(rest);
        assert forall|j: int| 0 <= j < text.len() implies '\0' <= #[trigger] text[j]
            <= '\u{7f}' by {
            if j > 0 {
                assert(rest[j - 1] == text[j]);
            }
        }
    } else if is_blank(text.last()) {
        let rest = text.drop_last();
        lemma_trimmed_ascii(rest);
        assert forall|j: int| 0 <= j < text.len() implies '\0' <= #[trigger] text[j]
            <= '\u{7f}' by {
            if j < text.len() - 1 {
                assert(rest[j] == text[j]);
            }
        }
    }
}

/// Cuts the blanks off the two ends of an ASCII text.
pub(crate) fn trim(text: &str) -> (cut: &str)
    requires
        text.is_ascii(),
    ensures
        cut.is_ascii(),
        cut@ == trimmed(text@),
{
    let n = ascii_len(text);
    let mut from: usize = 0;
    while from < n && is_blank_code(text.get_ascii(from))
        invariant
            text.is_ascii(),
            n == text@.len(),
            from <= n,
            forall|j: int| 0 <= j < from ==> is_blank(text@[j]),
        decreases n - from,
    {
        from += 1;
    }
    let mut to: usize = n;
    while to > from && is_blank_code(text.get_ascii(to - 1))
        invariant
            text.is_ascii(),
            n == text@.len(),
            from <= to <= n,
            forall|j: int| to <= j < n ==> is_blank(text@[j]),
        decreases to,
    {
        to -= 1;
    }
    proof {
        lemma_trimmed(text@, from as int, to as int);
    }
    text.substring_ascii(from, to)
}

/// The lines of a text: the stretches between its line feeds, in order. A
/// text without a line feed is one line, so the empty text is one empty line.
pub open spec fn lines_of(text: Seq<char>) -> Seq<Seq<char>>
    decreases text.len(),
{
    let end = first_index(text, '\n');
    if 0 <= end < text.len() {
        seq![text.take(end)] + lines_of(text.skip(end + 1))
    } else {
        seq![text]
    }
}

/// Lines put together again, with a line feed between each two.
pub open spec fn joined(lines: Seq<Seq<char>>) -> Seq<char>
    decreases lines.len(),
{
    if lines.len() == 0 {
        Seq::empty()
    } else if lines.len() == 1 {
        lines[0]
    } else {
        lines[0] + seq!['\n'] + joined(lines.drop_first())
    }
}

/// The lines of a text are the text cut at every line feed: there is at
/// least one line, no line holds a line feed, and the lines put together
/// again are the text.
pub proof fn lemma_lines_of(text: Seq<char>)
    ensures
        lines_of(text).len() >= 1,
        forall|i: int, j: int|
            0 <= i < lines_of(text).len() && 0 <= j < lines_of(text)[i].len() ==> #[trigger] lines_of(
                text,
            )[i][j] != '\n',
        joined(lines_of(text)) == text,
    decreases text.len(),
{
    let end = first_index(text, '\n');
    lemma_first_index_found(text, '\n');
    let lines = lines_of(text);
    if 0 <= end < text.len() {
        let head = text.take(end);
        let rest = text.skip(end + 1);
        lemma_lines_of(rest);
        assert(lines.drop_first() =~= lines_of(rest));
        assert(lines[0] == head);
        assert(head + seq!['\n'] + rest =~= text);
        assert forall|i: int, j: int| 0 <= i < lines.len() && 0 <= j < lines[i].len() implies
            #[trigger] lines[i][j] != '\n' by {
            if i > 0 {
                assert(lines[i] == lines_of(rest)[i - 1]);
            }
        }
    } else {
        assert(lines[0] == text);
    }
}

/// A text is ASCII where each of its lines is.
pub proof fn lemma_lines_ascii(text: Seq<char>)
    requires
        forall|i: int|
            0 <= i < lines_of(text).len() ==> is_ascii_chars(#[trigger] lines_of(text)[i]),
    ensures
        is_ascii_chars(text),
    decreases text.len(),
{
    let end = first_index(text, '\n');
    lemma_first_index_found(text, '\n');
    if 0 <= end < text.len() {
        let head = text.take(end);
        let rest = text.skip(end + 1);
        let lines = lines_of(text);
        assert(lines[0] == head);
        assert forall|i: int| 0 <= i < lines_of(rest).len() implies is_ascii_chars(
            #[trigger] lines_of(rest)[i],
        ) by {
            assert(lines[i + 1] == lines_of(rest)[i]);
        }
        lemma_lines_ascii(rest);
        assert forall|j: int| 0 <= j < text.len() implies '\0' <= #[trigger] text[j]
            <= '\u{7f}' by {
            if j < end {
                assert(head[j] == text[j]);
            } else if j > end {
                assert(rest[j - end - 1] == text[j]);
            }
        }
    } else {
        assert(lines_of(text)[0] == text);
    }
}

} // verus!
