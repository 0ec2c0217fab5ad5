//! IPv4 addresses in dotted notation.

use crate::text::{all_digits, ascii_len, decimal_value, find_first, number_below, parse_number};
use vstd::prelude::*;
use vstd::string::*;

verus! {

/// Whether a text writes one part of an address: a number from 0 to 255 in
/// one to three decimal digits, without a leading zero.
pub open spec fn is_octet_text(text: Seq<char>) -> bool {
    &&& 1 <= text.len() <= 3
    &&& all_digits(text)
    &&& text.len() > 1 ==> text[0] != '0'
    &&& decimal_value(text) <= 255
}

/// Whether a text is four parts with a dot before the second, the third and
/// the fourth, the dots standing at `a`, `b` and `c`.
pub open spec fn is_ipv4_split(text: Seq<char>, a: int, b: int, c: int) -> bool {
    &&& 0 <= a < b < c < text.len()
    &&& text[a] == '.'
    &&& text[b] == '.'
    &&& text[c] == '.'
    &&& is_octet_text(text.subrange(0, a))
    &&& is_octet_text(text.subrange(a + 1, b))
    &&& is_octet_text(text.subrange(b + 1, c))
    &&& is_octet_text(text.subrange(c + 1, text.len() as int))
}

/// Whether a text is an IPv4 address in dotted notation, such as
/// `127.0.0.1`.
pub open spec fn is_ipv4_text(text: Seq<char>) -> bool {
    exists|a: int, b: int, c: int| is_ipv4_split(text, a, b, c)
}

/// In an address the three dots between the parts are the only dots: each
/// is the first one after the part before it.
pub proof fn lemma_ipv4_dots(text: Seq<char>, a: int, b: int, c: int)
    requires
        is_ipv4_split(text, a, b, c),
    ensures
        forall|j: int| 0 <= j < a ==> text[j] != '.',
        forall|j: int| a < j < b ==> text[j] != '.',
        forall|j: int| b < j < c ==> text[j] != '.',
        forall|j: int| c < j < text.len() ==> text[j] != '.',
{
    assert forall|j: int| 0 <= j < a implies text[j] != '.' by {
        assert(text.subrange(0, a)[j] == text[j]);
    }
    assert forall|j: int| a < j < b implies text[j] != '.' by {
        assert(text.subrange(a + 1, b)[j - a - 1] == text[j]);
    }
    assert forall|j: int| b < j < c implies text[j] != '.' by {
        assert(text.subrange(b + 1, c)[j - b - 1] == text[j]);
    }
    assert forall|j: int| c < j < text.len() implies text[j] != '.' by {
        assert(text.subrange(c + 1, text.len() as int)[j - c - 1] == text[j]);
    }
}

/// Whether an ASCII text writes one part of an address.
pub(crate) fn is_octet(text: &str) -> (ok: bool)
    requires
        text.is_ascii(),
    ensures
        ok == is_octet_text(text@),
{
    let n = ascii_len(text);
    if n == 0 || n > 3 {
        return false;
    }
    if n > 1 && text.get_ascii(0) == 48 {
        return false;
    }
    parse_number(text, 255).is_some()
}

/// Whether an ASCII text is an IPv4 address in dotted notation.
pub(crate) fn is_ipv4_ascii(text: &str) -> (ok: bool)
    requires
        text.is_ascii(),
    ensures
        ok == is_ipv4_text(text@),
{
    let n = ascii_len(text);
    let ghost s = text@;
    let ghost found = is_ipv4_text(s);
    let ghost (wa, wb, wc) = choose|a: int, b: int, c: int| is_ipv4_split(s, a, b, c);
    proof {
        if found {
            lemma_ipv4_dots(s, wa, wb, wc);
        }
    }
    let a = find_first(text, 46);
    if a >= n {
        return false;
    }
    assert(found ==> wa == a);
    let first = text.substring_ascii(0, a);
    let after_a = text.substring_ascii(a + 1, n);
    let b_in = find_first(after_a, 46);
    proof {
        if found {
            assert(after_a@[wb - a - 1] == s[wb]);
            if b_in < wb - a - 1 {
                assert(after_a@[b_in as int] == s[a + 1 + b_in]);
            }
        }
    }
    if b_in >= n - a - 1 {
        return false;
    }
    let b = a + 1 + b_in;
    assert(after_a@[b_in as int] == s[b as int]);
    assert(found ==> wb == b);
    let second = text.substring_ascii(a + 1, b);
    let after_b = text.substring_ascii(b + 1, n);
    let c_in = find_first(after_b, 46);
    proof {
        if found {
            assert(after_b@[wc - b - 1] == s[wc]);
            if c_in < wc - b - 1 {
                assert(after_b@[c_in as int] == s[b + 1 + c_in]);
            }
        }
    }
    if c_in >= n - b - 1 {
        return false;
    }
    let c = b + 1 + c_in;
    assert(after_b@[c_in as int] == s[c as int]);
    assert(found ==> wc == c);
    let third = text.substring_ascii(b + 1, c);
    let fourth = text.substring_ascii(c + 1, n);
    let ok = is_octet(first) && is_octet(second) && is_octet(third) && is_octet(fourth);
    proof {
        if ok {
            assert(is_ipv4_split(s, a as int, b as int, c as int));
        }
    }
    ok
}

/// Whether a text is an IPv4 address in dotted notation.
pub fn is_ipv4(text: &str) -> (ok: bool)
    ensures
        ok == is_ipv4_text(text@),
{
    if text.is_ascii() {
        is_ipv4_ascii(text)
    } else {
        proof {
            if is_ipv4_text(text@) {
                let (a, b, c) = choose|a: int, b: int, c: int| is_ipv4_split(text@, a, b, c);
                lemma_ipv4_ascii(text@, a, b, c);
            }
        }
        false
    }
}

/// An address is made of ASCII characters.
pub proof fn lemma_ipv4_ascii(text: Seq<char>, a: int, b: int, c: int)
    requires
        is_ipv4_split(text, a, b, c),
    ensures
        vstd::utf8::is_ascii_chars(text),
{
    assert forall|j: int| 0 <= j < text.len() implies '\0' <= #[trigger] text[j] <= '\u{7f}' by {
        if j < a {
            assert(text.subrange(0, a)[j] == text[j]);
        } else if a < j < b {
            assert(text.subrange(a + 1, b)[j - a - 1] == text[j]);
        } else if b < j < c {
            assert(text.subrange(b + 1, c)[j - b - 1] == text[j]);
        } else if c < j {
            assert(text.subrange(c + 1, text.len() as int)[j - c - 1] == text[j]);
        }
    }
}

} // verus!
