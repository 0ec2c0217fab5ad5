//! The text that a configuration is written in, line by line.
//!
//! A line is blank, or names one of the two options and gives its value:
//!
//! ```text
//! ip = "127.0.0.1"
//! port = 3000
//! ```
//!
//! Blanks may stand around the name, around the value and around the whole
//! line. Anything else is malformed.

use crate::ipv4::{is_ipv4_ascii, is_ipv4_split, is_ipv4_text, lemma_ipv4_ascii};
use crate::text::{
    ascii_len, find_first, first_index, lemma_first_index_found, lemma_trimmed_ascii,
    number_below, parse_number, same_text, trim, trimmed,
};
use vstd::prelude::*;
use vstd::string::*;
use vstd::utf8::is_ascii_chars;

verus! {

/// The name of the option that gives the address.
pub open spec fn ip_key() -> Seq<char> {
    "ip"@
}

/// The name of the option that gives the port.
pub open spec fn port_key() -> Seq<char> {
    "port"@
}

/// What one line of a configuration says.
pub enum EntryView {
    /// Nothing: the line is empty or all blanks.
    Blank,
    /// The address to listen on.
    Ip(Seq<char>),
    /// The port to listen on.
    Port(u16),
    /// Nothing that a configuration may say.
    Malformed,
}

/// The text between the double quotes that a value begins and ends with.
pub open spec fn unquoted(value: Seq<char>) -> Option<Seq<char>> {
    if value.len() >= 2 && value[0] == '"' && value.last() == '"' {
        Some(value.subrange(1, value.len() - 1))
    } else {
        None
    }
}

/// What a line says. A line that is not blank is split at its first `=`
/// into a name and a value, each without the blanks around it. The value of
/// `ip` is an IPv4 address in double quotes; the value of `port` is a decimal
/// number up to 65535.
pub open spec fn entry_of(line: Seq<char>) -> EntryView {
    let stripped = trimmed(line);
    let eq = first_index(stripped, '=');
    let key = trimmed(stripped.take(eq));
    let value = trimmed(stripped.skip(eq + 1));
    if stripped.len() == 0 {
        EntryView::Blank
    } else if !(0 <= eq < stripped.len()) {
        EntryView::Malformed
    } else if key == ip_key() {
        match unquoted(value) {
            Some(ip) => if is_ipv4_text(ip) {
                EntryView::Ip(ip)
            } else {
                EntryView::Malformed
            },
            None => EntryView::Malformed,
        }
    } else if key == port_key() {
        match number_below(value, 65536) {
            Some(port) => EntryView::Port(port as u16),
            None => EntryView::Malformed,
        }
    } else {
        EntryView::Malformed
    }
}

/// A line that is not malformed is made of ASCII characters.
pub proof fn lemma_entry_ascii(line: Seq<char>)
    requires
        !(entry_of(line) is Malformed),
    ensures
        is_ascii_chars(line),
{
    let stripped = trimmed(line);
    if stripped.len() > 0 {
        let eq = first_index(stripped, '=');
        let key = trimmed(stripped.take(eq));
        let value = trimmed(stripped.skip(eq + 1));
        lemma_first_index_found(stripped, '=');
        reveal_strlit("ip");
        reveal_strlit("port");
        assert(is_ascii_chars(key));
        lemma_trimmed_ascii(stripped.take(eq));
        if key == ip_key() {
            let ip = unquoted(value)->0;
            let (a, b, c) = choose|a: int, b: int, c: int| is_ipv4_split(ip, a, b, c);
            lemma_ipv4_ascii(ip, a, b, c);
            assert forall|j: int| 0 <= j < value.len() implies '\0' <= #[trigger] value[j]
                <= '\u{7f}' by {
                if 0 < j < value.len() - 1 {
                    assert(ip[j - 1] == value[j]);
                }
            }
        }
        assert(is_ascii_chars(value));
        lemma_trimmed_ascii(stripped.skip(eq + 1));
        assert forall|j: int| 0 <= j < stripped.len() implies '\0' <= #[trigger] stripped[j]
            <= '\u{7f}' by {
            if j < eq {
                assert(stripped.take(eq)[j] == stripped[j]);
            } else if j > eq {
                assert(stripped.skip(eq + 1)[j - eq - 1] == stripped[j]);
            }
        }
    }
    lemma_trimmed_ascii(line);
}

/// What one line of a configuration says.
#[derive(Debug, PartialEq, Eq)]
pub enum Entry {
    /// Nothing: the line is empty or all blanks.
    Blank,
    /// The address to listen on.
    Ip(String),
    /// The port to listen on.
    Port(u16),
    /// Nothing that a configuration may say.
    Malformed,
}

impl View for Entry {
    type V = EntryView;

    open spec fn view(&self) -> EntryView {
        match self {
            Entry::Blank => EntryView::Blank,
            Entry::Ip(ip) => EntryView::Ip(ip@),
            Entry::Port(port) => EntryView::Port(*port),
            Entry::Malformed => EntryView::Malformed,
        }
    }
}

/// Reads one line of ASCII text.
pub(crate) fn parse_entry_ascii(line: &str) -> (entry: Entry)
    requires
        line.is_ascii(),
    ensures
        entry@ == entry_of(line@),
{
    let stripped = trim(line);
    let n = ascii_len(stripped);
    if n == 0 {
        return Entry::Blank;
    }
    let eq = find_first(stripped, 61);
    if eq >= n {
        return Entry::Malformed;
    }
    let key = trim(stripped.substring_ascii(0, eq));
    let value = trim(stripped.substring_ascii(eq + 1, n));
    if same_text(key, "ip") {
        let m = ascii_len(value);
        if m >= 2 && value.get_ascii(0) == 34 && value.get_ascii(m - 1) == 34 {
            let ip = value.substring_ascii(1, m - 1);
            if is_ipv4_ascii(ip) {
                Entry::Ip(ip.to_owned())
            } else {
                Entry::Malformed
            }
        } else {
            Entry::Malformed
        }
    } else if same_text(key, "port") {
        match parse_number(value, 65535) {
            Some(port) => Entry::Port(port as u16),
            None => Entry::Malformed,
        }
    } else {
        Entry::Malformed
    }
}

/// Reads one line of a configuration.
pub fn parse_entry(line: &str) -> (entry: Entry)
    ensures
        entry@ == entry_of(line@),
{
    if line.is_ascii() {
        parse_entry_ascii(line)
    } else {
        proof {
            if !(entry_of(line@) is Malformed) {
                lemma_entry_ascii(line@);
            }
        }
        Entry::Malformed
    }
}

} // verus!
