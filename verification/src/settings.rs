//! Where the server listens: the settings, the configuration that gives
//! them, and the defaults that take their place where the configuration
//! cannot be used.
//!
//! An option that the configuration does not give keeps its default. A
//! malformed line, or an option given on two lines, makes the whole
//! configuration malformed, and nothing of it is used.

use crate::config::{entry_of, lemma_entry_ascii, parse_entry_ascii, Entry, EntryView};
use crate::ipv4::{is_ipv4_split, is_ipv4_text};
use crate::text::{ascii_len, decimal_value, find_first, lemma_lines_ascii, lines_of};
use vstd::prelude::*;
use vstd::string::*;
use vstd::utf8::is_ascii_chars;

verus! {

/// The port that the server listens on where the configuration names none.
pub const DEFAULT_PORT: u16 = 3000;

/// The address that the server listens on where the configuration names
/// none: the loopback address.
pub const DEFAULT_IP: &'static str = "127.0.0.1";

/// The settings as plain values: the address as a text, and the port.
pub struct SettingsView {
    pub ip: Seq<char>,
    pub port: u16,
}

/// Where the server listens.
#[derive(Debug, PartialEq, Eq)]
pub struct Settings {
    /// The address, as an IPv4 address in dotted notation.
    pub ip: String,
    /// The port.
    pub port: u16,
}

impl View for Settings {
    type V = SettingsView;

    open spec fn view(&self) -> SettingsView {
        SettingsView { ip: self.ip@, port: self.port }
    }
}

impl Clone for Settings {
    fn clone(&self) -> (copy: Self)
        ensures
            copy@ == self@,
    {
        Settings { ip: self.ip.clone(), port: self.port }
    }
}

/// The settings that the server starts with, and whether the defaults had to
/// take the place of what was to be read, so that a warning is due.
#[derive(Debug, PartialEq, Eq)]
pub struct Loaded {
    pub settings: Settings,
    pub fell_back: bool,
}

/// The settings when nothing is configured.
pub open spec fn default_view() -> SettingsView {
    SettingsView { ip: DEFAULT_IP@, port: DEFAULT_PORT }
}

/// Whether lines make a well-formed configuration: none of them is
/// malformed, and neither option is given on two of them.
pub open spec fn lines_well_formed(lines: Seq<Seq<char>>) -> bool {
    &&& forall|i: int| 0 <= i < lines.len() ==> !(#[trigger] entry_of(lines[i]) is Malformed)
    &&& forall|i: int, j: int|
        0 <= i < j < lines.len() ==> !(#[trigger] entry_of(lines[i]) is Ip && #[trigger] entry_of(
            lines[j],
        ) is Ip)
    &&& forall|i: int, j: int|
        0 <= i < j < lines.len() ==> !(#[trigger] entry_of(lines[i]) is Port
            && #[trigger] entry_of(lines[j]) is Port)
}

/// Whether a configuration text is well formed.
pub open spec fn is_well_formed(text: Seq<char>) -> bool {
    lines_well_formed(lines_of(text))
}

/// The address that the lines give: that of the line that gives one.
pub open spec fn given_ip(lines: Seq<Seq<char>>) -> Option<Seq<char>> {
    if exists|i: int| 0 <= i < lines.len() && #[trigger] entry_of(lines[i]) is Ip {
        let i = choose|i: int| 0 <= i < lines.len() && #[trigger] entry_of(lines[i]) is Ip;
        Some(entry_of(lines[i])->Ip_0)
    } else {
        None
    }
}

/// The port that the lines give: that of the line that gives one.
pub open spec fn given_port(lines: Seq<Seq<char>>) -> Option<u16> {
    if exists|i: int| 0 <= i < lines.len() && #[trigger] entry_of(lines[i]) is Port {
        let i = choose|i: int| 0 <= i < lines.len() && #[trigger] entry_of(lines[i]) is Port;
        Some(entry_of(lines[i])->Port_0)
    } else {
        None
    }
}

/// The settings that a configuration text gives: each option as the text
/// gives it, or else its default. A malformed text gives none.
pub open spec fn parse_settings(text: Seq<char>) -> Option<SettingsView> {
    if is_well_formed(text) {
        Some(
            SettingsView {
                ip: match given_ip(lines_of(text)) {
                    Some(ip) => ip,
                    None => DEFAULT_IP@,
                },
                port: match given_port(lines_of(text)) {
                    Some(port) => port,
                    None => DEFAULT_PORT,
                },
            },
        )
    } else {
        None
    }
}

/// The settings that the server starts with: those that the configuration
/// gives, or the defaults where there is no configuration or it is malformed.
pub open spec fn loaded(source: Option<Seq<char>>) -> SettingsView {
    match source {
        Some(text) => match parse_settings(text) {
            Some(settings) => settings,
            None => default_view(),
        },
        None => default_view(),
    }
}

/// Whether the defaults take the place of what was to be read.
pub open spec fn falls_back(source: Option<Seq<char>>) -> bool {
    match source {
        Some(text) => !is_well_formed(text),
        None => true,
    }
}

/// The text that an optional string holds.
pub open spec fn text_of(held: Option<String>) -> Option<Seq<char>> {
    match held {
        Some(text) => Some(text@),
        None => None,
    }
}

/// The text that an optional string slice holds.
pub open spec fn source_of(source: Option<&str>) -> Option<Seq<char>> {
    match source {
        Some(text) => Some(text@),
        None => None,
    }
}

/// The options that the lines read so far have given.
struct Draft {
    ip: Option<Seq<char>>,
    port: Option<u16>,
}

/// The draft after one more line, or `None` once the text is malformed: the
/// line is malformed itself, or gives an option for the second time.
spec fn add_entry(draft: Option<Draft>, entry: EntryView) -> Option<Draft> {
    match draft {
        None => None,
        Some(d) => match entry {
            EntryView::Blank => Some(d),
            EntryView::Ip(ip) => if d.ip is None {
                Some(Draft { ip: Some(ip), port: d.port })
            } else {
                None
            },
            EntryView::Port(port) => if d.port is None {
                Some(Draft { ip: d.ip, port: Some(port) })
            } else {
                None
            },
            EntryView::Malformed => None,
        },
    }
}

/// The options that a sequence of lines gives, read from first to last.
spec fn collect(lines: Seq<Seq<char>>) -> Option<Draft>
    decreases lines.len(),
{
    if lines.len() == 0 {
        Some(Draft { ip: None, port: None })
    } else {
        add_entry(collect(lines.drop_last()), entry_of(lines.last()))
    }
}

/// Once the lines read so far are malformed, no further line mends them.
proof fn lemma_collect_stays_malformed(read: Seq<Seq<char>>, more: Seq<Seq<char>>)
    requires
        collect(read) is None,
    ensures
        collect(read + more) is None,
    decreases more.len(),
{
    if more.len() == 0 {
        assert(read + more =~= read);
    } else {
        lemma_collect_stays_malformed(read, more.drop_last());
        assert((read + more).drop_last() =~= read + more.drop_last());
    }
}

/// What a draft holds is what the lines gave: an option is set exactly when
/// some line gives it, no line is malformed, and no option is given twice.
proof fn lemma_collect_some(lines: Seq<Seq<char>>)
    requires
        collect(lines) is Some,
    ensures
        forall|i: int| 0 <= i < lines.len() ==> !(#[trigger] entry_of(lines[i]) is Malformed),
        forall|i: int|
            0 <= i < lines.len() && #[trigger] entry_of(lines[i]) is Ip ==> collect(lines)->0.ip
                == Some(entry_of(lines[i])->Ip_0),
        forall|i: int|
            0 <= i < lines.len() && #[trigger] entry_of(lines[i]) is Port ==> collect(
                lines,
            )->0.port == Some(entry_of(lines[i])->Port_0),
        collect(lines)->0.ip is None ==> forall|i: int|
            0 <= i < lines.len() ==> !(#[trigger] entry_of(lines[i]) is Ip),
        collect(lines)->0.port is None ==> forall|i: int|
            0 <= i < lines.len() ==> !(#[trigger] entry_of(lines[i]) is Port),
        forall|i: int, j: int|
            0 <= i < j < lines.len() ==> !(#[trigger] entry_of(lines[i]) is Ip
                && #[trigger] entry_of(lines[j]) is Ip),
        forall|i: int, j: int|
            0 <= i < j < lines.len() ==> !(#[trigger] entry_of(lines[i]) is Port
                && #[trigger] entry_of(lines[j]) is Port),
        collect(lines)->0.ip is Some ==> exists|i: int|
            0 <= i < lines.len() && #[trigger] entry_of(lines[i]) is Ip,
        collect(lines)->0.port is Some ==> exists|i: int|
            0 <= i < lines.len() && #[trigger] entry_of(lines[i]) is Port,
        collect(lines)->0.ip is Some ==> is_ipv4_text(collect(lines)->0.ip->0),
    decreases lines.len(),
{
    if lines.len() > 0 {
        let before = lines.drop_last();
        let last = lines.len() - 1;
        lemma_collect_some(before);
        assert forall|i: int| 0 <= i < before.len() implies before[i] == lines[i] by {}
        if collect(lines)->0.ip is Some {
            if entry_of(lines[last]) is Ip {
            } else {
                let i = choose|i: int| 0 <= i < before.len() && #[trigger] entry_of(before[i]) is Ip;
                assert(entry_of(lines[i]) is Ip);
            }
        }
        if collect(lines)->0.port is Some {
            if entry_of(lines[last]) is Port {
            } else {
                let i = choose|i: int|
                    0 <= i < before.len() && #[trigger] entry_of(before[i]) is Port;
                assert(entry_of(lines[i]) is Port);
            }
        }
    }
}

/// Lines of which none is malformed and none gives an option again can be
/// collected.
proof fn lemma_collect_exists(lines: Seq<Seq<char>>)
    requires
        forall|i: int| 0 <= i < lines.len() ==> !(#[trigger] entry_of(lines[i]) is Malformed),
        forall|i: int, j: int|
            0 <= i < j < lines.len() ==> !(#[trigger] entry_of(lines[i]) is Ip
                && #[trigger] entry_of(lines[j]) is Ip),
        forall|i: int, j: int|
            0 <= i < j < lines.len() ==> !(#[trigger] entry_of(lines[i]) is Port
                && #[trigger] entry_of(lines[j]) is Port),
    ensures
        collect(lines) is Some,
    decreases lines.len(),
{
    if lines.len() > 0 {
        let before = lines.drop_last();
        assert forall|i: int| 0 <= i < before.len() implies before[i] == lines[i] by {}
        lemma_collect_exists(before);
        lemma_collect_some(before);
        let last = lines.len() - 1;
        assert(lines.last() == lines[last]);
        if entry_of(lines[last]) is Ip && collect(before)->0.ip is Some {
            let i = choose|i: int| 0 <= i < before.len() && #[trigger] entry_of(before[i]) is Ip;
            assert(entry_of(lines[i]) is Ip);
        }
        if entry_of(lines[last]) is Port && collect(before)->0.port is Some {
            let i = choose|i: int|
                0 <= i < before.len() && #[trigger] entry_of(before[i]) is Port;
            assert(entry_of(lines[i]) is Port);
        }
    }
}

/// What has been collected from lines is what they give.
proof fn lemma_collect_gives(lines: Seq<Seq<char>>)
    requires
        collect(lines) is Some,
    ensures
        lines_well_formed(lines),
        collect(lines)->0.ip == given_ip(lines),
        collect(lines)->0.port == given_port(lines),
{
    lemma_collect_some(lines);
}

/// The default address is an address.
pub proof fn lemma_default_ip()
    ensures
        is_ipv4_text(DEFAULT_IP@),
{
    reveal_strlit("127.0.0.1");
    let ip = DEFAULT_IP@;
    reveal_with_fuel(decimal_value, 4);
    assert(ip.subrange(0, 3) =~= seq!['1', '2', '7']);
    assert(ip.subrange(4, 5) =~= seq!['0']);
    assert(ip.subrange(6, 7) =~= seq!['0']);
    assert(ip.subrange(8, 9) =~= seq!['1']);
    assert(seq!['1', '2', '7'].drop_last() =~= seq!['1', '2']);
    assert(seq!['1', '2'].drop_last() =~= seq!['1']);
    assert(is_ipv4_split(ip, 3, 5, 7));
}

impl Settings {
    /// Whether the settings name a place to listen on: the address is an
    /// IPv4 address in dotted notation. Every port is one.
    pub open spec fn wf(&self) -> bool {
        is_ipv4_text(self.ip@)
    }

    /// The settings when nothing is configured.
    pub fn defaults() -> (settings: Settings)
        ensures
            settings@ == default_view(),
            settings.wf(),
    {
        proof {
            lemma_default_ip();
        }
        Settings { ip: DEFAULT_IP.to_owned(), port: DEFAULT_PORT }
    }

    /// Reads the settings from a configuration text. The result is `None`
    /// exactly where the text is malformed.
    pub fn from_str(text: &str) -> (parsed: Option<Settings>)
        ensures
            match parsed {
                Some(settings) => parse_settings(text@) == Some(settings@) && settings.wf(),
                None => parse_settings(text@) is None,
            },
    {
        if !text.is_ascii() {
            proof {
                if is_well_formed(text@) {
                    lemma_well_formed_ascii(text@);
                }
            }
            return None;
        }
        let mut rest: &str = text;
        let mut ip: Option<String> = None;
        let mut port: Option<u16> = None;
        let ghost mut read: Seq<Seq<char>> = Seq::empty();
        loop
            invariant
                rest.is_ascii(),
                lines_of(text@) == read + lines_of(rest@),
                collect(read) == Some(Draft { ip: text_of(ip), port }),
            decreases rest@.len(),
        {
            let n = ascii_len(rest);
            let end = find_first(rest, 10);
            let line = rest.substring_ascii(0, end);
            let ghost more = if end < n {
                lines_of(rest@.skip(end + 1))
            } else {
                Seq::<Seq<char>>::empty()
            };
            proof {
                assert(lines_of(rest@) =~= seq![line@] + more) by {
                    if end >= n {
                        assert(line@ =~= rest@);
                    }
                }
                assert(lines_of(text@) =~= read.push(line@) + more);
                assert(read.push(line@).drop_last() =~= read);
                if collect(read.push(line@)) is None {
                    lemma_collect_stays_malformed(read.push(line@), more);
                    if is_well_formed(text@) {
                        lemma_collect_exists(lines_of(text@));
                    }
                }
                read = read.push(line@);
            }
            match parse_entry_ascii(line) {
                Entry::Blank => {},
                Entry::Ip(given) => {
                    if ip.is_some() {
                        return None;
                    }
                    ip = Some(given);
                },
                Entry::Port(given) => {
                    if port.is_some() {
                        return None;
                    }
                    port = Some(given);
                },
                Entry::Malformed => {
                    return None;
                },
            }
            if end >= n {
                proof {
                    assert(lines_of(text@) =~= read);
                    lemma_collect_gives(read);
                    lemma_collect_some(read);
                    lemma_default_ip();
                }
                return Some(
                    Settings {
                        ip: match ip {
                            Some(given) => given,
                            None => DEFAULT_IP.to_owned(),
                        },
                        port: match port {
                            Some(given) => given,
                            None => DEFAULT_PORT,
                        },
                    },
                );
            }
            rest = rest.substring_ascii(end + 1, n);
        }
    }

    /// Settles where the server listens. `source` is the configuration text,
    /// or `None` where there was none to read. The result holds what the
    /// text gives; where there is no text, or it is malformed, it holds the
    /// defaults and says so.
    pub fn load(source: Option<&str>) -> (outcome: Loaded)
        ensures
            outcome.settings@ == loaded(source_of(source)),
            outcome.fell_back == falls_back(source_of(source)),
            outcome.settings.wf(),
    {
        let parsed = match source {
            Some(text) => Settings::from_str(text),
            None => None,
        };
        match parsed {
            Some(settings) => Loaded { settings, fell_back: false },
            None => Loaded { settings: Settings::defaults(), fell_back: true },
        }
    }
}

/// A configuration text that holds a character outside ASCII is malformed.
pub proof fn lemma_well_formed_ascii(text: Seq<char>)
    requires
        is_well_formed(text),
    ensures
        is_ascii_chars(text),
{
    let lines = lines_of(text);
    assert forall|i: int| 0 <= i < lines.len() implies is_ascii_chars(#[trigger] lines[i]) by {
        assert(!(entry_of(lines[i]) is Malformed));
        lemma_entry_ascii(lines[i]);
    }
    lemma_lines_ascii(text);
}

/// Whatever is malformed gives the defaults: a text with a malformed line,
/// or with an option on two lines, is answered with the default address and
/// the default port, and the answer says that it fell back.
pub proof fn lemma_malformed_gives_defaults(text: Seq<char>)
    requires
        !is_well_formed(text),
    ensures
        loaded(Some(text)) == default_view(),
        falls_back(Some(text)),
{
}

/// Where nothing could be read the defaults are given as well.
pub proof fn lemma_missing_gives_defaults()
    ensures
        loaded(None) == default_view(),
        falls_back(None),
{
}

/// What a well-formed text gives is what is loaded: the address of the line
/// that gives one, the port of the line that gives one, and no falling back.
pub proof fn lemma_loaded_matches_input(text: Seq<char>, i: int)
    requires
        is_well_formed(text),
        0 <= i < lines_of(text).len(),
    ensures
        !falls_back(Some(text)),
        entry_of(lines_of(text)[i]) is Ip ==> loaded(Some(text)).ip == entry_of(
            lines_of(text)[i],
        )->Ip_0,
        entry_of(lines_of(text)[i]) is Port ==> loaded(Some(text)).port == entry_of(
            lines_of(text)[i],
        )->Port_0,
{
    let lines = lines_of(text);
    if entry_of(lines[i]) is Ip {
        let c = choose|c: int| 0 <= c < lines.len() && #[trigger] entry_of(lines[c]) is Ip;
        assert(c == i) by {
            if c < i {
                assert(!(entry_of(lines[c]) is Ip && entry_of(lines[i]) is Ip));
            }
            if i < c {
                assert(!(entry_of(lines[i]) is Ip && entry_of(lines[c]) is Ip));
            }
        }
    }
    if entry_of(lines[i]) is Port {
        let c = choose|c: int| 0 <= c < lines.len() && #[trigger] entry_of(lines[c]) is Port;
        assert(c == i) by {
            if c < i {
                assert(!(entry_of(lines[c]) is Port && entry_of(lines[i]) is Port));
            }
            if i < c {
                assert(!(entry_of(lines[i]) is Port && entry_of(lines[c]) is Port));
            }
        }
    }
}

/// An option that no line of a well-formed text gives has its default.
pub proof fn lemma_unset_options_default(text: Seq<char>)
    requires
        is_well_formed(text),
    ensures
        (forall|i: int|
            0 <= i < lines_of(text).len() ==> !(#[trigger] entry_of(lines_of(text)[i]) is Ip))
            ==> loaded(Some(text)).ip == DEFAULT_IP@,
        (forall|i: int|
            0 <= i < lines_of(text).len() ==> !(#[trigger] entry_of(lines_of(text)[i]) is Port))
            ==> loaded(Some(text)).port == DEFAULT_PORT,
{
}

/// The empty text is well formed and gives the defaults.
pub proof fn lemma_empty_gives_defaults()
    ensures
        parse_settings(Seq::empty()) == Some(default_view()),
{
    let text = Seq::<char>::empty();
    let lines = lines_of(text);
    assert(lines =~= seq![text]);
    assert(entry_of(text) is Blank);
    assert forall|i: int| 0 <= i < lines.len() implies (#[trigger] entry_of(lines[i])) is Blank by {
        assert(lines[i] == text);
    }
}

/// Whatever is loaded names a place to listen on: its address is an IPv4
/// address in dotted notation.
pub proof fn lemma_loaded_is_address(source: Option<Seq<char>>)
    ensures
        is_ipv4_text(loaded(source).ip),
{
    lemma_default_ip();
}

} // verus!
