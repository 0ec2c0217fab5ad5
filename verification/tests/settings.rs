use askama_axum_rust_template::ipv4::is_ipv4;
use askama_axum_rust_template::config::{parse_entry, Entry};
use askama_axum_rust_template::settings::{Loaded, Settings, DEFAULT_IP, DEFAULT_PORT};

fn settings(ip: &str, port: u16) -> Settings {
    Settings { ip: ip.to_string(), port }
}

#[test]
fn empty_text_gives_the_defaults() {
    assert_eq!(Settings::from_str(""), Some(settings("127.0.0.1", 3000)));
}

#[test]
fn defaults_are_the_loopback_address_and_port_3000() {
    assert_eq!(DEFAULT_IP, "127.0.0.1");
    assert_eq!(DEFAULT_PORT, 3000);
    assert_eq!(Settings::defaults(), settings("127.0.0.1", 3000));
}

#[test]
fn both_options_are_read() {
    let text = "ip = \"10.0.0.5\"\nport = 8080\n";
    assert_eq!(Settings::from_str(text), Some(settings("10.0.0.5", 8080)));
}

#[test]
fn the_order_of_the_options_does_not_matter() {
    let text = "port = 8080\nip = \"10.0.0.5\"";
    assert_eq!(Settings::from_str(text), Some(settings("10.0.0.5", 8080)));
}

#[test]
fn an_option_left_out_keeps_its_default() {
    assert_eq!(Settings::from_str("port = 81"), Some(settings("127.0.0.1", 81)));
    assert_eq!(
        Settings::from_str("ip = \"192.168.1.20\"\n"),
        Some(settings("192.168.1.20", 3000))
    );
}

#[test]
fn blanks_and_empty_lines_are_passed_over() {
    let text = "\n  \t\r\n\tip\t=\t\"0.0.0.0\"  \r\n\n   port=443\r\n   ";
    assert_eq!(Settings::from_str(text), Some(settings("0.0.0.0", 443)));
}

#[test]
fn the_largest_and_the_smallest_port_are_read() {
    assert_eq!(Settings::from_str("port = 65535"), Some(settings("127.0.0.1", 65535)));
    assert_eq!(Settings::from_str("port = 0"), Some(settings("127.0.0.1", 0)));
}

#[test]
fn leading_zeros_of_a_port_do_not_count() {
    assert_eq!(Settings::from_str("port = 0080"), Some(settings("127.0.0.1", 80)));
    assert_eq!(
        Settings::from_str("port = 000000000000000000000000065535"),
        Some(settings("127.0.0.1", 65535))
    );
}

#[test]
fn a_port_out_of_range_is_malformed() {
    assert_eq!(Settings::from_str("port = 65536"), None);
    assert_eq!(Settings::from_str("port = 99999999999999999999999"), None);
}

#[test]
fn a_port_that_is_no_number_is_malformed() {
    assert_eq!(Settings::from_str("port ="), None);
    assert_eq!(Settings::from_str("port = +80"), None);
    assert_eq!(Settings::from_str("port = -1"), None);
    assert_eq!(Settings::from_str("port = 80 80"), None);
    assert_eq!(Settings::from_str("port = \"80\""), None);
    assert_eq!(Settings::from_str("port = 8o"), None);
}

#[test]
fn an_address_without_quotes_is_malformed() {
    assert_eq!(Settings::from_str("ip = 10.0.0.5"), None);
    assert_eq!(Settings::from_str("ip = \"10.0.0.5"), None);
    assert_eq!(Settings::from_str("ip = \""), None);
}

#[test]
fn an_address_that_is_none_is_malformed() {
    assert_eq!(Settings::from_str("ip = \"10.0.0\""), None);
    assert_eq!(Settings::from_str("ip = \"10.0.0.5.6\""), None);
    assert_eq!(Settings::from_str("ip = \"10.0.0.256\""), None);
    assert_eq!(Settings::from_str("ip = \"10.0.0.05\""), None);
    assert_eq!(Settings::from_str("ip = \"10..0.5\""), None);
    assert_eq!(Settings::from_str("ip = \"localhost\""), None);
    assert_eq!(Settings::from_str("ip = \" 10.0.0.5\""), None);
    assert_eq!(Settings::from_str("ip = \"\""), None);
}

#[test]
fn an_unknown_option_is_malformed() {
    assert_eq!(Settings::from_str("host = \"10.0.0.5\""), None);
    assert_eq!(Settings::from_str("IP = \"10.0.0.5\""), None);
    assert_eq!(Settings::from_str("= 80"), None);
}

#[test]
fn a_line_without_an_equals_sign_is_malformed() {
    assert_eq!(Settings::from_str("port 80"), None);
    assert_eq!(Settings::from_str("ip = \"10.0.0.5\"\nnonsense\nport = 80"), None);
}

#[test]
fn an_option_given_twice_is_malformed() {
    assert_eq!(Settings::from_str("port = 80\nport = 80"), None);
    assert_eq!(Settings::from_str("ip = \"10.0.0.5\"\nport = 1\nip = \"10.0.0.6\""), None);
}

#[test]
fn a_text_outside_ascii_is_malformed() {
    assert_eq!(Settings::from_str("port = 80\n\u{e9}"), None);
    assert_eq!(Settings::from_str("port = \u{663}"), None);
    assert_eq!(Settings::from_str("\u{a0}"), None);
}

#[test]
fn one_malformed_line_spoils_a_text_that_is_right_otherwise() {
    let text = "ip = \"10.0.0.5\"\nport = 8080\nport";
    assert_eq!(Settings::from_str(text), None);
}

#[test]
fn load_returns_what_the_text_gives() {
    let loaded = Settings::load(Some("ip = \"10.1.2.3\"\nport = 9000\n"));
    assert_eq!(loaded, Loaded { settings: settings("10.1.2.3", 9000), fell_back: false });
}

#[test]
fn load_does_not_fall_back_on_an_empty_text() {
    let loaded = Settings::load(Some(""));
    assert_eq!(loaded, Loaded { settings: settings("127.0.0.1", 3000), fell_back: false });
}

#[test]
fn load_falls_back_on_a_malformed_text() {
    for text in ["port = seventy", "ip = \"1.2.3\"", "port = 1\nport = 2", "?", "ip"] {
        let loaded = Settings::load(Some(text));
        assert_eq!(loaded, Loaded { settings: settings("127.0.0.1", 3000), fell_back: true });
    }
}

#[test]
fn load_falls_back_where_nothing_was_read() {
    let loaded = Settings::load(None);
    assert_eq!(loaded, Loaded { settings: settings("127.0.0.1", 3000), fell_back: true });
}

#[test]
fn load_keeps_no_part_of_a_malformed_text() {
    let loaded = Settings::load(Some("ip = \"10.1.2.3\"\nport = 70000"));
    assert_eq!(loaded.settings.ip, "127.0.0.1");
    assert_eq!(loaded.settings.port, 3000);
    assert!(loaded.fell_back);
}

#[test]
fn loading_twice_gives_the_same() {
    let text = "port = 4000";
    assert_eq!(Settings::load(Some(text)), Settings::load(Some(text)));
}

#[test]
fn what_is_loaded_has_an_address() {
    for source in [None, Some(""), Some("ip = \"0.0.0.0\""), Some("ip = \"999.0.0.1\"")] {
        let loaded = Settings::load(source);
        assert!(is_ipv4(&loaded.settings.ip));
    }
}

#[test]
fn a_line_is_read_as_what_it_says() {
    assert_eq!(parse_entry(""), Entry::Blank);
    assert_eq!(parse_entry(" \t \r"), Entry::Blank);
    assert_eq!(parse_entry("ip=\"1.2.3.4\""), Entry::Ip("1.2.3.4".to_string()));
    assert_eq!(parse_entry("  ip  =  \"255.255.255.255\"  "), Entry::Ip("255.255.255.255".to_string()));
    assert_eq!(parse_entry("port=1"), Entry::Port(1));
    assert_eq!(parse_entry("\tport =\t65535\r"), Entry::Port(65535));
    assert_eq!(parse_entry("port = 1 = 2"), Entry::Malformed);
    assert_eq!(parse_entry("port"), Entry::Malformed);
    assert_eq!(parse_entry("p ort = 1"), Entry::Malformed);
    assert_eq!(parse_entry("ip = '1.2.3.4'"), Entry::Malformed);
    assert_eq!(parse_entry("port = 1\nport = 2"), Entry::Malformed);
    assert_eq!(parse_entry("port = \u{ff11}"), Entry::Malformed);
}
