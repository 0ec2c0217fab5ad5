use askama_axum_rust_template::ipv4::is_ipv4;
use askama_axum_rust_template::text::same_text;

#[test]
fn dotted_addresses_are_addresses() {
    for text in ["127.0.0.1", "0.0.0.0", "255.255.255.255", "10.20.30.40", "1.2.3.4", "192.168.100.9"] {
        assert!(is_ipv4(text), "{}", text);
    }
}

#[test]
fn other_texts_are_no_addresses() {
    for text in [
        "", ".", "...", "1", "1.2", "1.2.3", "1.2.3.", ".1.2.3", "1.2.3.4.", "1.2.3.4.5",
        "1..2.3", "256.0.0.1", "1.2.3.256", "1.2.3.1000", "01.2.3.4", "1.2.3.04", "1.2.3.00",
        "a.b.c.d", "1.2.3.4 ", " 1.2.3.4", "1.2.3.-4", "1.2.3.+4", "::1", "[::1]", "localhost",
        "1,2,3,4", "1.2.3.\u{664}", "\u{ff11}.2.3.4",
    ] {
        assert!(!is_ipv4(text), "{}", text);
    }
}

#[test]
fn each_part_is_a_number_up_to_255_without_a_leading_zero() {
    let cases = [
        ("9.99.199.249", true),
        ("0.0.0.0", true),
        ("25.5.5.5", true),
        ("255.0.0.0", true),
        ("256.1.1.1", false),
        ("0.00.0.0", false),
        ("01.1.1.1", false),
        ("1.1.1.001", false),
        ("1.1.1.1111", false),
        ("1.1.1.", false),
    ];
    for (text, expected) in cases {
        assert_eq!(is_ipv4(text), expected, "{}", text);
    }
}

#[test]
fn texts_are_the_same_where_their_characters_are() {
    assert!(same_text("", ""));
    assert!(same_text("theme.css", "theme.css"));
    assert!(same_text("gr\u{fc}n", "gr\u{fc}n"));
    assert!(!same_text("theme.css", "theme.cs"));
    assert!(!same_text("theme.css", "Theme.css"));
    assert!(!same_text("a", ""));
    assert!(!same_text("gr\u{fc}n", "grun"));
}
