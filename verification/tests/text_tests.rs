use webssh::text::{parse_u16, push_decimal, split_list, str_equals, trim_str};

#[test]
fn trim_removes_unicode_whitespace() {
    assert_eq!(trim_str("  a b \t"), "a b");
    assert_eq!(trim_str("\u{a0}\u{3000}x\u{2028}"), "x");
    assert_eq!(trim_str("   "), "");
    assert_eq!(trim_str(""), "");
}

#[test]
fn parse_u16_accepts_decimal_ports() {
    assert_eq!(parse_u16("8080"), Some(8080));
    assert_eq!(parse_u16("+443"), Some(443));
    assert_eq!(parse_u16("0"), Some(0));
    assert_eq!(parse_u16("00080"), Some(80));
    assert_eq!(parse_u16("65535"), Some(65535));
}

#[test]
fn parse_u16_rejects_other_text() {
    assert_eq!(parse_u16(""), None);
    assert_eq!(parse_u16("+"), None);
    assert_eq!(parse_u16("-1"), None);
    assert_eq!(parse_u16("65536"), None);
    assert_eq!(parse_u16("99999999999"), None);
    assert_eq!(parse_u16(" 80"), None);
    assert_eq!(parse_u16("80a"), None);
    assert_eq!(parse_u16("++1"), None);
    assert_eq!(parse_u16("８０"), None);
}

#[test]
fn parse_u16_agrees_with_std() {
    for s in ["1", "+1", "-", "12x", "65535", "65536", "007", "", "+-3", "4294967296"] {
        assert_eq!(parse_u16(s), s.parse::<u16>().ok(), "{s}");
    }
}

#[test]
fn decimal_round_trip() {
    for n in [0u16, 7, 10, 99, 100, 8080, 65535] {
        let mut s = String::new();
        push_decimal(&mut s, n);
        assert_eq!(s, n.to_string());
        assert_eq!(parse_u16(&s), Some(n));
    }
}

#[test]
fn split_list_on_commas() {
    assert_eq!(
        split_list(" http://a.example , ,https://b.example,", false),
        vec!["http://a.example".to_string(), "https://b.example".to_string()]
    );
    assert_eq!(split_list("a b,c", false), vec!["a b".to_string(), "c".to_string()]);
    assert!(split_list("", false).is_empty());
    assert!(split_list(" , ,", false).is_empty());
}

#[test]
fn split_list_on_commas_and_spaces() {
    assert_eq!(
        split_list("a b,c\t, d", true),
        vec!["a".to_string(), "b".to_string(), "c".to_string(), "d".to_string()]
    );
}

#[test]
fn join_then_split_gives_items_back() {
    let items = vec!["https://a.example".to_string(), "http://localhost:3000".to_string(), "*".to_string()];
    let joined = items.join(",");
    assert_eq!(split_list(&joined, false), items);
    assert_eq!(split_list(&joined, true), items);
}

#[test]
fn str_equals_compares_characters() {
    assert!(str_equals("ping", "ping"));
    assert!(!str_equals("ping", "pin"));
    assert!(!str_equals("ping", "PING"));
}
