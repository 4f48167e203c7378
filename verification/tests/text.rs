use taphle::text::{
    decimal_string, ends_with, hex_string, lines, parse_u64, split_str, str_eq, trim,
    trim_end_matches,
};

#[test]
fn decimal_parsing_follows_str_parse() {
    for s in ["0", "42", "+7", "18446744073709551615", "", "+", "-1", "1a", "18446744073709551616", " 1"] {
        assert_eq!(parse_u64(s), s.parse::<u64>().ok(), "{s:?}");
    }
}

#[test]
fn splitting_and_lines_follow_std() {
    for s in ["", "a", "a,b", ",a,", ",,"] {
        assert_eq!(split_str(s, ','), s.split(',').collect::<Vec<_>>());
    }
    for s in ["", "a\nb", "a\r\nb\n", "\n\n", "x\r"] {
        assert_eq!(lines(s), s.lines().collect::<Vec<_>>(), "{s:?}");
    }
}

#[test]
fn trimming_follows_std() {
    for s in ["", "  a b ", "\u{3000}x\u{a0}", "\t\n", "y"] {
        assert_eq!(trim(s), s.trim());
    }
    assert_eq!(trim_end_matches("Icon.png.png", ".png"), "Icon");
    assert_eq!(trim_end_matches("Icon", ".png"), "Icon");
    assert!(ends_with("a.png", ".png"));
    assert!(!ends_with("png", ".png"));
    assert!(str_eq("abc", "abc"));
    assert!(!str_eq("abc", "abd"));
}

#[test]
fn numbers_format_as_std_does() {
    for n in [0u64, 9, 10, 12345, u64::MAX] {
        assert_eq!(decimal_string(n), n.to_string());
    }
    for n in [0u128, 15, 16, 0xdeadbeef, u128::MAX] {
        assert_eq!(hex_string(n), format!("{n:x}"));
    }
}
