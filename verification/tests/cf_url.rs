use taphle::core_foundation::cf_url::{
    add_percent_escapes, bytes_for_percent_escape, is_rfc2396_url_character, utf8_bytes,
    K_CF_STRING_ENCODING_ASCII, K_CF_STRING_ENCODING_ISO_LATIN1, K_CF_STRING_ENCODING_MAC_ROMAN,
    K_CF_STRING_ENCODING_UTF8,
};

#[test]
fn percent_escapes_illegal_and_requested_url_characters() {
    assert_eq!(
        add_percent_escapes("hello world/path?é=1", "", "/?", K_CF_STRING_ENCODING_UTF8),
        Some("hello%20world%2Fpath%3F%C3%A9=1".to_owned())
    );
}

#[test]
fn percent_escapes_respect_leave_list_and_existing_escapes() {
    assert_eq!(
        add_percent_escapes("hello world%20", " ", "", K_CF_STRING_ENCODING_UTF8),
        Some("hello world%20".to_owned())
    );
}

#[test]
fn percent_escapes_reject_unrepresentable_ascii() {
    assert_eq!(add_percent_escapes("é", "", "", K_CF_STRING_ENCODING_ASCII), None);
}

#[test]
fn latin1_and_mac_roman_escape_single_bytes() {
    assert_eq!(
        add_percent_escapes("é", "", "", K_CF_STRING_ENCODING_ISO_LATIN1),
        Some("%E9".to_owned())
    );
    // MacRoman puts é at 0x8E.
    assert_eq!(
        add_percent_escapes("é", "", "", K_CF_STRING_ENCODING_MAC_ROMAN),
        Some("%8E".to_owned())
    );
    assert_eq!(add_percent_escapes("€", "", "", K_CF_STRING_ENCODING_ISO_LATIN1), None);
    assert_eq!(
        bytes_for_percent_escape(' ', K_CF_STRING_ENCODING_MAC_ROMAN),
        Some(vec![0x20])
    );
    assert_eq!(bytes_for_percent_escape('\u{4e00}', K_CF_STRING_ENCODING_MAC_ROMAN), None);
}

#[test]
fn utf8_encoding_matches_std() {
    for c in ['a', 'é', '€', '\u{10348}', '\u{7ff}', '\u{800}', '\u{ffff}', '\u{10000}'] {
        let mut buffer = [0; 4];
        assert_eq!(utf8_bytes(c), c.encode_utf8(&mut buffer).as_bytes().to_vec());
    }
}

#[test]
fn url_characters_are_those_of_rfc_2396() {
    for c in ['a', 'Z', '0', '-', '%', '#', '~', '\''] {
        assert!(is_rfc2396_url_character(c));
    }
    for c in [' ', '"', '<', '>', 'é', '{', '^'] {
        assert!(!is_rfc2396_url_character(c));
    }
}

#[test]
fn any_encoding_will_do_where_nothing_is_escaped() {
    // UTF-16 (0x0100) is no encoding escapes are made in, but nothing here
    // needs one.
    assert_eq!(
        add_percent_escapes("plain/path", "", "", 0x0100),
        Some("plain/path".to_owned())
    );
}
