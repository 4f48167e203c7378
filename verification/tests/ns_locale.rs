use taphle::foundation::ns_locale::{
    locale_identifier, parse_locale_identifier, preferred_country_list, preferred_language_list,
    State,
};

#[test]
fn locale_identifier_forms_that_apps_actually_use() {
    // A bare language is a complete identifier.
    assert_eq!(parse_locale_identifier("en"), ("en".into(), None));
    // Both separators appear in the wild.
    assert_eq!(
        parse_locale_identifier("en_US"),
        ("en".into(), Some("US".into()))
    );
    assert_eq!(
        parse_locale_identifier("en-GB"),
        ("en".into(), Some("GB".into()))
    );
    // Case is normalised rather than rejected.
    assert_eq!(
        parse_locale_identifier("EN_us"),
        ("en".into(), Some("US".into()))
    );
    // A script subtag is four letters and must not be mistaken for a
    // region; the region follows it.
    assert_eq!(
        parse_locale_identifier("zh_Hans_CN"),
        ("zh".into(), Some("CN".into()))
    );
    // A script with no region yields no region rather than "Hans".
    assert_eq!(parse_locale_identifier("zh_Hant"), ("zh".into(), None));
    // UN M.49 numeric regions are three digits.
    assert_eq!(
        parse_locale_identifier("es_419"),
        ("es".into(), Some("419".into()))
    );
    // Degenerate input must not panic; the language falls back rather than
    // the caller losing its locale.
    assert_eq!(parse_locale_identifier(""), ("en".into(), None));
    assert_eq!(parse_locale_identifier("_"), ("en".into(), None));
}

#[test]
fn preferred_lists_fall_back_to_english_and_the_united_states() {
    assert_eq!(preferred_language_list(None, vec![]), vec!["en".to_string()]);
    assert_eq!(
        preferred_language_list(None, vec!["fr".to_string()]),
        vec!["fr".to_string()]
    );
    assert_eq!(
        preferred_language_list(Some(vec!["ja".to_string()]), vec!["fr".to_string()]),
        vec!["ja".to_string()]
    );
    assert_eq!(preferred_country_list(vec![]), vec!["US".to_string()]);
    assert_eq!(preferred_country_list(vec!["GB".to_string()]), vec!["GB".to_string()]);
}

#[test]
fn an_identifier_joins_language_and_country() {
    assert_eq!(locale_identifier(Some("en"), Some("US")), "en_US");
    assert_eq!(locale_identifier(Some("en"), None), "en");
    assert_eq!(locale_identifier(None, None), "");
}

#[test]
fn the_current_locale_is_created_once() {
    let mut state = State::new();
    let first = state.current_locale(|| 0x1000);
    let second = state.current_locale(|| 0x2000);
    assert_eq!(first, 0x1000);
    assert_eq!(second, 0x1000);
    assert_eq!(state.system_locale(|| 0x3000), 0x3000);
}
