use taphle::foundation::ns_number_formatter::group;

#[test]
fn grouping_inserts_separators_every_three_digits() {
    assert_eq!(group("1"), "1");
    assert_eq!(group("123"), "123");
    assert_eq!(group("1234"), "1,234");
    assert_eq!(group("1234567"), "1,234,567");
}

#[test]
fn grouping_keeps_the_sign_outside() {
    assert_eq!(group("-1234"), "-1,234");
}

#[test]
fn grouping_leaves_short_and_empty_parts_alone() {
    assert_eq!(group(""), "");
    assert_eq!(group("-"), "-");
    assert_eq!(group("-12"), "-12");
    assert_eq!(group("123456"), "123,456");
}
