use taphle::foundation::ns_process_info::{format_unique_string, State};

#[test]
fn globally_unique_strings_change_with_the_sequence() {
    let first = format_unique_string(1234, 42, 0);
    let second = format_unique_string(1234, 42, 1);

    assert_ne!(first, second);
    assert!(first.starts_with("tapHLE-"));
}

#[test]
fn unique_strings_are_in_lower_case_hexadecimal() {
    assert_eq!(format_unique_string(0xABCDEF, 255, 16), "tapHLE-abcdef-ff-10");
    assert_eq!(format_unique_string(0, 0, 0), "tapHLE-0-0-0");
    assert_eq!(
        format_unique_string(u128::MAX, u32::MAX, u64::MAX),
        format!("tapHLE-{:x}-{:x}-{:x}", u128::MAX, u32::MAX, u64::MAX)
    );
}

#[test]
fn each_unique_string_takes_the_next_sequence_number() {
    let mut state = State::new();
    assert_eq!(state.globally_unique_string(5, 6), "tapHLE-5-6-0");
    assert_eq!(state.globally_unique_string(5, 6), "tapHLE-5-6-1");
    assert_eq!(state.process_info(|| 77), 77);
    assert_eq!(state.process_info(|| 88), 77);
}
