use taphle::app_bundle::{app_info, check_info_plist, read_info_plist, REQUIRED_KEYS};
use taphle::bundle::Bundle;
use taphle::plist_model::{parse_plist_described, PlistValue};

fn s(v: &str) -> PlistValue {
    PlistValue::String(v.to_string())
}

fn entry(k: &str, v: PlistValue) -> (String, PlistValue) {
    (k.to_string(), v)
}

/// The required keys are what the rest of tapHLE indexes an app by, so
/// their absence has to be reported as such.
#[test]
fn the_required_keys_are_the_identity_ones() {
    assert!(REQUIRED_KEYS.contains(&"CFBundleIdentifier"));
    assert!(REQUIRED_KEYS.contains(&"CFBundleVersion"));
}

#[test]
fn a_missing_required_key_is_named() {
    let plist = vec![entry("CFBundleVersion", s("1"))];
    assert_eq!(
        check_info_plist(&plist).unwrap_err(),
        "Its Info.plist has no CFBundleIdentifier, so tapHLE cannot identify it."
    );
    let plist = vec![entry("CFBundleIdentifier", s("a.b"))];
    assert_eq!(
        check_info_plist(&plist).unwrap_err(),
        "Its Info.plist has no CFBundleVersion, so tapHLE cannot identify it."
    );
}

#[test]
fn a_missing_executable_is_only_a_warning() {
    let plist = vec![
        entry("CFBundleIdentifier", s("a.b")),
        entry("CFBundleVersion", s("1")),
    ];
    assert_eq!(
        check_info_plist(&plist).unwrap(),
        vec!["Its Info.plist names no executable, so it will not run.".to_string()]
    );
    let complete = vec![
        entry("CFBundleIdentifier", s("a.b")),
        entry("CFBundleVersion", s("1")),
        entry("CFBundleExecutable", s("Game")),
    ];
    assert!(check_info_plist(&complete).unwrap().is_empty());
}

#[test]
fn an_unreadable_info_plist_is_an_error() {
    assert!(read_info_plist(b"garbage")
        .unwrap_err()
        .starts_with("Its Info.plist could not be read: "));
    let array = br#"<?xml version="1.0" encoding="UTF-8"?>
<plist version="1.0"><array><string>x</string></array></plist>"#;
    assert_eq!(
        read_info_plist(array).unwrap_err(),
        "Its Info.plist is not a property list dictionary."
    );
}

#[test]
fn a_refused_document_keeps_the_description_of_its_error() {
    let description = parse_plist_described(b"garbage").unwrap_err();
    assert!(!description.is_empty());
    assert_ne!(description, "garbage");
    assert_eq!(
        read_info_plist(b"garbage").unwrap_err(),
        format!("Its Info.plist could not be read: {}", description)
    );
    let dict = br#"<?xml version="1.0" encoding="UTF-8"?>
<plist version="1.0"><dict><key>k</key><string>v</string></dict></plist>"#;
    assert!(parse_plist_described(dict).is_ok());
}

#[test]
fn app_info_copies_what_the_bundle_records() {
    let bundle = Bundle::from_path_and_plist(
        "/Apps/X/Game.app".to_string(),
        vec![
            entry("CFBundleIdentifier", s("com.example.game")),
            entry("CFBundleVersion", s("42")),
            entry("CFBundleShortVersionString", s("1.0")),
            entry(
                "UIDeviceFamily",
                PlistValue::Array(vec![PlistValue::Integer(Some(1)), PlistValue::Integer(Some(2))]),
            ),
            entry("UIRequiredDeviceCapabilities", PlistValue::Array(vec![s("armv6")])),
        ],
    );
    let info = app_info(&bundle);
    assert_eq!(info.display_name, "");
    assert_eq!(info.bundle_name, "Game");
    assert_eq!(info.bundle_identifier, "com.example.game");
    assert_eq!(info.bundle_version, "42");
    assert_eq!(info.short_version.as_deref(), Some("1.0"));
    assert_eq!(info.minimum_os_version, None);
    assert_eq!(info.device_families, vec!["iPhone", "iPad"]);
    assert_eq!(info.required_capabilities, vec!["armv6"]);
    assert_eq!(info.supported_orientations, vec!["UIInterfaceOrientationPortrait"]);
}
