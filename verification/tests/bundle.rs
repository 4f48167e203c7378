use taphle::bundle::{
    device_orientation_for_interface_orientation, join_path, launch_image_names,
    launch_image_suffixes, Bundle,
};
use taphle::plist_model::{parse_plist, PlistValue};
use taphle::window::{DeviceFamily, DeviceOrientation};

/// The landscape pair is inverted between the interface and device
/// vocabularies. It reads like a transcription error, so it is pinned.
#[test]
fn landscape_interface_orientations_map_to_the_opposite_device_orientation() {
    assert_eq!(
        device_orientation_for_interface_orientation("UIInterfaceOrientationLandscapeLeft"),
        Some(DeviceOrientation::LandscapeRight)
    );
    assert_eq!(
        device_orientation_for_interface_orientation("UIInterfaceOrientationLandscapeRight"),
        Some(DeviceOrientation::LandscapeLeft)
    );
}

/// Portrait is where the two vocabularies agree, so it must not pick up the
/// inversion. `UIDeviceOrientationPortrait` appears in shipped plists that
/// use the wrong prefix.
#[test]
fn portrait_interface_orientations_are_not_inverted() {
    assert_eq!(
        device_orientation_for_interface_orientation("UIInterfaceOrientationPortrait"),
        Some(DeviceOrientation::Portrait)
    );
    assert_eq!(
        device_orientation_for_interface_orientation("UIDeviceOrientationPortrait"),
        Some(DeviceOrientation::Portrait)
    );
    assert_eq!(
        device_orientation_for_interface_orientation("UIInterfaceOrientationPortraitUpsideDown"),
        Some(DeviceOrientation::PortraitUpsideDown)
    );
}

/// A name from outside iPhone OS's vocabulary is reported rather than
/// crashing the app over a string in its Info.plist.
#[test]
fn an_unrecognised_orientation_is_not_an_orientation() {
    assert_eq!(device_orientation_for_interface_orientation("Sideways"), None);
    assert_eq!(device_orientation_for_interface_orientation(""), None);
}

#[test]
fn the_older_landscape_spelling_is_left() {
    assert_eq!(
        device_orientation_for_interface_orientation("UIInterfaceOrientationLandscape"),
        Some(DeviceOrientation::LandscapeLeft)
    );
}

/// The unqualified name must come last.
#[test]
fn the_unqualified_launch_image_is_the_last_resort() {
    assert_eq!(
        launch_image_names("Default", &["-LandscapeLeft", "-Landscape"]),
        [
            "Default-LandscapeLeft.png",
            "Default-Landscape.png",
            "Default.png"
        ]
    );
}

/// `UILaunchImageFile` renames the whole family.
#[test]
fn a_custom_base_name_carries_the_orientation_modifiers() {
    assert_eq!(
        launch_image_names("Splash", &["-Landscape"]),
        ["Splash-Landscape.png", "Splash.png"]
    );
}

#[test]
fn no_suffixes_still_yields_the_unqualified_name() {
    assert_eq!(launch_image_names("Default", &[]), ["Default.png"]);
}

#[test]
fn the_landscape_modifier_names_the_interface_not_the_device() {
    assert_eq!(
        launch_image_suffixes(DeviceOrientation::LandscapeRight),
        ["-LandscapeLeft", "-Landscape"]
    );
    assert_eq!(
        launch_image_suffixes(DeviceOrientation::LandscapeLeft),
        ["-LandscapeRight", "-Landscape"]
    );
}

#[test]
fn portrait_is_not_inverted() {
    assert_eq!(launch_image_suffixes(DeviceOrientation::Portrait), ["-Portrait"]);
    assert_eq!(
        launch_image_suffixes(DeviceOrientation::PortraitUpsideDown),
        ["-PortraitUpsideDown", "-Portrait"]
    );
}

#[test]
fn plain_landscape_is_reachable_from_both_sides() {
    for orientation in [
        DeviceOrientation::LandscapeLeft,
        DeviceOrientation::LandscapeRight,
    ] {
        assert!(launch_image_suffixes(orientation).contains(&"-Landscape"));
    }
}

fn s(v: &str) -> PlistValue {
    PlistValue::String(v.to_string())
}

fn entry(k: &str, v: PlistValue) -> (String, PlistValue) {
    (k.to_string(), v)
}

fn sample_bundle(entries: Vec<(String, PlistValue)>) -> Bundle {
    Bundle::from_path_and_plist("/User/Applications/X/Game.app".to_string(), entries)
}

#[test]
fn guest_paths_join_with_one_separator() {
    assert_eq!(join_path("/a/b", "c"), "/a/b/c");
    assert_eq!(join_path("/a/b/", "c"), "/a/b/c");
    assert_eq!(join_path("/a/b", "/c"), "/c");
    assert_eq!(join_path("", "c"), "/c");
}

#[test]
fn identity_keys_are_read_from_the_plist() {
    let b = sample_bundle(vec![
        entry("CFBundleIdentifier", s("com.example.game")),
        entry("CFBundleVersion", s("42")),
        entry("CFBundleShortVersionString", s("1.2")),
        entry("CFBundleExecutable", s("Game")),
    ]);
    assert_eq!(b.bundle_identifier(), "com.example.game");
    assert_eq!(b.bundle_version(), "42");
    assert_eq!(b.short_version(), Some("1.2"));
    assert_eq!(b.executable_path(), "/User/Applications/X/Game.app/Game");
    assert_eq!(b.bundle_name(), "Game");
    assert_eq!(b.display_name(), "");
    assert_eq!(b.canonical_bundle_name(), None);
    assert_eq!(b.bundle_path(), "/User/Applications/X/Game.app");
}

#[test]
fn a_short_version_that_is_not_a_string_is_absent() {
    let b = sample_bundle(vec![entry("CFBundleShortVersionString", PlistValue::Integer(Some(3)))]);
    assert_eq!(b.short_version(), None);
}

#[test]
fn the_directory_name_prefers_the_canonical_name() {
    let with = vec![entry("CFBundleName", s("Canon"))];
    assert_eq!(Bundle::bundle_dir_name(&with, "Host"), "Canon.app");
    assert_eq!(Bundle::bundle_dir_name(&[], "Host"), "Host.app");
}

#[test]
fn a_plist_root_must_be_a_dictionary() {
    assert_eq!(
        Bundle::plist_dictionary(PlistValue::Boolean(true)).unwrap_err(),
        "plist root value is not a dictionary"
    );
    assert!(Bundle::plist_dictionary(PlistValue::Dictionary(vec![])).is_ok());
}

#[test]
fn device_families_accept_integers_and_decimal_strings() {
    let b = sample_bundle(vec![entry(
        "UIDeviceFamily",
        PlistValue::Array(vec![PlistValue::Integer(Some(2)), s("+1")]),
    )]);
    assert_eq!(b.device_family_array(), vec![DeviceFamily::iPad, DeviceFamily::iPhone]);
    assert_eq!(sample_bundle(vec![]).device_family_array(), vec![DeviceFamily::iPhone]);
}

#[test]
fn required_capabilities_come_from_a_list_or_a_dictionary() {
    let list = sample_bundle(vec![entry(
        "UIRequiredDeviceCapabilities",
        PlistValue::Array(vec![s("armv6"), s("opengles-1")]),
    )]);
    assert_eq!(list.required_device_capabilities(), vec!["armv6", "opengles-1"]);
    let dict = sample_bundle(vec![entry(
        "UIRequiredDeviceCapabilities",
        PlistValue::Dictionary(vec![
            entry("telephony", PlistValue::Boolean(true)),
            entry("wifi", PlistValue::Boolean(true)),
        ]),
    )]);
    assert_eq!(dict.required_device_capabilities(), vec!["telephony", "wifi"]);
    assert!(sample_bundle(vec![]).required_device_capabilities().is_empty());
}

#[test]
fn launch_image_paths_hang_off_the_bundle() {
    let b = sample_bundle(vec![entry("UILaunchImageFile", s("Splash"))]);
    assert_eq!(
        b.launch_image_paths(&["-Landscape"]),
        [
            "/User/Applications/X/Game.app/Splash-Landscape.png",
            "/User/Applications/X/Game.app/Splash.png"
        ]
    );
    assert_eq!(
        sample_bundle(vec![]).launch_image_paths(&[]),
        ["/User/Applications/X/Game.app/Default.png"]
    );
}

#[test]
fn supported_orientations_fall_back_through_the_older_key() {
    let newer = sample_bundle(vec![entry(
        "UISupportedInterfaceOrientations",
        PlistValue::Array(vec![s("UIInterfaceOrientationLandscapeLeft"), PlistValue::Boolean(true)]),
    )]);
    assert_eq!(
        newer.supported_interface_orientations(),
        vec!["UIInterfaceOrientationLandscapeLeft"]
    );
    let bare = sample_bundle(vec![entry(
        "UISupportedInterfaceOrientations",
        s("UIInterfaceOrientationPortrait,UIInterfaceOrientationLandscapeRight"),
    )]);
    assert_eq!(
        bare.supported_interface_orientations(),
        vec!["UIInterfaceOrientationPortrait", "UIInterfaceOrientationLandscapeRight"]
    );
    let older = sample_bundle(vec![
        entry("UISupportedInterfaceOrientations", PlistValue::Array(vec![])),
        entry("UIInterfaceOrientation", s("UIInterfaceOrientationLandscapeRight")),
    ]);
    assert_eq!(
        older.supported_interface_orientations(),
        vec!["UIInterfaceOrientationLandscapeRight"]
    );
    assert_eq!(
        sample_bundle(vec![]).supported_interface_orientations(),
        vec!["UIInterfaceOrientationPortrait"]
    );
}

#[test]
fn the_initial_orientation_is_the_first_of_the_older_key() {
    let b = sample_bundle(vec![entry(
        "UIInterfaceOrientation",
        s("UIInterfaceOrientationLandscapeLeft,UIInterfaceOrientationPortrait"),
    )]);
    assert_eq!(
        b.initial_interface_orientation(),
        Some("UIInterfaceOrientationLandscapeLeft")
    );
    let empty_first = sample_bundle(vec![entry("UIInterfaceOrientation", s(",x"))]);
    assert_eq!(empty_first.initial_interface_orientation(), None);
    let not_string = sample_bundle(vec![entry("UIInterfaceOrientation", PlistValue::Boolean(true))]);
    assert_eq!(not_string.initial_interface_orientation(), None);
}

#[test]
fn the_icon_is_chosen_by_name_and_given_an_extension() {
    let named = sample_bundle(vec![entry(
        "CFBundleIconFiles",
        PlistValue::Array(vec![s("Other.png"), s("Icon-72.png"), s("Icon.png.png")]),
    )]);
    assert_eq!(named.icon_path(), "/User/Applications/X/Game.app/Icon.png.png");
    let file = sample_bundle(vec![entry("CFBundleIconFile", s("AppIcon"))]);
    assert_eq!(file.icon_path(), "/User/Applications/X/Game.app/AppIcon.png");
    let upper = sample_bundle(vec![entry("CFBundleIconFile", s("AppIcon.PNG"))]);
    assert_eq!(upper.icon_path(), "/User/Applications/X/Game.app/AppIcon.PNG");
    assert_eq!(sample_bundle(vec![]).icon_path(), "/User/Applications/X/Game.app/Icon.png");
}

#[test]
fn the_sheen_is_skipped_for_prerendered_icons() {
    assert!(sample_bundle(vec![]).adds_sheen());
    assert!(!sample_bundle(vec![entry("UIPrerenderedIcon", PlistValue::Boolean(true))]).adds_sheen());
    assert!(!sample_bundle(vec![entry("UIPrerenderedIcon", s("YES"))]).adds_sheen());
    assert!(sample_bundle(vec![entry("UIPrerenderedIcon", s("NO"))]).adds_sheen());
}

#[test]
fn the_ipad_nib_is_used_only_on_ipad() {
    let b = sample_bundle(vec![
        entry("NSMainNibFile", s("MainWindow")),
        entry("NSMainNibFile~ipad", s("MainWindow-iPad")),
    ]);
    assert_eq!(b.main_nib_filename(Some(DeviceFamily::iPad)), Some("MainWindow-iPad"));
    assert_eq!(b.main_nib_filename(Some(DeviceFamily::iPhone)), Some("MainWindow"));
    assert_eq!(b.main_nib_filename(None), Some("MainWindow"));
}

#[test]
fn the_status_bar_is_hidden_only_by_a_true_boolean() {
    assert!(sample_bundle(vec![entry("UIStatusBarHidden", PlistValue::Boolean(true))]).status_bar_hidden());
    assert!(!sample_bundle(vec![entry("UIStatusBarHidden", s("YES"))]).status_bar_hidden());
    assert!(!sample_bundle(vec![]).status_bar_hidden());
}

#[test]
fn an_xml_plist_is_parsed_into_the_model() {
    let doc = br#"<?xml version="1.0" encoding="UTF-8"?>
<!DOCTYPE plist PUBLIC "-//Apple//DTD PLIST 1.0//EN" "http://www.apple.com/DTDs/PropertyList-1.0.dtd">
<plist version="1.0"><dict>
<key>CFBundleIdentifier</key><string>com.example.game</string>
<key>UIDeviceFamily</key><array><integer>1</integer><integer>2</integer></array>
</dict></plist>"#;
    let root = parse_plist(doc).unwrap();
    let entries = Bundle::plist_dictionary(root).unwrap();
    let b = sample_bundle(entries);
    assert_eq!(b.bundle_identifier(), "com.example.game");
    assert_eq!(b.device_family_array(), vec![DeviceFamily::iPhone, DeviceFamily::iPad]);
    assert_eq!(parse_plist(b"not a plist").unwrap_err(), "Could not deserialize plist data");
}

#[test]
fn deeply_nested_arrays_are_read_whole() {
    let mut doc = String::from(r#"<?xml version="1.0" encoding="UTF-8"?><plist version="1.0">"#);
    for _ in 0..40 {
        doc.push_str("<array>");
    }
    doc.push_str("<integer>7</integer>");
    for _ in 0..40 {
        doc.push_str("</array>");
    }
    doc.push_str("</plist>");
    let mut v = parse_plist(doc.as_bytes()).unwrap();
    let mut levels = 0;
    loop {
        match v {
            PlistValue::Array(mut items) => {
                levels += 1;
                assert_eq!(items.len(), 1);
                v = items.remove(0);
            }
            PlistValue::Integer(n) => {
                assert_eq!(n, Some(7));
                break;
            }
            other => panic!("unexpected value {:?}", other),
        }
    }
    assert_eq!(levels, 40);
}
