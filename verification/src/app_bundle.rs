//! A read-only view of an app bundle, for tapHLE's own tools: what an app
//! records about itself, read the same way the emulator reads it.
//!
//! Nothing here modifies an app.

use crate::bundle::{
    capabilities, capabilities_readable, families, families_readable, last_component, opt_view,
    reads_older_key, string_or, supported_orientations, Bundle,
};
use crate::plist_model::{
    absent_or_string, dict_get, lookup, opt_string, parse_plist_described, plist_document, PlistValue,
};
use crate::text::{has_suffix, str_views};
use crate::window::DeviceFamily;
use vstd::prelude::*;
use vstd::string::*;

verus! {

broadcast use vstd::string::group_string_axioms;

/// What an app records about itself in its `Info.plist`.
///
/// Every field is copied from the bundle. A key an app does not set is
/// absent rather than guessed.
#[derive(Clone, Debug, Default, PartialEq)]
pub struct AppInfo {
    /// `CFBundleDisplayName`, empty when the app does not set one.
    pub display_name: String,
    /// `CFBundleName`, or the bundle directory's name when it has none.
    pub bundle_name: String,
    /// `CFBundleIdentifier`. Required; reading fails without it.
    pub bundle_identifier: String,
    /// `CFBundleVersion`, a build number. Required.
    pub bundle_version: String,
    /// `CFBundleShortVersionString`, the marketing version.
    pub short_version: Option<String>,
    /// `MinimumOSVersion`.
    pub minimum_os_version: Option<String>,
    /// `UIDeviceFamily`, as "iPhone" and "iPad".
    pub device_families: Vec<String>,
    /// `UIRequiredDeviceCapabilities`.
    pub required_capabilities: Vec<String>,
    /// `UISupportedInterfaceOrientations`, or the older singular key.
    pub supported_orientations: Vec<String>,
}

/// A decoded image, in unmultiplied RGBA.
#[derive(Clone, Debug)]
pub struct IconBitmap {
    pub width: u32,
    pub height: u32,
    pub rgba: Vec<u8>,
}

/// Everything read from one app bundle.
#[derive(Clone, Debug)]
pub struct AppBundleContents {
    pub info: AppInfo,
    /// The app's icon, with the rounded corners and sheen iPhone OS applies.
    pub icon: Option<IconBitmap>,
    /// The raw `iTunesMetadata.plist` beside `Payload/` in an `.ipa`, when
    /// there is one, unparsed.
    pub store_metadata: Option<Vec<u8>>,
    /// Problems that did not prevent the app being read, such as a missing
    /// icon.
    pub warnings: Vec<String>,
}

/// Keys without which the rest of tapHLE cannot work with an app at all.
pub const REQUIRED_KEYS: [&'static str; 2] = ["CFBundleIdentifier", "CFBundleVersion"];

/// The views of a list of strings.
pub open spec fn string_views(v: Seq<String>) -> Seq<Seq<char>> {
    v.map_values(|s: String| s@)
}

/// The name a device family is shown by.
pub open spec fn family_name(f: DeviceFamily) -> Seq<char> {
    match f {
        DeviceFamily::iPhone => "iPhone"@,
        DeviceFamily::iPad => "iPad"@,
    }
}

/// The name a device family is shown by.
pub fn device_family_name(f: DeviceFamily) -> (r: String)
    ensures
        r@ == family_name(f),
{
    match f {
        DeviceFamily::iPhone => "iPhone".to_owned(),
        DeviceFamily::iPad => "iPad".to_owned(),
    }
}

/// Owned copies of `v`.
fn owned_strings(v: &[&str]) -> (r: Vec<String>)
    ensures
        string_views(r@) == str_views(v@),
{
    let mut r: Vec<String> = Vec::new();
    let mut i: usize = 0;
    while i < v.len()
        invariant
            i <= v@.len(),
            string_views(r@) == str_views(v@).take(i as int),
        decreases v@.len() - i,
    {
        let ghost before = string_views(r@);
        r.push(v[i].to_owned());
        assert(string_views(r@) =~= before.push(v@[i as int]@));
        i = i + 1;
        assert(string_views(r@) =~= str_views(v@).take(i as int));
    }
    assert(str_views(v@).take(i as int) =~= str_views(v@));
    r
}

/// The message for a required key that is absent.
pub open spec fn missing_key_message(key: Seq<char>) -> Seq<char> {
    "Its Info.plist has no "@ + key + ", so tapHLE cannot identify it."@
}

/// The warning for an app without an executable.
pub open spec fn no_executable_warning() -> Seq<char> {
    "Its Info.plist names no executable, so it will not run."@
}

/// The first of the required keys that `plist` lacks.
pub open spec fn first_missing_key(plist: Seq<(String, PlistValue)>) -> Option<Seq<char>> {
    if lookup(plist, "CFBundleIdentifier"@) is None {
        Some("CFBundleIdentifier"@)
    } else if lookup(plist, "CFBundleVersion"@) is None {
        Some("CFBundleVersion"@)
    } else {
        None
    }
}

/// Check an `Info.plist`'s entries before a bundle is built from them: an
/// error naming the first required key that is absent, else the warnings
/// about what is missing but not required.
pub fn check_info_plist(plist: &[(String, PlistValue)]) -> (r: Result<Vec<String>, String>)
    ensures
        r is Err == first_missing_key(plist@) is Some,
        r matches Err(e) ==> e@ == missing_key_message(first_missing_key(plist@)->0),
        r matches Ok(w) ==> string_views(w@) == if lookup(plist@, "CFBundleExecutable"@) is Some {
            Seq::<Seq<char>>::empty()
        } else {
            seq![no_executable_warning()]
        },
{
    let mut i: usize = 0;
    while i < 2
        invariant
            i <= 2,
            i > 0 ==> lookup(plist@, "CFBundleIdentifier"@) is Some,
            i > 1 ==> lookup(plist@, "CFBundleVersion"@) is Some,
        decreases 2 - i,
    {
        let key = REQUIRED_KEYS[i];
        assert(key@ == if i == 0 {
            "CFBundleIdentifier"@
        } else {
            "CFBundleVersion"@
        });
        if dict_get(plist, key).is_none() {
            return Err("Its Info.plist has no ".to_owned().concat(key).concat(
                ", so tapHLE cannot identify it.",
            ));
        }
        i = i + 1;
    }
    let mut warnings: Vec<String> = Vec::new();
    if dict_get(plist, "CFBundleExecutable").is_none() {
        warnings.push("Its Info.plist names no executable, so it will not run.".to_owned());
    }
    assert(string_views(warnings@) =~= if lookup(plist@, "CFBundleExecutable"@) is Some {
        Seq::<Seq<char>>::empty()
    } else {
        seq![no_executable_warning()]
    });
    Ok(warnings)
}

/// The entries of an app's `Info.plist` from its bytes: an error where the
/// document cannot be parsed or its root is not a dictionary.
pub fn read_info_plist(bytes: &[u8]) -> (r: Result<Vec<(String, PlistValue)>, String>)
    ensures
        match plist_document(bytes@) {
            Err(d) => r matches Err(e) && e@ == "Its Info.plist could not be read: "@ + d,
            Ok(PlistValue::Dictionary(entries)) => r matches Ok(d) && d == entries,
            Ok(_) => r matches Err(e) && e@ == "Its Info.plist is not a property list dictionary."@,
        },
{
    match parse_plist_described(bytes) {
        Ok(root) => match Bundle::plist_dictionary(root) {
            Ok(d) => Ok(d),
            Err(_) => Err("Its Info.plist is not a property list dictionary.".to_owned()),
        },
        Err(e) => {
            Err("Its Info.plist could not be read: ".to_owned().concat(e.as_str()))
        },
    }
}

/// What reading an app's `Info.plist` needs of it.
pub open spec fn info_readable(b: Bundle) -> bool {
    &&& opt_string(b.value_at("CFBundleIdentifier"@)) is Some
    &&& opt_string(b.value_at("CFBundleVersion"@)) is Some
    &&& absent_or_string(b.value_at("CFBundleDisplayName"@))
    &&& absent_or_string(b.value_at("CFBundleName"@))
    &&& (b.value_at("CFBundleName"@) is None ==> has_suffix(last_component(b.path_view()), ".app"@))
    &&& absent_or_string(b.value_at("MinimumOSVersion"@))
    &&& families_readable(b.value_at("UIDeviceFamily"@))
    &&& capabilities_readable(b.value_at("UIRequiredDeviceCapabilities"@))
    &&& (reads_older_key(b.value_at("UISupportedInterfaceOrientations"@)) ==> absent_or_string(
        b.value_at("UIInterfaceOrientation"@),
    ))
}

/// The owned copy of an optional string.
pub open spec fn opt_string_view(v: Option<String>) -> Option<Seq<char>> {
    match v {
        Some(s) => Some(s@),
        None => None,
    }
}

fn owned_opt(v: Option<&str>) -> (r: Option<String>)
    ensures
        opt_string_view(r) == opt_view(v),
{
    match v {
        Some(s) => Some(s.to_owned()),
        None => None,
    }
}

/// What `bundle` records about itself.
pub fn app_info(bundle: &Bundle) -> (r: AppInfo)
    requires
        info_readable(*bundle),
    ensures
        r.display_name@ == string_or(bundle.value_at("CFBundleDisplayName"@), Seq::empty()),
        bundle.value_at("CFBundleName"@) is Some ==> Some(r.bundle_name@) == opt_string(
            bundle.value_at("CFBundleName"@),
        ),
        bundle.value_at("CFBundleName"@) is None ==> r.bundle_name@ + ".app"@ == last_component(
            bundle.path_view(),
        ),
        Some(r.bundle_identifier@) == opt_string(bundle.value_at("CFBundleIdentifier"@)),
        Some(r.bundle_version@) == opt_string(bundle.value_at("CFBundleVersion"@)),
        opt_string_view(r.short_version) == opt_string(
            bundle.value_at("CFBundleShortVersionString"@),
        ),
        opt_string_view(r.minimum_os_version) == opt_string(bundle.value_at("MinimumOSVersion"@)),
        string_views(r.device_families@) == families(bundle.value_at("UIDeviceFamily"@)).map_values(
            |f: DeviceFamily| family_name(f),
        ),
        string_views(r.required_capabilities@) == capabilities(
            bundle.value_at("UIRequiredDeviceCapabilities"@),
        ),
        string_views(r.supported_orientations@) == supported_orientations(
            bundle.value_at("UISupportedInterfaceOrientations"@),
            bundle.value_at("UIInterfaceOrientation"@),
        ),
{
    let bundle_name = match bundle.canonical_bundle_name() {
        Some(name) => name,
        None => bundle.bundle_name(),
    };
    let families = bundle.device_family_array();
    let mut device_families: Vec<String> = Vec::new();
    let mut i: usize = 0;
    while i < families.len()
        invariant
            i <= families@.len(),
            string_views(device_families@) == families@.take(i as int).map_values(
                |f: DeviceFamily| family_name(f),
            ),
        decreases families@.len() - i,
    {
        let ghost before = string_views(device_families@);
        device_families.push(device_family_name(families[i]));
        assert(string_views(device_families@) =~= before.push(family_name(families@[i as int])));
        i = i + 1;
        assert(string_views(device_families@) =~= families@.take(i as int).map_values(
            |f: DeviceFamily| family_name(f),
        ));
    }
    assert(families@.take(i as int) =~= families@);
    let capabilities = bundle.required_device_capabilities();
    let orientations = bundle.supported_interface_orientations();
    AppInfo {
        display_name: bundle.display_name().to_owned(),
        bundle_name: bundle_name.to_owned(),
        bundle_identifier: bundle.bundle_identifier().to_owned(),
        bundle_version: bundle.bundle_version().to_owned(),
        short_version: owned_opt(bundle.short_version()),
        minimum_os_version: owned_opt(bundle.minimum_os_version()),
        device_families,
        required_capabilities: owned_strings(capabilities.as_slice()),
        supported_orientations: owned_strings(orientations.as_slice()),
    }
}

} // verus!
