//! What the library reads from an application bundle's `Info.plist`, and the
//! file names it derives from it.
//!
//! Relevant Apple documentation:
//! * [Bundle Programming Guide](https://developer.apple.com/library/archive/documentation/CoreFoundation/Conceptual/CFBundles/Introduction/Introduction.html)
//! * [Bundle Resources](https://developer.apple.com/documentation/bundleresources?language=objc)

use crate::plist_model::{
    absent_or_string, dict_get, dict_get_string, lookup, opt_string, string_value, PlistValue,
};
use crate::text::{
    chars_of, has_suffix, parse_u64, parsed_u64, rfind_any, slice_chars, split_on, split_str,
    str_eq, str_views, trim_end_matches, trim_suffix_all,
};
use crate::window::{family_numbered, DeviceFamily, DeviceOrientation};
use vstd::prelude::*;
use vstd::string::*;

verus! {

broadcast use vstd::string::group_string_axioms;

// MARK: - Paths

/// `name` joined onto the directory `base`, as a guest path joins: an
/// absolute `name` stands alone, and otherwise exactly one `/` separates the
/// two.
pub open spec fn joined(base: Seq<char>, name: Seq<char>) -> Seq<char> {
    if name.len() > 0 && name[0] == '/' {
        name
    } else if base.len() > 0 && base.last() == '/' {
        base + name
    } else {
        base + seq!['/'] + name
    }
}

/// `name` joined onto the directory `base`.
pub fn join_path(base: &str, name: &str) -> (r: String)
    ensures
        r@ == joined(base@, name@),
{
    let b = chars_of(base);
    let n = chars_of(name);
    if n.len() > 0 && n[0] == '/' {
        return name.to_owned();
    }
    if b.len() > 0 && b[b.len() - 1] == '/' {
        return base.to_owned().concat(name);
    }
    let r = base.to_owned().concat("/").concat(name);
    proof {
        reveal_strlit("/");
    }
    r
}

/// The position of the last `/` in `p`, or -1 where there is none.
pub open spec fn last_slash(p: Seq<char>) -> int
    decreases p.len(),
{
    if p.len() == 0 {
        -1
    } else if p.last() == '/' {
        p.len() - 1
    } else {
        last_slash(p.drop_last())
    }
}

/// The last component of the path `p`: what follows its last `/`.
pub open spec fn last_component(p: Seq<char>) -> Seq<char> {
    p.subrange(last_slash(p) + 1, p.len() as int)
}

proof fn lemma_last_slash(p: Seq<char>)
    ensures
        -1 <= last_slash(p) < p.len(),
        last_slash(p) >= 0 ==> p[last_slash(p)] == '/',
        forall|k: int| last_slash(p) < k < p.len() ==> p[k] != '/',
    decreases p.len(),
{
    if p.len() > 0 && p.last() != '/' {
        lemma_last_slash(p.drop_last());
        assert forall|k: int| last_slash(p) < k < p.len() implies p[k] != '/' by {
            if k < p.len() - 1 {
                assert(p[k] == p.drop_last()[k]);
            }
        }
    }
}

proof fn lemma_last_slash_is(p: Seq<char>, j: int)
    requires
        -1 <= j < p.len(),
        j >= 0 ==> p[j] == '/',
        forall|k: int| j < k < p.len() ==> p[k] != '/',
    ensures
        last_slash(p) == j,
    decreases p.len(),
{
    if p.len() > 0 && p.last() != '/' {
        assert forall|k: int| j < k < p.drop_last().len() implies p.drop_last()[k] != '/' by {
            assert(p.drop_last()[k] == p[k]);
        }
        if j >= 0 {
            assert(p.drop_last()[j] == p[j]);
        }
        lemma_last_slash_is(p.drop_last(), j);
    }
}

/// The last component of the path `p`.
pub fn file_name(p: &str) -> (r: &str)
    ensures
        r@ == last_component(p@),
{
    let cs = chars_of(p);
    let slash = ['/'];
    let found = rfind_any(cs.as_slice(), 0, cs.len(), slash.as_slice());
    let start: usize = match found {
        Some(j) => j + 1,
        None => 0,
    };
    proof {
        assert(slash@ =~= seq!['/']);
        assert(cs@.subrange(0, cs@.len() as int) =~= cs@);
        match found {
            Some(j) => lemma_last_slash_is(p@, j as int),
            None => lemma_last_slash_is(p@, -1),
        }
    }
    slice_chars(p, start, cs.len())
}

// MARK: - Launch images and orientations

/// The device orientation that shows the interface orientation called `name`
/// upright. Landscape is inverted between the two vocabularies: interface
/// `LandscapeLeft` is device `LandscapeRight`, because the interface rotates
/// against the way the device is turned.
pub open spec fn orientation_named(name: Seq<char>) -> Option<DeviceOrientation> {
    if name == "UIInterfaceOrientationPortrait"@ || name == "UIDeviceOrientationPortrait"@ {
        Some(DeviceOrientation::Portrait)
    } else if name == "UIInterfaceOrientationPortraitUpsideDown"@ {
        Some(DeviceOrientation::PortraitUpsideDown)
    } else if name == "UIInterfaceOrientationLandscapeLeft"@ {
        Some(DeviceOrientation::LandscapeRight)
    } else if name == "UIInterfaceOrientationLandscapeRight"@ {
        Some(DeviceOrientation::LandscapeLeft)
    } else if name == "UIInterfaceOrientationLandscape"@ {
        Some(DeviceOrientation::LandscapeLeft)
    } else {
        None
    }
}

/// The device orientation that shows `interface_orientation` upright, or
/// `None` for a name that is not one of iPhone OS's. The older spelling
/// `UIInterfaceOrientationLandscape` corresponds to left.
pub fn device_orientation_for_interface_orientation(interface_orientation: &str) -> (r: Option<
    DeviceOrientation,
>)
    ensures
        r == orientation_named(interface_orientation@),
{
    if str_eq(interface_orientation, "UIInterfaceOrientationPortrait") || str_eq(
        interface_orientation,
        "UIDeviceOrientationPortrait",
    ) {
        Some(DeviceOrientation::Portrait)
    } else if str_eq(interface_orientation, "UIInterfaceOrientationPortraitUpsideDown") {
        Some(DeviceOrientation::PortraitUpsideDown)
    } else if str_eq(interface_orientation, "UIInterfaceOrientationLandscapeLeft") {
        Some(DeviceOrientation::LandscapeRight)
    } else if str_eq(interface_orientation, "UIInterfaceOrientationLandscapeRight") {
        Some(DeviceOrientation::LandscapeLeft)
    } else if str_eq(interface_orientation, "UIInterfaceOrientationLandscape") {
        Some(DeviceOrientation::LandscapeLeft)
    } else {
        None
    }
}

/// The launch image name modifiers for a device orientation, most specific
/// first. The modifier names the *interface* orientation, which for
/// landscape is the opposite of the device orientation.
pub open spec fn suffixes_for(orientation: DeviceOrientation) -> Seq<Seq<char>> {
    match orientation {
        DeviceOrientation::Portrait => seq!["-Portrait"@],
        DeviceOrientation::PortraitUpsideDown => seq!["-PortraitUpsideDown"@, "-Portrait"@],
        DeviceOrientation::LandscapeLeft => seq!["-LandscapeRight"@, "-Landscape"@],
        DeviceOrientation::LandscapeRight => seq!["-LandscapeLeft"@, "-Landscape"@],
    }
}

/// Launch image name modifiers to try for a device orientation, most
/// specific first.
pub fn launch_image_suffixes(orientation: DeviceOrientation) -> (r: &'static [&'static str])
    ensures
        str_views(r@) == suffixes_for(orientation),
{
    let r: &'static [&'static str] = match orientation {
        DeviceOrientation::Portrait => &["-Portrait"],
        DeviceOrientation::PortraitUpsideDown => &["-PortraitUpsideDown", "-Portrait"],
        DeviceOrientation::LandscapeLeft => &["-LandscapeRight", "-Landscape"],
        DeviceOrientation::LandscapeRight => &["-LandscapeLeft", "-Landscape"],
    };
    assert(str_views(r@) =~= suffixes_for(orientation));
    r
}

/// The unqualified `-Landscape` modifier is tried from either landscape
/// orientation, after the hand-specific one.
pub proof fn lemma_plain_landscape_from_both_sides()
    ensures
        suffixes_for(DeviceOrientation::LandscapeLeft).last() == "-Landscape"@,
        suffixes_for(DeviceOrientation::LandscapeRight).last() == "-Landscape"@,
{
}

/// The most specific launch image modifier for the device orientation that
/// shows an interface orientation upright names that interface orientation:
/// `UIInterfaceOrientation<X>` launches with `-<X>` first, for each of the
/// four, although landscape left and right swap on the way through the
/// device orientation.
pub proof fn lemma_launch_modifier_names_interface_orientation()
    ensures
        suffixes_for(orientation_named("UIInterfaceOrientationPortrait"@)->0)[0] == "-Portrait"@,
        suffixes_for(orientation_named("UIInterfaceOrientationPortraitUpsideDown"@)->0)[0]
            == "-PortraitUpsideDown"@,
        suffixes_for(orientation_named("UIInterfaceOrientationLandscapeLeft"@)->0)[0]
            == "-LandscapeLeft"@,
        suffixes_for(orientation_named("UIInterfaceOrientationLandscapeRight"@)->0)[0]
            == "-LandscapeRight"@,
{
    reveal_strlit("UIInterfaceOrientationPortrait");
    reveal_strlit("UIDeviceOrientationPortrait");
    reveal_strlit("UIInterfaceOrientationPortraitUpsideDown");
    reveal_strlit("UIInterfaceOrientationLandscapeLeft");
    reveal_strlit("UIInterfaceOrientationLandscapeRight");
    assert("UIInterfaceOrientationPortrait"@.len() == 30);
    assert("UIDeviceOrientationPortrait"@.len() == 27);
    assert("UIInterfaceOrientationPortraitUpsideDown"@.len() == 40);
    assert("UIInterfaceOrientationLandscapeLeft"@.len() == 35);
    assert("UIInterfaceOrientationLandscapeRight"@.len() == 36);
}

/// Launch image file names for `base`, most specific first: one per
/// modifier, then the unqualified name.
pub open spec fn launch_names(base: Seq<char>, suffixes: Seq<Seq<char>>) -> Seq<Seq<char>> {
    suffixes.map_values(|suffix: Seq<char>| base + suffix + ".png"@).push(base + ".png"@)
}

/// Launch image file names for `base_name`, most specific first, ending with
/// the unqualified name.
pub fn launch_image_names(base_name: &str, orientation_suffixes: &[&str]) -> (r: Vec<String>)
    ensures
        r@.map_values(|s: String| s@) == launch_names(base_name@, str_views(orientation_suffixes@)),
{
    let mut r: Vec<String> = Vec::new();
    let mut i: usize = 0;
    while i < orientation_suffixes.len()
        invariant
            i <= orientation_suffixes@.len(),
            r@.map_values(|s: String| s@) == str_views(orientation_suffixes@).subrange(
                0,
                i as int,
            ).map_values(|suffix: Seq<char>| base_name@ + suffix + ".png"@),
        decreases orientation_suffixes@.len() - i,
    {
        let name = base_name.to_owned().concat(orientation_suffixes[i]).concat(".png");
        let ghost before = r@.map_values(|s: String| s@);
        r.push(name);
        assert(str_views(orientation_suffixes@)[i as int] == orientation_suffixes@[i as int]@);
        assert(r@.map_values(|s: String| s@) =~= before.push(name@));
        i = i + 1;
        assert(r@.map_values(|s: String| s@) =~= str_views(orientation_suffixes@).subrange(
            0,
            i as int,
        ).map_values(|suffix: Seq<char>| base_name@ + suffix + ".png"@));
    }
    r.push(base_name.to_owned().concat(".png"));
    assert(str_views(orientation_suffixes@).subrange(0, i as int) =~= str_views(
        orientation_suffixes@,
    ));
    assert(r@.map_values(|s: String| s@) =~= launch_names(
        base_name@,
        str_views(orientation_suffixes@),
    ));
    r
}

// MARK: - The bundle

/// An application bundle: where it is in the guest file system, and the
/// entries of its `Info.plist`.
#[derive(Debug)]
pub struct Bundle {
    path: String,
    plist: Vec<(String, PlistValue)>,
}

/// The characters of an optional string.
pub open spec fn opt_view(r: Option<&str>) -> Option<Seq<char>> {
    match r {
        Some(s) => Some(s@),
        None => None,
    }
}

/// The string under `key`, or `default` where there is none.
pub open spec fn string_or(v: Option<PlistValue>, default: Seq<char>) -> Seq<char> {
    match opt_string(v) {
        Some(s) => s,
        None => default,
    }
}

impl Bundle {
    /// The bundle's path in the guest file system.
    pub closed spec fn path_view(&self) -> Seq<char> {
        self.path@
    }

    /// The entries of the bundle's `Info.plist`.
    pub closed spec fn entries(&self) -> Seq<(String, PlistValue)> {
        self.plist@
    }

    /// The `Info.plist` value under `key`.
    pub open spec fn value_at(&self, key: Seq<char>) -> Option<PlistValue> {
        lookup(self.entries(), key)
    }

    /// The entries of a parsed `Info.plist`, whose root must be a dictionary.
    pub fn plist_dictionary(root: PlistValue) -> (r: Result<Vec<(String, PlistValue)>, String>)
        ensures
            r is Ok == root is Dictionary,
            r matches Ok(d) ==> root == PlistValue::Dictionary(d),
            r matches Err(e) ==> e@ == "plist root value is not a dictionary"@,
    {
        match root {
            PlistValue::Dictionary(d) => Ok(d),
            _ => Err("plist root value is not a dictionary".to_owned()),
        }
    }

    /// The name of the bundle's directory: the canonical name from
    /// `CFBundleName` where the plist has one, else `host_bundle_name`, with
    /// `.app` after it.
    pub fn bundle_dir_name(plist: &[(String, PlistValue)], host_bundle_name: &str) -> (r: String)
        requires
            absent_or_string(lookup(plist@, "CFBundleName"@)),
        ensures
            r@ == string_or(lookup(plist@, "CFBundleName"@), host_bundle_name@) + ".app"@,
    {
        let name = match dict_get(plist, "CFBundleName") {
            Some(canonical) => canonical.as_string().unwrap(),
            None => host_bundle_name,
        };
        name.to_owned().concat(".app")
    }

    /// The bundle at `path` with the `Info.plist` entries `plist`.
    pub fn from_path_and_plist(path: String, plist: Vec<(String, PlistValue)>) -> (r: Bundle)
        ensures
            r.path_view() == path@,
            r.entries() == plist@,
    {
        Bundle { path, plist }
    }

    /// A bundle with an empty path and an empty `Info.plist`, for running
    /// without an app.
    pub fn new_fake_bundle() -> (r: Bundle)
        ensures
            r.path_view() == Seq::<char>::empty(),
            r.entries() == Seq::<(String, PlistValue)>::empty(),
    {
        Bundle { path: String::new(), plist: Vec::new() }
    }

    pub fn bundle_path(&self) -> (r: &str)
        ensures
            r@ == self.path_view(),
    {
        self.path.as_str()
    }

    /// The string under `key`, which must be there.
    fn required_string(&self, key: &str) -> (r: &str)
        requires
            opt_string(self.value_at(key@)) is Some,
        ensures
            opt_string(self.value_at(key@)) == Some(r@),
    {
        dict_get_string(self.plist.as_slice(), key).unwrap()
    }

    /// The string under `key` if there is a value there, which must then be a
    /// string.
    fn optional_string(&self, key: &str) -> (r: Option<&str>)
        requires
            absent_or_string(self.value_at(key@)),
        ensures
            opt_view(r) == opt_string(self.value_at(key@)),
    {
        dict_get_string(self.plist.as_slice(), key)
    }

    pub fn bundle_identifier(&self) -> (r: &str)
        requires
            opt_string(self.value_at("CFBundleIdentifier"@)) is Some,
        ensures
            opt_string(self.value_at("CFBundleIdentifier"@)) == Some(r@),
    {
        self.required_string("CFBundleIdentifier")
    }

    pub fn bundle_version(&self) -> (r: &str)
        requires
            opt_string(self.value_at("CFBundleVersion"@)) is Some,
        ensures
            opt_string(self.value_at("CFBundleVersion"@)) == Some(r@),
    {
        self.required_string("CFBundleVersion")
    }

    /// The marketing version string, if the app has one. A value there that
    /// is not a string counts as none.
    pub fn short_version(&self) -> (r: Option<&str>)
        ensures
            opt_view(r) == opt_string(self.value_at("CFBundleShortVersionString"@)),
    {
        dict_get_string(self.plist.as_slice(), "CFBundleShortVersionString")
    }

    /// The localizations the app lists, or none where it lists none.
    pub fn bundle_localizations(&self) -> (r: &[PlistValue])
        ensures
            (match self.value_at("CFBundleLocalizations"@) {
                Some(PlistValue::Array(a)) => r@ == a@,
                _ => r@.len() == 0,
            }),
    {
        match dict_get(self.plist.as_slice(), "CFBundleLocalizations") {
            Some(PlistValue::Array(a)) => a.as_slice(),
            _ => &[],
        }
    }

    /// Canonical name for the bundle according to `Info.plist`.
    pub fn canonical_bundle_name(&self) -> (r: Option<&str>)
        requires
            absent_or_string(self.value_at("CFBundleName"@)),
        ensures
            opt_view(r) == opt_string(self.value_at("CFBundleName"@)),
    {
        self.optional_string("CFBundleName")
    }

    /// The name this bundle has in the file system: the last component of its
    /// path, without the `.app` that it must end with.
    pub fn bundle_name(&self) -> (r: &str)
        requires
            has_suffix(last_component(self.path_view()), ".app"@),
        ensures
            r@ + ".app"@ == last_component(self.path_view()),
    {
        let name = file_name(self.path.as_str());
        let n = chars_of(name);
        proof {
            reveal_strlit(".app");
        }
        let r = slice_chars(name, 0, n.len() - 4);
        assert(r@ + ".app"@ =~= name@);
        r
    }

    /// The name to show for the app, or the empty string where it has none.
    pub fn display_name(&self) -> (r: &str)
        requires
            absent_or_string(self.value_at("CFBundleDisplayName"@)),
        ensures
            r@ == string_or(self.value_at("CFBundleDisplayName"@), Seq::empty()),
    {
        match self.optional_string("CFBundleDisplayName") {
            Some(name) => name,
            None => {
                proof {
                    reveal_strlit("");
                }
                ""
            },
        }
    }

    pub fn minimum_os_version(&self) -> (r: Option<&str>)
        requires
            absent_or_string(self.value_at("MinimumOSVersion"@)),
        ensures
            opt_view(r) == opt_string(self.value_at("MinimumOSVersion"@)),
    {
        self.optional_string("MinimumOSVersion")
    }

    /// The path of the app's executable.
    pub fn executable_path(&self) -> (r: String)
        requires
            opt_string(self.value_at("CFBundleExecutable"@)) is Some,
        ensures
            r@ == joined(self.path_view(), opt_string(self.value_at("CFBundleExecutable"@))->0),
    {
        join_path(self.path.as_str(), self.required_string("CFBundleExecutable"))
    }

    /// Whether the app asks for the status bar to be hidden: only a boolean
    /// true says so.
    pub fn status_bar_hidden(&self) -> (r: bool)
        ensures
            r == (self.value_at("UIStatusBarHidden"@) == Some(PlistValue::Boolean(true))),
    {
        match dict_get(self.plist.as_slice(), "UIStatusBarHidden") {
            Some(PlistValue::Boolean(b)) => *b,
            _ => false,
        }
    }
}

// MARK: - Lists the app declares

/// The number a `UIDeviceFamily` entry gives: an integer's value, or what a
/// string reads as in decimal.
pub open spec fn family_number(v: PlistValue) -> Option<u64> {
    match v {
        PlistValue::Integer(n) => n,
        PlistValue::String(s) => parsed_u64(s@),
        _ => None,
    }
}

/// A `UIDeviceFamily` entry that names a device family.
pub open spec fn names_a_family(v: PlistValue) -> bool {
    family_number(v) is Some && family_numbered(family_number(v)->0) is Some
}

/// The device family a `UIDeviceFamily` entry names.
pub open spec fn family_of(v: PlistValue) -> DeviceFamily {
    family_numbered(family_number(v)->0)->0
}

/// `UIDeviceFamily` as the app may write it: absent, or a list of entries
/// that each name a family.
pub open spec fn families_readable(v: Option<PlistValue>) -> bool {
    match v {
        None => true,
        Some(PlistValue::Array(a)) => forall|i: int| 0 <= i < a.len() ==> names_a_family(#[trigger] a[i]),
        _ => false,
    }
}

/// The device families the app declares, iPhone alone where it declares
/// none.
pub open spec fn families(v: Option<PlistValue>) -> Seq<DeviceFamily> {
    match v {
        Some(PlistValue::Array(a)) => a@.map_values(|x: PlistValue| family_of(x)),
        _ => seq![DeviceFamily::iPhone],
    }
}

/// `UIRequiredDeviceCapabilities` as the app may write it: absent, a list of
/// strings, or a dictionary whose entries are all `true`.
pub open spec fn capabilities_readable(v: Option<PlistValue>) -> bool {
    match v {
        None => true,
        Some(PlistValue::Dictionary(d)) => forall|i: int|
            0 <= i < d.len() ==> (#[trigger] d[i]).1 == PlistValue::Boolean(true),
        Some(PlistValue::Array(a)) => forall|i: int|
            0 <= i < a.len() ==> string_value(#[trigger] a[i]) is Some,
        _ => false,
    }
}

/// The capabilities the app requires: a dictionary's keys, or a list's
/// strings, in order.
pub open spec fn capabilities(v: Option<PlistValue>) -> Seq<Seq<char>> {
    match v {
        Some(PlistValue::Dictionary(d)) => d@.map_values(|e: (String, PlistValue)| e.0@),
        Some(PlistValue::Array(a)) => a@.map_values(|x: PlistValue| string_value(x)->0),
        _ => Seq::empty(),
    }
}

/// The strings among `a`, in order.
pub open spec fn strings_among(a: Seq<PlistValue>) -> Seq<Seq<char>>
    decreases a.len(),
{
    if a.len() == 0 {
        Seq::empty()
    } else {
        match string_value(a.last()) {
            Some(s) => strings_among(a.drop_last()).push(s),
            None => strings_among(a.drop_last()),
        }
    }
}

/// The interface orientations that the older key `UIInterfaceOrientation`
/// lists, portrait where it is absent.
pub open spec fn older_orientations(v: Option<PlistValue>) -> Seq<Seq<char>> {
    match v {
        Some(x) => split_on(string_value(x)->0, ','),
        None => seq!["UIInterfaceOrientationPortrait"@],
    }
}

/// The interface orientations the app supports. A list under
/// `UISupportedInterfaceOrientations` gives its strings where it has any; a
/// bare string there is read as the older key is read, split at commas;
/// anything else falls through to the older key and then to portrait.
pub open spec fn supported_orientations(newer: Option<PlistValue>, older: Option<PlistValue>) -> Seq<
    Seq<char>,
> {
    match newer {
        Some(PlistValue::Array(a)) => if strings_among(a@).len() > 0 {
            strings_among(a@)
        } else {
            older_orientations(older)
        },
        Some(PlistValue::String(s)) => split_on(s@, ','),
        _ => older_orientations(older),
    }
}

/// Whether the older key must be read to answer the supported orientations.
pub open spec fn reads_older_key(newer: Option<PlistValue>) -> bool {
    match newer {
        Some(PlistValue::Array(a)) => strings_among(a@).len() == 0,
        Some(PlistValue::String(_)) => false,
        _ => true,
    }
}

/// The strings among `a`, in order.
fn collect_strings(a: &[PlistValue]) -> (r: Vec<&str>)
    ensures
        str_views(r@) == strings_among(a@),
{
    let mut r: Vec<&str> = Vec::new();
    let mut i: usize = 0;
    while i < a.len()
        invariant
            i <= a@.len(),
            str_views(r@) == strings_among(a@.take(i as int)),
        decreases a@.len() - i,
    {
        assert(a@.take(i + 1).drop_last() =~= a@.take(i as int));
        assert(a@.take(i + 1).last() == a@[i as int]);
        match a[i].as_string() {
            Some(s) => {
                let ghost before = str_views(r@);
                r.push(s);
                assert(str_views(r@) =~= before.push(s@));
            },
            None => {},
        }
        i = i + 1;
    }
    assert(a@.take(i as int) =~= a@);
    r
}

impl Bundle {
    /// The device capabilities the app requires.
    pub fn required_device_capabilities(&self) -> (r: Vec<&str>)
        requires
            capabilities_readable(self.value_at("UIRequiredDeviceCapabilities"@)),
        ensures
            str_views(r@) == capabilities(self.value_at("UIRequiredDeviceCapabilities"@)),
    {
        let mut r: Vec<&str> = Vec::new();
        match dict_get(self.plist.as_slice(), "UIRequiredDeviceCapabilities") {
            Some(PlistValue::Dictionary(d)) => {
                let mut i: usize = 0;
                while i < d.len()
                    invariant
                        i <= d@.len(),
                        str_views(r@) == d@.take(i as int).map_values(
                            |e: (String, PlistValue)| e.0@,
                        ),
                    decreases d@.len() - i,
                {
                    let ghost before = str_views(r@);
                    r.push(d[i].0.as_str());
                    assert(str_views(r@) =~= before.push(d@[i as int].0@));
                    i = i + 1;
                    assert(str_views(r@) =~= d@.take(i as int).map_values(
                        |e: (String, PlistValue)| e.0@,
                    ));
                }
                assert(d@.take(i as int) =~= d@);
            },
            Some(PlistValue::Array(a)) => {
                let mut i: usize = 0;
                while i < a.len()
                    invariant
                        i <= a@.len(),
                        forall|k: int| 0 <= k < a.len() ==> string_value(#[trigger] a@[k]) is Some,
                        str_views(r@) == a@.take(i as int).map_values(
                            |x: PlistValue| string_value(x)->0,
                        ),
                    decreases a@.len() - i,
                {
                    let ghost before = str_views(r@);
                    let s = a[i].as_string().unwrap();
                    r.push(s);
                    assert(str_views(r@) =~= before.push(s@));
                    i = i + 1;
                    assert(str_views(r@) =~= a@.take(i as int).map_values(
                        |x: PlistValue| string_value(x)->0,
                    ));
                }
                assert(a@.take(i as int) =~= a@);
            },
            _ => {},
        }
        r
    }

    /// Launch image paths to try, most specific first, ending with the
    /// unqualified name. The base name is `UILaunchImageFile`, `Default` where
    /// the app names none, and `orientation_suffixes` are the modifiers to try.
    pub fn launch_image_paths(&self, orientation_suffixes: &[&str]) -> (r: Vec<String>)
        requires
            absent_or_string(self.value_at("UILaunchImageFile"@)),
        ensures
            r@.len() == orientation_suffixes@.len() + 1,
            forall|i: int|
                0 <= i < r@.len() ==> (#[trigger] r@[i])@ == joined(
                    self.path_view(),
                    launch_names(
                        string_or(self.value_at("UILaunchImageFile"@), "Default"@),
                        str_views(orientation_suffixes@),
                    )[i],
                ),
    {
        let base_name = match self.optional_string("UILaunchImageFile") {
            Some(name) => name,
            None => "Default",
        };
        let names = launch_image_names(base_name, orientation_suffixes);
        let ghost views = names@.map_values(|s: String| s@);
        assert(views.len() == names@.len());
        let mut r: Vec<String> = Vec::new();
        let mut i: usize = 0;
        while i < names.len()
            invariant
                i <= names@.len(),
                views == names@.map_values(|s: String| s@),
                r@.len() == i,
                forall|k: int| 0 <= k < i ==> (#[trigger] r@[k])@ == joined(self.path_view(), views[k]),
            decreases names@.len() - i,
        {
            r.push(join_path(self.path.as_str(), names[i].as_str()));
            i = i + 1;
        }
        r
    }

    /// The device families the app declares, iPhone alone where it declares
    /// none.
    pub fn device_family_array(&self) -> (r: Vec<DeviceFamily>)
        requires
            families_readable(self.value_at("UIDeviceFamily"@)),
        ensures
            r@ == families(self.value_at("UIDeviceFamily"@)),
    {
        match dict_get(self.plist.as_slice(), "UIDeviceFamily") {
            Some(PlistValue::Array(a)) => {
                let mut r: Vec<DeviceFamily> = Vec::new();
                let mut i: usize = 0;
                while i < a.len()
                    invariant
                        i <= a@.len(),
                        forall|k: int| 0 <= k < a.len() ==> names_a_family(#[trigger] a@[k]),
                        r@ == a@.take(i as int).map_values(|x: PlistValue| family_of(x)),
                    decreases a@.len() - i,
                {
                    assert(names_a_family(a@[i as int]));
                    let n = match &a[i] {
                        PlistValue::Integer(n) => n.unwrap(),
                        PlistValue::String(s) => parse_u64(s.as_str()).unwrap(),
                        _ => 0,
                    };
                    assert(family_number(a@[i as int]) == Some(n));
                    let family = DeviceFamily::from_number(n).unwrap();
                    r.push(family);
                    i = i + 1;
                    assert(r@ =~= a@.take(i as int).map_values(|x: PlistValue| family_of(x)));
                }
                assert(a@.take(i as int) =~= a@);
                r
            },
            _ => vec![DeviceFamily::iPhone],
        }
    }

    /// The interface orientations the app supports.
    pub fn supported_interface_orientations(&self) -> (r: Vec<&str>)
        requires
            reads_older_key(self.value_at("UISupportedInterfaceOrientations"@)) ==> absent_or_string(
                self.value_at("UIInterfaceOrientation"@),
            ),
        ensures
            str_views(r@) == supported_orientations(
                self.value_at("UISupportedInterfaceOrientations"@),
                self.value_at("UIInterfaceOrientation"@),
            ),
    {
        match dict_get(self.plist.as_slice(), "UISupportedInterfaceOrientations") {
            Some(PlistValue::Array(a)) => {
                let found = collect_strings(a.as_slice());
                if found.len() > 0 {
                    return found;
                }
            },
            Some(PlistValue::String(s)) => {
                return split_str(s.as_str(), ',');
            },
            _ => {},
        }
        match self.optional_string("UIInterfaceOrientation") {
            Some(s) => split_str(s, ','),
            None => {
                let r = vec!["UIInterfaceOrientationPortrait"];
                assert(str_views(r@) =~= seq!["UIInterfaceOrientationPortrait"@]);
                r
            },
        }
    }

    /// The interface orientation the app declares it launches in, if it says:
    /// the first entry of `UIInterfaceOrientation` where that is a string
    /// whose first entry is not empty.
    pub fn initial_interface_orientation(&self) -> (r: Option<&str>)
        ensures
            opt_view(r) == (match opt_string(self.value_at("UIInterfaceOrientation"@)) {
                Some(s) => if split_on(s, ',')[0].len() > 0 {
                    Some(split_on(s, ',')[0])
                } else {
                    None
                },
                None => None,
            }),
    {
        match dict_get_string(self.plist.as_slice(), "UIInterfaceOrientation") {
            Some(s) => {
                let pieces = split_str(s, ',');
                proof {
                    crate::text::lemma_split_nonempty(s@, ',');
                }
                let first = pieces[0];
                assert(first@ == str_views(pieces@)[0]);
                if !first.is_empty() {
                    Some(first)
                } else {
                    None
                }
            },
            None => None,
        }
    }
}

// MARK: - The icon

/// The first position from `i` on in `files` of a string that names `icon`,
/// with any number of `.png` suffixes.
pub open spec fn icon_at_from(files: Seq<PlistValue>, icon: Seq<char>, i: int) -> Option<int>
    decreases files.len() - i,
{
    if i < 0 || i >= files.len() {
        None
    } else if string_value(files[i]) is Some && trim_suffix_all(string_value(files[i])->0, ".png"@)
        == icon {
        Some(i)
    } else {
        icon_at_from(files, icon, i + 1)
    }
}

/// The icon to use among `CFBundleIconFiles`: the first named `Icon`, else
/// the first named `Icon-72`, else the first of all.
pub open spec fn chosen_icon(files: Seq<PlistValue>) -> Option<PlistValue> {
    match icon_at_from(files, "Icon"@, 0) {
        Some(i) => Some(files[i]),
        None => match icon_at_from(files, "Icon-72"@, 0) {
            Some(i) => Some(files[i]),
            None => if files.len() > 0 {
                Some(files[0])
            } else {
                None
            },
        },
    }
}

/// The icon file entry: `CFBundleIconFile`, or else the one chosen among
/// `CFBundleIconFiles` where that is a list.
pub open spec fn icon_entry(icon_file: Option<PlistValue>, icon_files: Option<PlistValue>) -> Option<
    PlistValue,
> {
    match icon_file {
        Some(v) => Some(v),
        None => match icon_files {
            Some(PlistValue::Array(a)) => chosen_icon(a@),
            _ => None,
        },
    }
}

/// `name` ends in `.png`, in any mix of cases.
pub open spec fn has_png_extension(name: Seq<char>) -> bool {
    let n = name.len();
    &&& n >= 4
    &&& name[n - 4] == '.'
    &&& (name[n - 3] == 'p' || name[n - 3] == 'P')
    &&& (name[n - 2] == 'n' || name[n - 2] == 'N')
    &&& (name[n - 1] == 'g' || name[n - 1] == 'G')
}

/// The icon's file name: the entry as it is where it has a `.png`
/// extension, with `.png` added where it has not, and `Icon.png` where there
/// is no entry.
pub open spec fn icon_file_name(entry: Option<PlistValue>) -> Seq<char> {
    match entry {
        Some(v) => if has_png_extension(string_value(v)->0) {
            string_value(v)->0
        } else {
            string_value(v)->0 + ".png"@
        },
        None => "Icon.png"@,
    }
}

/// Whether the app asks for the icon to be shown as it is:
/// `UIPrerenderedIcon`, a boolean, or the string `YES`.
pub open spec fn prerendered(v: Option<PlistValue>) -> bool {
    match v {
        Some(PlistValue::Boolean(b)) => b,
        Some(PlistValue::String(s)) => s@ == "YES"@,
        _ => false,
    }
}

/// The position from `i` on in `files` of a string naming `icon`.
fn find_icon_from(files: &[PlistValue], icon: &str, i: usize) -> (r: Option<usize>)
    requires
        i <= files@.len(),
    ensures
        r matches Some(j) ==> icon_at_from(files@, icon@, i as int) == Some(j as int) && j
            < files@.len(),
        r is None ==> icon_at_from(files@, icon@, i as int) is None,
    decreases files@.len() - i,
{
    if i == files.len() {
        return None;
    }
    let named = match files[i].as_string() {
        Some(s) => str_eq(trim_end_matches(s, ".png"), icon),
        None => false,
    };
    if named {
        Some(i)
    } else {
        find_icon_from(files, icon, i + 1)
    }
}

/// The icon to use among `CFBundleIconFiles`.
fn find_icon(icon_files: &[PlistValue]) -> (r: Option<&PlistValue>)
    ensures
        r matches Some(v) ==> chosen_icon(icon_files@) == Some(*v),
        r is None ==> chosen_icon(icon_files@) is None,
{
    match find_icon_from(icon_files, "Icon", 0) {
        Some(i) => Some(&icon_files[i]),
        None => match find_icon_from(icon_files, "Icon-72", 0) {
            Some(i) => Some(&icon_files[i]),
            None => if icon_files.len() > 0 {
                Some(&icon_files[0])
            } else {
                None
            },
        },
    }
}

/// Whether `name` ends in `.png`, in any mix of cases.
pub fn has_png_name(name: &str) -> (r: bool)
    ensures
        r == has_png_extension(name@),
{
    let cs = chars_of(name);
    let n = cs.len();
    if n < 4 {
        return false;
    }
    cs[n - 4] == '.' && (cs[n - 3] == 'p' || cs[n - 3] == 'P') && (cs[n - 2] == 'n' || cs[n - 2]
        == 'N') && (cs[n - 1] == 'g' || cs[n - 1] == 'G')
}

impl Bundle {
    /// The icon entry, with the list of icon files where the choice is made
    /// among them.
    fn icon_entry_value(&self) -> (r: Option<&PlistValue>)
        ensures
            r matches Some(v) ==> icon_entry(
                self.value_at("CFBundleIconFile"@),
                self.value_at("CFBundleIconFiles"@),
            ) == Some(*v),
            r is None ==> icon_entry(
                self.value_at("CFBundleIconFile"@),
                self.value_at("CFBundleIconFiles"@),
            ) is None,
    {
        match dict_get(self.plist.as_slice(), "CFBundleIconFile") {
            Some(v) => Some(v),
            None => match dict_get(self.plist.as_slice(), "CFBundleIconFiles") {
                Some(PlistValue::Array(a)) => find_icon(a.as_slice()),
                _ => None,
            },
        }
    }

    /// The path of the app's icon: `CFBundleIconFile`, else `Icon`, else
    /// `Icon-72`, else the first of `CFBundleIconFiles`, else `Icon.png`,
    /// with `.png` added to a name that lacks it.
    pub fn icon_path(&self) -> (r: String)
        requires
            absent_or_string(
                icon_entry(self.value_at("CFBundleIconFile"@), self.value_at("CFBundleIconFiles"@)),
            ),
        ensures
            r@ == joined(
                self.path_view(),
                icon_file_name(
                    icon_entry(
                        self.value_at("CFBundleIconFile"@),
                        self.value_at("CFBundleIconFiles"@),
                    ),
                ),
            ),
    {
        match self.icon_entry_value() {
            Some(v) => {
                let filename = v.as_string().unwrap();
                if has_png_name(filename) {
                    join_path(self.path.as_str(), filename)
                } else {
                    let with_extension = filename.to_owned().concat(".png");
                    join_path(self.path.as_str(), with_extension.as_str())
                }
            },
            None => join_path(self.path.as_str(), "Icon.png"),
        }
    }

    /// Whether the icon is to get the sheen iPhone OS adds: unless the app
    /// says it is prerendered.
    pub fn adds_sheen(&self) -> (r: bool)
        ensures
            r == !prerendered(self.value_at("UIPrerenderedIcon"@)),
    {
        let prerendered = match dict_get(self.plist.as_slice(), "UIPrerenderedIcon") {
            Some(PlistValue::Boolean(b)) => *b,
            Some(PlistValue::String(s)) => str_eq(s.as_str(), "YES"),
            _ => false,
        };
        !prerendered
    }

    /// The main nib file: the iPad one for an iPad where the app names one,
    /// else `NSMainNibFile`.
    pub fn main_nib_filename(&self, device_family: Option<DeviceFamily>) -> (r: Option<&str>)
        requires
            device_family == Some(DeviceFamily::iPad) && self.value_at("NSMainNibFile~ipad"@) is Some
                ==> opt_string(self.value_at("NSMainNibFile~ipad"@)) is Some,
            !(device_family == Some(DeviceFamily::iPad) && self.value_at("NSMainNibFile~ipad"@) is Some)
                ==> absent_or_string(self.value_at("NSMainNibFile"@)),
        ensures
            opt_view(r) == if device_family == Some(DeviceFamily::iPad) && self.value_at(
                "NSMainNibFile~ipad"@,
            ) is Some {
                opt_string(self.value_at("NSMainNibFile~ipad"@))
            } else {
                opt_string(self.value_at("NSMainNibFile"@))
            },
    {
        if let Some(DeviceFamily::iPad) = device_family {
            if dict_get(self.plist.as_slice(), "NSMainNibFile~ipad").is_some() {
                return self.optional_string("NSMainNibFile~ipad");
            }
        }
        self.optional_string("NSMainNibFile")
    }
}

} // verus!
