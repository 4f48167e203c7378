//! `NSLocale`: the shared locales, the preferred languages and countries
//! reported to apps, and the reading of locale identifiers.

use crate::objc::{after_request, shared_instance, Id};
use crate::text::{chars_of, push_char, split_on, split_str, str_views, string_of};
use vstd::prelude::*;
use vstd::string::*;

verus! {

broadcast use vstd::string::group_string_axioms;

/// The shared locales and the preferred language list, once an app has
/// asked for them.
#[derive(Clone, Copy, Debug, Default)]
pub struct State {
    current_locale: Option<Id>,
    system_locale: Option<Id>,
    preferred_languages: Option<Id>,
}

impl State {
    pub closed spec fn current_locale_view(&self) -> Option<Id> {
        self.current_locale
    }

    pub closed spec fn system_locale_view(&self) -> Option<Id> {
        self.system_locale
    }

    pub closed spec fn preferred_languages_view(&self) -> Option<Id> {
        self.preferred_languages
    }

    pub fn new() -> (r: State)
        ensures
            r.current_locale_view() is None,
            r.system_locale_view() is None,
            r.preferred_languages_view() is None,
    {
        State { current_locale: None, system_locale: None, preferred_languages: None }
    }

    /// `+currentLocale`: the same object every time, created by `create` the
    /// first time.
    pub fn current_locale<F: FnOnce() -> Id>(&mut self, create: F) -> (r: Id)
        requires
            old(self).current_locale_view() is None ==> call_requires(create, ()),
        ensures
            (r, final(self).current_locale_view()) == after_request(
                old(self).current_locale_view(),
                r,
            ),
            old(self).current_locale_view() is None ==> call_ensures(create, (), r),
            final(self).system_locale_view() == old(self).system_locale_view(),
            final(self).preferred_languages_view() == old(self).preferred_languages_view(),
    {
        shared_instance(&mut self.current_locale, create)
    }

    /// `+systemLocale`: the same object every time, created by `create` the
    /// first time.
    pub fn system_locale<F: FnOnce() -> Id>(&mut self, create: F) -> (r: Id)
        requires
            old(self).system_locale_view() is None ==> call_requires(create, ()),
        ensures
            (r, final(self).system_locale_view()) == after_request(
                old(self).system_locale_view(),
                r,
            ),
            old(self).system_locale_view() is None ==> call_ensures(create, (), r),
            final(self).current_locale_view() == old(self).current_locale_view(),
            final(self).preferred_languages_view() == old(self).preferred_languages_view(),
    {
        shared_instance(&mut self.system_locale, create)
    }

    /// `+preferredLanguages`: the same array every time, created by `create`
    /// the first time.
    pub fn preferred_languages<F: FnOnce() -> Id>(&mut self, create: F) -> (r: Id)
        requires
            old(self).preferred_languages_view() is None ==> call_requires(create, ()),
        ensures
            (r, final(self).preferred_languages_view()) == after_request(
                old(self).preferred_languages_view(),
                r,
            ),
            old(self).preferred_languages_view() is None ==> call_ensures(create, (), r),
            final(self).current_locale_view() == old(self).current_locale_view(),
            final(self).system_locale_view() == old(self).system_locale_view(),
    {
        shared_instance(&mut self.preferred_languages, create)
    }
}

/// The views of a list of strings.
pub open spec fn views_of(v: Seq<String>) -> Seq<Seq<char>> {
    v.map_values(|s: String| s@)
}

/// The languages reported as preferred: those the user chose where they
/// chose any, else the system's, else English.
pub open spec fn languages_reported(chosen: Option<Seq<Seq<char>>>, system: Seq<Seq<char>>) -> Seq<
    Seq<char>,
> {
    match chosen {
        Some(c) => c,
        None => if system.len() == 0 {
            seq!["en"@]
        } else {
            system
        },
    }
}

/// The languages reported as preferred, from the user's choice and the
/// system's list.
pub fn preferred_language_list(chosen: Option<Vec<String>>, system: Vec<String>) -> (r: Vec<String>)
    ensures
        views_of(r@) == languages_reported(
            match chosen {
                Some(c) => Some(views_of(c@)),
                None => None,
            },
            views_of(system@),
        ),
{
    match chosen {
        Some(c) => c,
        None => if system.len() == 0 {
            let r = vec!["en".to_owned()];
            assert(views_of(r@) =~= seq!["en"@]);
            r
        } else {
            system
        },
    }
}

/// The countries reported for the current locale: the system's, else the
/// United States.
pub fn preferred_country_list(system: Vec<String>) -> (r: Vec<String>)
    ensures
        views_of(r@) == if system@.len() == 0 {
            seq!["US"@]
        } else {
            views_of(system@)
        },
{
    if system.len() == 0 {
        let r = vec!["US".to_owned()];
        assert(views_of(r@) =~= seq!["US"@]);
        r
    } else {
        system
    }
}

/// A locale's identifier from its language and country codes, either of
/// which may be absent: `language_COUNTRY`, or the language alone.
pub open spec fn identifier_of(language: Option<Seq<char>>, country: Option<Seq<char>>) -> Seq<char> {
    let l = match language {
        Some(l) => l,
        None => Seq::empty(),
    };
    match country {
        Some(c) => l + "_"@ + c,
        None => l,
    }
}

/// A locale's identifier from its language and country codes.
pub fn locale_identifier(language: Option<&str>, country: Option<&str>) -> (r: String)
    ensures
        r@ == identifier_of(
            match language {
                Some(l) => Some(l@),
                None => None,
            },
            match country {
                Some(c) => Some(c@),
                None => None,
            },
        ),
{
    let l = match language {
        Some(l) => l.to_owned(),
        None => String::new(),
    };
    match country {
        Some(c) => l.concat("_").concat(c),
        None => l,
    }
}

/// What `str::to_lowercase` makes of a string: its characters mapped to
/// lower case by the Unicode rules.
pub uninterp spec fn lowercase(s: Seq<char>) -> Seq<char>;

/// The lower case of an ASCII character: `A` to `Z` as `a` to `z`, every
/// other character as it is.
pub open spec fn ascii_lower_char(c: char) -> char {
    if 'A' <= c <= 'Z' {
        ((c as int) + 32) as char
    } else {
        c
    }
}

/// `str::to_lowercase`. The contract names its result, which depends on the
/// string alone, and states what the Unicode rules give of ASCII: each
/// character of a string of ASCII alone maps to its ASCII lower case.
#[verifier::external_body]
fn to_lowercase(s: &str) -> (r: String)
    ensures
        r@ == lowercase(s@),
        (forall|i: int| 0 <= i < s@.len() ==> (#[trigger] s@[i] as int) < 0x80) ==> r@ == s@.map_values(
            |c: char| ascii_lower_char(c),
        ),
{
    s.to_lowercase()
}

/// `s` with `-` written as `_`.
pub open spec fn dashes_as_underscores(s: Seq<char>) -> Seq<char> {
    s.map_values(|c: char| if c == '-' { '_' } else { c })
}

/// The non-empty pieces of `pieces`, in order.
pub open spec fn non_empty(pieces: Seq<Seq<char>>) -> Seq<Seq<char>>
    decreases pieces.len(),
{
    if pieces.len() == 0 {
        Seq::empty()
    } else if pieces.last().len() == 0 {
        non_empty(pieces.drop_last())
    } else {
        non_empty(pieces.drop_last()).push(pieces.last())
    }
}

/// The subtags of a locale identifier: its non-empty pieces between `_` and
/// `-` separators.
pub open spec fn subtags(identifier: Seq<char>) -> Seq<Seq<char>> {
    non_empty(split_on(dashes_as_underscores(identifier), '_'))
}

/// Whether `c` is an ASCII letter.
pub open spec fn is_ascii_letter(c: char) -> bool {
    ('a' <= c <= 'z') || ('A' <= c <= 'Z')
}

/// A region subtag: two ASCII letters or three ASCII digits.
pub open spec fn is_region(part: Seq<char>) -> bool {
    ||| part.len() == 2 && is_ascii_letter(part[0]) && is_ascii_letter(part[1])
    ||| part.len() == 3 && ('0' <= part[0] <= '9') && ('0' <= part[1] <= '9') && ('0' <= part[2]
        <= '9')
}

/// The first region subtag among `parts` from position `i` on.
pub open spec fn region_from(parts: Seq<Seq<char>>, i: int) -> Option<Seq<char>>
    decreases parts.len() - i,
{
    if i < 0 || i >= parts.len() {
        None
    } else if is_region(parts[i]) {
        Some(parts[i])
    } else {
        region_from(parts, i + 1)
    }
}

/// `s` with its ASCII lower-case letters in upper case.
pub open spec fn ascii_upper(s: Seq<char>) -> Seq<char> {
    s.map_values(|c: char| if 'a' <= c <= 'z' { ((c as int) - 32) as char } else { c })
}

/// The language and region of a locale identifier: the first subtag, in
/// lower case (English where there is none), and the first later subtag
/// that is a region, in upper case.
/// The subtag a locale identifier's language is read from: its first, or
/// `en` where it has none.
pub open spec fn language_subtag(identifier: Seq<char>) -> Seq<char> {
    let parts = subtags(identifier);
    if parts.len() > 0 {
        parts[0]
    } else {
        "en"@
    }
}

/// Whether every character of `s` is ASCII.
pub open spec fn all_ascii(s: Seq<char>) -> bool {
    forall|i: int| 0 <= i < s.len() ==> (#[trigger] s[i] as int) < 0x80
}

pub open spec fn locale_parts(identifier: Seq<char>) -> (Seq<char>, Option<Seq<char>>) {
    let parts = subtags(identifier);
    (
        lowercase(
            if parts.len() > 0 {
                parts[0]
            } else {
                "en"@
            },
        ),
        match region_from(parts, 1) {
            Some(r) => Some(ascii_upper(r)),
            None => None,
        },
    )
}

/// `identifier` with `-` written as `_`.
fn normalise_separators(identifier: &str) -> (r: String)
    ensures
        r@ == dashes_as_underscores(identifier@),
{
    let cs = chars_of(identifier);
    let mut out: Vec<char> = Vec::new();
    let mut i: usize = 0;
    while i < cs.len()
        invariant
            cs@ == identifier@,
            i <= cs@.len(),
            out@ == dashes_as_underscores(identifier@).take(i as int),
        decreases cs@.len() - i,
    {
        out.push(
            if cs[i] == '-' {
                '_'
            } else {
                cs[i]
            },
        );
        i = i + 1;
        assert(out@ =~= dashes_as_underscores(identifier@).take(i as int));
    }
    assert(dashes_as_underscores(identifier@).take(i as int) =~= dashes_as_underscores(
        identifier@,
    ));
    string_of(out.as_slice())
}

/// Whether `part` is a region subtag.
fn region_subtag(part: &str) -> (r: bool)
    ensures
        r == is_region(part@),
{
    let cs = chars_of(part);
    if cs.len() == 2 {
        let a = cs[0];
        let b = cs[1];
        (('a' <= a && a <= 'z') || ('A' <= a && a <= 'Z')) && (('a' <= b && b <= 'z') || ('A' <= b
            && b <= 'Z'))
    } else if cs.len() == 3 {
        ('0' <= cs[0] && cs[0] <= '9') && ('0' <= cs[1] && cs[1] <= '9') && ('0' <= cs[2] && cs[2]
            <= '9')
    } else {
        false
    }
}

/// `s` with its ASCII letters in upper case.
fn to_ascii_upper(s: &str) -> (r: String)
    ensures
        r@ == ascii_upper(s@),
{
    let cs = chars_of(s);
    let mut out: Vec<char> = Vec::new();
    let mut i: usize = 0;
    while i < cs.len()
        invariant
            cs@ == s@,
            i <= cs@.len(),
            out@ == ascii_upper(s@).take(i as int),
        decreases cs@.len() - i,
    {
        let c = cs[i];
        let u = if 'a' <= c && c <= 'z' {
            ((c as u32) - 32) as u8 as char
        } else {
            c
        };
        proof {
            if 'a' <= c && c <= 'z' {
                assert((((c as u32) - 32) as u8 as char) == (((c as int) - 32) as char));
            }
        }
        out.push(u);
        i = i + 1;
        assert(out@ =~= ascii_upper(s@).take(i as int));
    }
    assert(ascii_upper(s@).take(i as int) =~= ascii_upper(s@));
    string_of(out.as_slice())
}

/// Split a locale identifier, `language[_Script][_REGION]` with `_` or `-`
/// between subtags, into its language and optional region. A script
/// subtag, four letters, is not a region.
pub fn parse_locale_identifier(identifier: &str) -> (r: (String, Option<String>))
    ensures
        r.0@ == locale_parts(identifier@).0,
        all_ascii(language_subtag(identifier@)) ==> r.0@ == language_subtag(identifier@).map_values(
            |c: char| ascii_lower_char(c),
        ),
        match r.1 {
            Some(region) => locale_parts(identifier@).1 == Some(region@),
            None => locale_parts(identifier@).1 is None,
        },
{
    let normalised = normalise_separators(identifier);
    let pieces = split_str(normalised.as_str(), '_');
    let ghost pv = str_views(pieces@);
    let mut parts: Vec<&str> = Vec::new();
    let mut i: usize = 0;
    while i < pieces.len()
        invariant
            pv == str_views(pieces@),
            i <= pieces@.len(),
            str_views(parts@) == non_empty(pv.take(i as int)),
        decreases pieces@.len() - i,
    {
        assert(pv.take(i + 1).drop_last() =~= pv.take(i as int));
        assert(pv.take(i + 1).last() == pieces@[i as int]@);
        if !pieces[i].is_empty() {
            let ghost before = str_views(parts@);
            parts.push(pieces[i]);
            assert(str_views(parts@) =~= before.push(pieces@[i as int]@));
        }
        i = i + 1;
    }
    assert(pv.take(i as int) =~= pv);
    let ghost sv = str_views(parts@);
    assert(sv == subtags(identifier@));
    let language = if parts.len() > 0 {
        assert(sv[0] == parts@[0]@);
        to_lowercase(parts[0])
    } else {
        let en = "en";
        proof {
            reveal_strlit("en");
        }
        to_lowercase(en)
    };
    let mut j: usize = 1;
    let mut region: Option<String> = None;
    while j < parts.len()
        invariant
            sv == str_views(parts@),
            sv == subtags(identifier@),
            language@ == locale_parts(identifier@).0,
            all_ascii(language_subtag(identifier@)) ==> language@ == language_subtag(identifier@).map_values(
                |c: char| ascii_lower_char(c),
            ),
            1 <= j <= parts@.len() || (j == 1 && parts@.len() == 0),
            region is None,
            region_from(sv, 1) == region_from(sv, j as int),
        decreases parts@.len() - j,
    {
        assert(sv[j as int] == parts@[j as int]@);
        if region_subtag(parts[j]) {
            let found = to_ascii_upper(parts[j]);
            assert(region_from(sv, j as int) == Some(sv[j as int]));
            return (language, Some(found));
        }
        j = j + 1;
    }
    (language, region)
}

} // verus!
