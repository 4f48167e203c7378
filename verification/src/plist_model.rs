//! The library's own model of a property list value, and the lookups the
//! bundle logic makes in one.

use vstd::prelude::*;

verus! {

#[verifier::external_type_specification]
#[verifier::external_body]
pub struct ExPlistValue(plist::Value);

/// A property list value, holding as plain values what the library reads.
#[derive(Debug)]
pub enum PlistValue {
    String(String),
    Boolean(bool),
    /// An integer, by its value as an unsigned 64-bit number when it has one.
    Integer(Option<u64>),
    Array(Vec<PlistValue>),
    /// A dictionary's entries, in the order the document gives them.
    Dictionary(Vec<(String, PlistValue)>),
    /// Data, dates, reals and UIDs, which nothing here reads.
    Other,
}

/// What `plist::Value::from_reader` makes of a document held in memory: its
/// value, taken apart as [PlistValue] holds it, or the description of the
/// crate's error (the error's `Display`). Parsing bytes in memory depends on
/// the bytes alone.
pub uninterp spec fn plist_document(bytes: Seq<u8>) -> Result<PlistValue, Seq<char>>;

/// `plist::Value::from_reader` over the bytes in memory, its value converted
/// to a [PlistValue], or the crate's description of its error. The contract
/// names the outcome.
#[verifier::external_body]
fn parse_plist_document(bytes: &[u8]) -> (r: Result<PlistValue, String>)
    ensures
        match plist_document(bytes@) {
            Ok(d) => r matches Ok(v) && v == d,
            Err(m) => r matches Err(e) && e@ == m,
        },
{
    match plist::Value::from_reader(std::io::Cursor::new(bytes)) {
        Ok(value) => Ok(plist_value_of(value)),
        Err(e) => Err(e.to_string()),
    }
}

/// The conversion of a `plist::Value` that [parse_plist_document] makes:
/// one [PlistValue] variant per variant of the crate's, children converted
/// alike, integers by `plist::Integer::as_unsigned`, dictionaries in their
/// order, and data, dates, reals and UIDs as [PlistValue::Other].
#[verifier::external_body]
fn plist_value_of(value: plist::Value) -> PlistValue {
    match value {
        plist::Value::String(s) => PlistValue::String(s),
        plist::Value::Boolean(b) => PlistValue::Boolean(b),
        plist::Value::Integer(i) => PlistValue::Integer(i.as_unsigned()),
        plist::Value::Array(a) => PlistValue::Array(a.into_iter().map(plist_value_of).collect()),
        plist::Value::Dictionary(d) => PlistValue::Dictionary(
            d.into_iter().map(|(k, v)| (k, plist_value_of(v))).collect(),
        ),
        _ => PlistValue::Other,
    }
}

/// Parse a property list document of any of the encodings the `plist` crate
/// reads. A document the crate refuses is an error, with the message the
/// bundle loader reports.
pub fn parse_plist(bytes: &[u8]) -> (r: Result<PlistValue, String>)
    ensures
        match plist_document(bytes@) {
            Ok(d) => r matches Ok(v) && v == d,
            Err(_) => r matches Err(e) && e@ == "Could not deserialize plist data"@,
        },
{
    match parse_plist_document(bytes) {
        Ok(value) => Ok(value),
        Err(_) => Err("Could not deserialize plist data".to_owned()),
    }
}

/// Parse a property list document, keeping the `plist` crate's description
/// of an error.
pub fn parse_plist_described(bytes: &[u8]) -> (r: Result<PlistValue, String>)
    ensures
        match plist_document(bytes@) {
            Ok(d) => r matches Ok(v) && v == d,
            Err(m) => r matches Err(e) && e@ == m,
        },
{
    parse_plist_document(bytes)
}

/// The value of the first entry under `key`, looking from position `i` on.
pub open spec fn lookup_from(entries: Seq<(String, PlistValue)>, key: Seq<char>, i: int) -> Option<
    PlistValue,
>
    decreases entries.len() - i,
{
    if i < 0 || i >= entries.len() {
        None
    } else if entries[i].0@ == key {
        Some(entries[i].1)
    } else {
        lookup_from(entries, key, i + 1)
    }
}

/// The value of the dictionary entry under `key`.
pub open spec fn lookup(entries: Seq<(String, PlistValue)>, key: Seq<char>) -> Option<PlistValue> {
    lookup_from(entries, key, 0)
}

/// The characters of a string value.
pub open spec fn string_value(v: PlistValue) -> Option<Seq<char>> {
    match v {
        PlistValue::String(s) => Some(s@),
        _ => None,
    }
}

/// The characters of an optional string value.
pub open spec fn opt_string(v: Option<PlistValue>) -> Option<Seq<char>> {
    match v {
        Some(x) => string_value(x),
        None => None,
    }
}

/// A value that is absent or a string.
pub open spec fn absent_or_string(v: Option<PlistValue>) -> bool {
    v is None || opt_string(v) is Some
}

impl PlistValue {
    /// The string, for a string value.
    pub fn as_string(&self) -> (r: Option<&str>)
        ensures
            r is Some == (string_value(*self) is Some),
            r matches Some(s) ==> string_value(*self) == Some(s@),
    {
        match self {
            PlistValue::String(s) => Some(s.as_str()),
            _ => None,
        }
    }

    /// The truth value, for a boolean value.
    pub fn as_boolean(&self) -> (r: Option<bool>)
        ensures
            r == (match *self {
                PlistValue::Boolean(b) => Some(b),
                _ => None,
            }),
    {
        match self {
            PlistValue::Boolean(b) => Some(*b),
            _ => None,
        }
    }
}

/// The value of the entry under `key` in `entries`.
pub fn dict_get<'a>(entries: &'a [(String, PlistValue)], key: &str) -> (r: Option<&'a PlistValue>)
    ensures
        r matches Some(v) ==> lookup(entries@, key@) == Some(*v),
        r is None ==> lookup(entries@, key@) is None,
{
    let wanted = key.to_owned();
    let mut i: usize = 0;
    while i < entries.len()
        invariant
            i <= entries@.len(),
            wanted@ == key@,
            lookup(entries@, key@) == lookup_from(entries@, key@, i as int),
        decreases entries@.len() - i,
    {
        let found = entries[i].0 == wanted;
        if found {
            assert(entries@[i as int].0@ == key@);
            return Some(&entries[i].1);
        }
        i = i + 1;
    }
    None
}

/// The string under `key` in `entries`, if there is a string there.
pub fn dict_get_string<'a>(entries: &'a [(String, PlistValue)], key: &str) -> (r: Option<&'a str>)
    ensures
        r is Some == (opt_string(lookup(entries@, key@)) is Some),
        r matches Some(s) ==> opt_string(lookup(entries@, key@)) == Some(s@),
{
    match dict_get(entries, key) {
        Some(v) => v.as_string(),
        None => None,
    }
}

} // verus!
