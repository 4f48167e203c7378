//! Finding an app's OpenFeint offline configuration inside its `.ipa`
//! archive. Reading the archive's entries is the `zip` crate's; which entry
//! holds the configuration is decided here.

use crate::text::{ends_with, has_suffix};
use std::io::{Cursor, Read};
use vstd::prelude::*;

verus! {

/// A zip archive held in memory, as the `zip` crate reads it.
#[verifier::external_body]
pub struct ZipFile {
    archive: zip::ZipArchive<Cursor<Vec<u8>>>,
}

/// The bytes an open archive was read from.
pub uninterp spec fn zip_source(z: ZipFile) -> Seq<u8>;

/// What `zip::ZipArchive::new` makes of the bytes: the number of entries
/// (its `len`) where it reads the archive, else nothing.
pub uninterp spec fn zip_archive(bytes: Seq<u8>) -> Option<nat>;

/// The name of entry `i` of the archive of `bytes`, as
/// `ZipArchive::by_index` and `ZipFile::name` give it, or nothing where
/// either fails.
pub uninterp spec fn zip_entry_name(bytes: Seq<u8>, i: nat) -> Option<Seq<char>>;

/// The text of entry `i` of the archive of `bytes`, as
/// `ZipArchive::by_index` and `Read::read_to_string` give it, or nothing
/// where either fails.
pub uninterp spec fn zip_entry_text(bytes: Seq<u8>, i: nat) -> Option<Seq<char>>;

/// The views of an optional string.
pub open spec fn opt_chars(s: Option<String>) -> Option<Seq<char>> {
    match s {
        Some(s) => Some(s@),
        None => None,
    }
}

/// `zip::ZipArchive::new` over the bytes in memory. The contract names
/// whether the crate reads them as an archive.
#[verifier::external_body]
fn open_archive(bytes: Vec<u8>) -> (r: Option<ZipFile>)
    ensures
        r is Some <==> zip_archive(bytes@) is Some,
        r matches Some(z) ==> zip_source(z) == bytes@,
{
    zip::ZipArchive::new(Cursor::new(bytes)).ok().map(|archive| ZipFile { archive })
}

/// `ZipArchive::len`: the number of entries.
#[verifier::external_body]
fn entry_count(z: &ZipFile) -> (r: usize)
    ensures
        zip_archive(zip_source(*z)) == Some(r as nat),
{
    z.archive.len()
}

/// `ZipArchive::by_index` then `ZipFile::name`: the entry's name.
#[verifier::external_body]
fn entry_name(z: &mut ZipFile, i: usize) -> (r: Option<String>)
    ensures
        zip_source(*final(z)) == zip_source(*old(z)),
        opt_chars(r) == zip_entry_name(zip_source(*old(z)), i as nat),
{
    let entry = z.archive.by_index(i).ok()?;
    let name = entry.name().ok()?;
    Some(name.into_owned())
}

/// `ZipArchive::by_index` then `Read::read_to_string`: the entry's text.
#[verifier::external_body]
fn entry_text(z: &mut ZipFile, i: usize) -> (r: Option<String>)
    ensures
        zip_source(*final(z)) == zip_source(*old(z)),
        opt_chars(r) == zip_entry_text(zip_source(*old(z)), i as nat),
{
    let mut entry = z.archive.by_index(i).ok()?;
    let mut text = String::new();
    entry.read_to_string(&mut text).ok()?;
    Some(text)
}

/// The name the offline configuration is found under.
pub open spec fn config_suffix() -> Seq<char> {
    "openfeint_offline_config.xml"@
}

/// The configuration in the entries of `bytes` from entry `i` on, of `n`:
/// nothing where an entry's name cannot be read, the text of the first
/// entry whose name ends in the configuration's name, nothing where there
/// is none.
pub open spec fn config_from(bytes: Seq<u8>, i: nat, n: nat) -> Option<Seq<char>>
    decreases n - i,
{
    if i >= n {
        None
    } else {
        match zip_entry_name(bytes, i) {
            None => None,
            Some(name) => if has_suffix(name, config_suffix()) {
                zip_entry_text(bytes, i)
            } else {
                config_from(bytes, i + 1, n)
            },
        }
    }
}

/// The offline configuration in the archive of `bytes`.
pub open spec fn config_in_archive(bytes: Seq<u8>) -> Option<Seq<char>> {
    match zip_archive(bytes) {
        None => None,
        Some(n) => config_from(bytes, 0, n),
    }
}

/// The text of the `openfeint_offline_config.xml` in an app's `.ipa`
/// archive: of the first entry whose name ends so. Nothing where the bytes
/// are no archive, an entry before it cannot be read, or there is none.
pub fn offline_config_from_archive(bytes: Vec<u8>) -> (r: Option<String>)
    ensures
        opt_chars(r) == config_in_archive(bytes@),
{
    let ghost src = bytes@;
    let mut z = match open_archive(bytes) {
        Some(z) => z,
        None => return None,
    };
    let n = entry_count(&z);
    let mut i: usize = 0;
    while i < n
        invariant
            i <= n,
            zip_source(z) == src,
            src == bytes@,
            zip_archive(src) == Some(n as nat),
            config_in_archive(src) == config_from(src, i as nat, n as nat),
        decreases n - i,
    {
        let name = match entry_name(&mut z, i) {
            Some(name) => name,
            None => {
                assert(config_from(src, i as nat, n as nat) is None);
                return None;
            },
        };
        if ends_with(name.as_str(), "openfeint_offline_config.xml") {
            assert(config_from(src, i as nat, n as nat) == zip_entry_text(src, i as nat));
            return entry_text(&mut z, i);
        }
        i = i + 1;
    }
    None
}

} // verus!
