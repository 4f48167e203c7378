//! `CFURLCreateStringByAddingPercentEscapes`: which characters of a string
//! are escaped, and the bytes each escape stands for.

use crate::text::{chars_of, push_char, str_eq};
use vstd::prelude::*;
use vstd::string::*;

verus! {

broadcast use vstd::string::group_string_axioms;

/// `CFStringEncoding`.
pub type CFStringEncoding = u32;

pub const K_CF_STRING_ENCODING_MAC_ROMAN: CFStringEncoding = 0;
pub const K_CF_STRING_ENCODING_ISO_LATIN1: CFStringEncoding = 0x0201;
pub const K_CF_STRING_ENCODING_ASCII: CFStringEncoding = 0x0600;
pub const K_CF_STRING_ENCODING_UTF8: CFStringEncoding = 0x08000100;

/// The encodings percent escapes can be made in.
pub open spec fn escapable_encoding(encoding: CFStringEncoding) -> bool {
    encoding == K_CF_STRING_ENCODING_UTF8 || encoding == K_CF_STRING_ENCODING_ASCII || encoding
        == K_CF_STRING_ENCODING_ISO_LATIN1 || encoding == K_CF_STRING_ENCODING_MAC_ROMAN
}

/// A character RFC 2396 allows in a URL as it is, the `%` of an existing
/// escape and the `#` of a fragment among them.
pub open spec fn url_character(c: char) -> bool {
    ||| 'a' <= c <= 'z'
    ||| 'A' <= c <= 'Z'
    ||| '0' <= c <= '9'
    ||| c == '-' || c == '_' || c == '.' || c == '!' || c == '~' || c == '*' || c == '\'' || c
        == '(' || c == ')' || c == ';' || c == '/' || c == '?' || c == ':' || c == '@' || c == '&'
        || c == '=' || c == '+' || c == '$' || c == ',' || c == '%' || c == '#'
}

/// Whether RFC 2396 allows `character` in a URL as it is.
pub fn is_rfc2396_url_character(character: char) -> (r: bool)
    ensures
        r == url_character(character),
{
    let c = character;
    ('a' <= c && c <= 'z') || ('A' <= c && c <= 'Z') || ('0' <= c && c <= '9') || c == '-' || c
        == '_' || c == '.' || c == '!' || c == '~' || c == '*' || c == '\'' || c == '(' || c == ')'
        || c == ';' || c == '/' || c == '?' || c == ':' || c == '@' || c == '&' || c == '=' || c
        == '+' || c == '$' || c == ',' || c == '%' || c == '#'
}

/// The UTF-8 encoding of `c`.
pub open spec fn utf8(c: char) -> Seq<u8> {
    let n = c as int;
    if n < 0x80 {
        seq![n as u8]
    } else if n < 0x800 {
        seq![(0xC0 + n / 64) as u8, (0x80 + n % 64) as u8]
    } else if n < 0x10000 {
        seq![(0xE0 + n / 4096) as u8, (0x80 + (n / 64) % 64) as u8, (0x80 + n % 64) as u8]
    } else {
        seq![
            (0xF0 + n / 262144) as u8,
            (0x80 + (n / 4096) % 64) as u8,
            (0x80 + (n / 64) % 64) as u8,
            (0x80 + n % 64) as u8,
        ]
    }
}

/// The MacRoman encoding of a character, where it has one: what
/// `encoding_rs::MACINTOSH` encodes it to without an error.
pub uninterp spec fn mac_roman(c: char) -> Option<Seq<u8>>;

/// The bytes of an optional byte vector.
pub open spec fn opt_bytes(v: Option<Vec<u8>>) -> Option<Seq<u8>> {
    match v {
        Some(b) => Some(b@),
        None => None,
    }
}

/// `encoding_rs::MACINTOSH.encode` of the one character `c`: its bytes, or
/// none where the encoder reports an error (a character MacRoman lacks). The
/// contract names the result, and states what encoding_rs does with ASCII:
/// a character below 0x80 comes back as its own byte, without an error.
#[verifier::external_body]
fn encode_mac_roman(c: char) -> (r: Option<Vec<u8>>)
    ensures
        opt_bytes(r) == mac_roman(c),
        (c as int) < 0x80 ==> opt_bytes(r) == Some(seq![c as u8]),
{
    let mut buffer = [0u8; 4];
    let (bytes, _, had_errors) = encoding_rs::MACINTOSH.encode(c.encode_utf8(&mut buffer));
    if had_errors {
        None
    } else {
        Some(bytes.into_owned())
    }
}

/// The bytes `c` is escaped as in `encoding`, where the encoding has it.
pub open spec fn escape_bytes(c: char, encoding: CFStringEncoding) -> Option<Seq<u8>> {
    if encoding == K_CF_STRING_ENCODING_UTF8 {
        Some(utf8(c))
    } else if encoding == K_CF_STRING_ENCODING_ASCII {
        if (c as int) < 0x80 {
            Some(seq![c as u8])
        } else {
            None
        }
    } else if encoding == K_CF_STRING_ENCODING_ISO_LATIN1 {
        if (c as int) <= 0xFF {
            Some(seq![c as u8])
        } else {
            None
        }
    } else {
        mac_roman(c)
    }
}

/// The UTF-8 encoding of `c`.
pub fn utf8_bytes(c: char) -> (r: Vec<u8>)
    ensures
        r@ == utf8(c),
{
    let n = c as u32;
    let r = if n < 0x80 {
        vec![n as u8]
    } else if n < 0x800 {
        vec![(0xC0 + n / 64) as u8, (0x80 + n % 64) as u8]
    } else if n < 0x10000 {
        vec![(0xE0 + n / 4096) as u8, (0x80 + (n / 64) % 64) as u8, (0x80 + n % 64) as u8]
    } else {
        vec![
            (0xF0 + n / 262144) as u8,
            (0x80 + (n / 4096) % 64) as u8,
            (0x80 + (n / 64) % 64) as u8,
            (0x80 + n % 64) as u8,
        ]
    };
    assert(r@ =~= utf8(c));
    r
}

/// The bytes `character` is escaped as in `encoding`, or none where the
/// encoding cannot represent it.
pub fn bytes_for_percent_escape(character: char, encoding: CFStringEncoding) -> (r: Option<Vec<u8>>)
    requires
        escapable_encoding(encoding),
    ensures
        opt_bytes(r) == escape_bytes(character, encoding),
{
    if encoding == K_CF_STRING_ENCODING_UTF8 {
        Some(utf8_bytes(character))
    } else if encoding == K_CF_STRING_ENCODING_ASCII {
        if (character as u32) < 0x80 {
            let r = vec![character as u8];
            assert(r@ =~= seq![character as u8]);
            Some(r)
        } else {
            None
        }
    } else if encoding == K_CF_STRING_ENCODING_ISO_LATIN1 {
        if (character as u32) <= 0xFF {
            let r = vec![character as u8];
            assert(r@ =~= seq![character as u8]);
            Some(r)
        } else {
            None
        }
    } else {
        encode_mac_roman(character)
    }
}

/// Whether `c` is escaped: unless the caller leaves it, where it is not a
/// URL character or the caller asks for it escaped.
pub open spec fn escaped(c: char, leave: Seq<char>, escape: Seq<char>) -> bool {
    !leave.contains(c) && (!url_character(c) || escape.contains(c))
}

/// The upper-case hexadecimal digit of `d`.
pub open spec fn upper_hex_digit(d: int) -> char {
    if d < 10 {
        (d + '0' as int) as char
    } else {
        (d - 10 + 'A' as int) as char
    }
}

/// `%XY` for each byte, in upper-case hexadecimal.
pub open spec fn escape_text(bytes: Seq<u8>) -> Seq<char>
    decreases bytes.len(),
{
    if bytes.len() == 0 {
        Seq::empty()
    } else {
        escape_text(bytes.drop_last()) + seq![
            '%',
            upper_hex_digit(bytes.last() as int / 16),
            upper_hex_digit(bytes.last() as int % 16),
        ]
    }
}

/// `source` with percent escapes added, in `encoding`: none where a
/// character to escape has no bytes in it.
pub open spec fn escaped_string(
    source: Seq<char>,
    leave: Seq<char>,
    escape: Seq<char>,
    encoding: CFStringEncoding,
) -> Option<Seq<char>>
    decreases source.len(),
{
    if source.len() == 0 {
        Some(Seq::empty())
    } else {
        match escaped_string(source.drop_last(), leave, escape, encoding) {
            None => None,
            Some(prefix) => {
                let c = source.last();
                if !escaped(c, leave, escape) {
                    Some(prefix.push(c))
                } else {
                    match escape_bytes(c, encoding) {
                        Some(bytes) => Some(prefix + escape_text(bytes)),
                        None => None,
                    }
                }
            },
        }
    }
}

proof fn lemma_escaping_fails_for_longer(
    s: Seq<char>,
    k: int,
    leave: Seq<char>,
    escape: Seq<char>,
    encoding: CFStringEncoding,
)
    requires
        0 <= k <= s.len(),
        escaped_string(s.take(k), leave, escape, encoding) is None,
    ensures
        escaped_string(s, leave, escape, encoding) is None,
    decreases s.len() - k,
{
    if k < s.len() {
        assert(s.take(k + 1).drop_last() =~= s.take(k));
        lemma_escaping_fails_for_longer(s, k + 1, leave, escape, encoding);
    } else {
        assert(s.take(k) =~= s);
    }
}

/// The upper-case hexadecimal digit of `d`.
fn upper_hex(d: u8) -> (c: char)
    requires
        d < 16,
    ensures
        c == upper_hex_digit(d as int),
{
    let digits = ['0', '1', '2', '3', '4', '5', '6', '7', '8', '9', 'A', 'B', 'C', 'D', 'E', 'F'];
    assert(digits@ =~= seq!['0', '1', '2', '3', '4', '5', '6', '7', '8', '9', 'A', 'B', 'C', 'D', 'E', 'F']);
    digits[d as usize]
}

/// Whether `c` is among `cs`.
fn contains_char(cs: &[char], c: char) -> (r: bool)
    ensures
        r == cs@.contains(c),
{
    let mut i: usize = 0;
    while i < cs.len()
        invariant
            i <= cs@.len(),
            forall|k: int| 0 <= k < i ==> cs@[k] != c,
        decreases cs@.len() - i,
    {
        if cs[i] == c {
            assert(cs@[i as int] == c);
            return true;
        }
        i = i + 1;
    }
    false
}

/// `source` with percent escapes added for the characters that need them
/// and those `legal_characters_to_escape` asks for, but none of
/// `characters_to_leave`; none where `encoding` cannot represent a character
/// to escape. The encoding must be one escapes are made in, unless no
/// character is escaped.
pub fn add_percent_escapes(
    source: &str,
    characters_to_leave: &str,
    legal_characters_to_escape: &str,
    encoding: CFStringEncoding,
) -> (r: Option<String>)
    requires
        escapable_encoding(encoding) || forall|k: int|
            0 <= k < source@.len() ==> !escaped(
                #[trigger] source@[k],
                characters_to_leave@,
                legal_characters_to_escape@,
            ),
    ensures
        match r {
            Some(s) => escaped_string(
                source@,
                characters_to_leave@,
                legal_characters_to_escape@,
                encoding,
            ) == Some(s@),
            None => escaped_string(
                source@,
                characters_to_leave@,
                legal_characters_to_escape@,
                encoding,
            ) is None,
        },
{
    let cs = chars_of(source);
    let leave = chars_of(characters_to_leave);
    let escape = chars_of(legal_characters_to_escape);
    let mut result = String::new();
    let mut i: usize = 0;
    while i < cs.len()
        invariant
            cs@ == source@,
            leave@ == characters_to_leave@,
            escape@ == legal_characters_to_escape@,
            escapable_encoding(encoding) || forall|k: int|
                0 <= k < source@.len() ==> !escaped(
                    #[trigger] source@[k],
                    characters_to_leave@,
                    legal_characters_to_escape@,
                ),
            i <= cs@.len(),
            escaped_string(source@.take(i as int), leave@, escape@, encoding) == Some(result@),
        decreases cs@.len() - i,
    {
        let c = cs[i];
        assert(source@.take(i + 1).drop_last() =~= source@.take(i as int));
        assert(source@.take(i + 1).last() == c);
        let should_escape = !contains_char(leave.as_slice(), c) && (!is_rfc2396_url_character(c)
            || contains_char(escape.as_slice(), c));
        if !should_escape {
            push_char(&mut result, c);
        } else {
            assert(escaped(source@[i as int], characters_to_leave@, legal_characters_to_escape@));
            let bytes = match bytes_for_percent_escape(c, encoding) {
                Some(b) => b,
                None => {
                    proof {
                        lemma_escaping_fails_for_longer(
                            source@,
                            i + 1,
                            leave@,
                            escape@,
                            encoding,
                        );
                    }
                    return None;
                },
            };
            let ghost start = result@;
            let mut j: usize = 0;
            while j < bytes.len()
                invariant
                    j <= bytes@.len(),
                    result@ == start + escape_text(bytes@.take(j as int)),
                decreases bytes@.len() - j,
            {
                let b = bytes[j];
                push_char(&mut result, '%');
                push_char(&mut result, upper_hex(b / 16));
                push_char(&mut result, upper_hex(b % 16));
                assert(bytes@.take(j + 1).drop_last() =~= bytes@.take(j as int));
                j = j + 1;
                assert(result@ =~= start + escape_text(bytes@.take(j as int)));
            }
            assert(bytes@.take(j as int) =~= bytes@);
        }
        i = i + 1;
    }
    assert(source@.take(i as int) =~= source@);
    Some(result)
}

/// RFC 2396's reserved characters.
pub open spec fn rfc2396_reserved() -> Seq<char> {
    seq![';', '/', '?', ':', '@', '&', '=', '+', '$', ',']
}

/// RFC 2396's unreserved marks.
pub open spec fn rfc2396_marks() -> Seq<char> {
    seq!['-', '_', '.', '!', '~', '*', '\'', '(', ')']
}

/// The printable ASCII characters RFC 2396 excludes from URLs (its
/// "delims" but for `%` and `#`, and its "unwise" characters), and the
/// space.
pub open spec fn rfc2396_excluded() -> Seq<char> {
    seq![' ', '<', '>', '"', '{', '}', '|', '\\', '^', '[', ']', '`']
}

/// The URL characters are exactly RFC 2396's: its ASCII letters and digits,
/// its marks and its reserved characters, which a URL carries as they are,
/// with the `%` that begins an escape and the `#` before a fragment. Its
/// excluded characters, control characters and everything beyond ASCII are
/// not.
pub proof fn lemma_url_characters_are_rfc2396s(c: char)
    ensures
        rfc2396_reserved().contains(c) ==> url_character(c),
        rfc2396_marks().contains(c) ==> url_character(c),
        ('a' <= c <= 'z' || 'A' <= c <= 'Z' || '0' <= c <= '9') ==> url_character(c),
        c == '%' || c == '#' ==> url_character(c),
        rfc2396_excluded().contains(c) ==> !url_character(c),
        (c as int) < 0x20 || (c as int) >= 0x7f ==> !url_character(c),
        url_character(c) ==> rfc2396_reserved().contains(c) || rfc2396_marks().contains(c) || 'a'
            <= c <= 'z' || 'A' <= c <= 'Z' || '0' <= c <= '9' || c == '%' || c == '#',
{
    if rfc2396_reserved().contains(c) {
        let k = choose|k: int| 0 <= k < rfc2396_reserved().len() && rfc2396_reserved()[k] == c;
    }
    if rfc2396_marks().contains(c) {
        let k = choose|k: int| 0 <= k < rfc2396_marks().len() && rfc2396_marks()[k] == c;
    }
    if rfc2396_excluded().contains(c) {
        let k = choose|k: int| 0 <= k < rfc2396_excluded().len() && rfc2396_excluded()[k] == c;
    }
    if url_character(c) && !('a' <= c <= 'z' || 'A' <= c <= 'Z' || '0' <= c <= '9' || c == '%'
        || c == '#') {
        if c == ';' || c == '/' || c == '?' || c == ':' || c == '@' || c == '&' || c == '=' || c
            == '+' || c == '$' || c == ',' {
            assert(rfc2396_reserved().contains(c)) by {
                let r = rfc2396_reserved();
                if c == ';' { assert(r[0] == c); } else if c == '/' { assert(r[1] == c); } else if c
                    == '?' { assert(r[2] == c); } else if c == ':' { assert(r[3] == c); } else if c
                    == '@' { assert(r[4] == c); } else if c == '&' { assert(r[5] == c); } else if c
                    == '=' { assert(r[6] == c); } else if c == '+' { assert(r[7] == c); } else if c
                    == '$' { assert(r[8] == c); } else { assert(r[9] == c); }
            }
        } else {
            assert(rfc2396_marks().contains(c)) by {
                let m = rfc2396_marks();
                if c == '-' { assert(m[0] == c); } else if c == '_' { assert(m[1] == c); } else if c
                    == '.' { assert(m[2] == c); } else if c == '!' { assert(m[3] == c); } else if c
                    == '~' { assert(m[4] == c); } else if c == '*' { assert(m[5] == c); } else if c
                    == '\'' { assert(m[6] == c); } else if c == '(' { assert(m[7] == c); } else {
                    assert(m[8] == c);
                }
            }
        }
    }
}

/// Percent escaping leaves a string of URL characters that the caller does
/// not ask to have escaped as it is, whatever the encoding and whatever it
/// asks to leave: a query such as `a=1&b=2` passes through whole.
pub proof fn lemma_url_characters_pass_through(
    s: Seq<char>,
    leave: Seq<char>,
    escape: Seq<char>,
    encoding: CFStringEncoding,
)
    requires
        forall|k: int| 0 <= k < s.len() ==> url_character(#[trigger] s[k]) && !escape.contains(s[k]),
    ensures
        escaped_string(s, leave, escape, encoding) == Some(s),
    decreases s.len(),
{
    if s.len() > 0 {
        assert forall|k: int| 0 <= k < s.drop_last().len() implies url_character(
            #[trigger] s.drop_last()[k],
        ) && !escape.contains(s.drop_last()[k]) by {
            assert(s.drop_last()[k] == s[k]);
        }
        lemma_url_characters_pass_through(s.drop_last(), leave, escape, encoding);
        assert(url_character(s[s.len() - 1]));
        assert(s.drop_last().push(s.last()) =~= s);
    }
}

/// Percent escaping leaves every character the caller asks to leave as it
/// is, and nothing else it escapes: a string of characters all left passes
/// through whole.
pub proof fn lemma_left_characters_pass_through(
    s: Seq<char>,
    leave: Seq<char>,
    escape: Seq<char>,
    encoding: CFStringEncoding,
)
    requires
        forall|k: int| 0 <= k < s.len() ==> leave.contains(#[trigger] s[k]),
    ensures
        escaped_string(s, leave, escape, encoding) == Some(s),
    decreases s.len(),
{
    if s.len() > 0 {
        assert forall|k: int| 0 <= k < s.drop_last().len() implies leave.contains(
            #[trigger] s.drop_last()[k],
        ) by {
            assert(s.drop_last()[k] == s[k]);
        }
        lemma_left_characters_pass_through(s.drop_last(), leave, escape, encoding);
        assert(leave.contains(s[s.len() - 1]));
        assert(s.drop_last().push(s.last()) =~= s);
    }
}

} // verus!
