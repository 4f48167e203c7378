//! Taking apart the URL strings behind `NSURL`.
//!
//! This is not a complete RFC 1808 parser: it reads the forms iPhone OS apps
//! actually use. Every component is a slice of the URL it came from.

use crate::text::{
    chars_of, find_any, find_pattern, find_seq, first_of, first_where, last_where, matches_at,
    occurs_at, one_of, owned, push_str, rfind_any, slice_chars,
};
use vstd::prelude::*;
use vstd::string::*;

verus! {

/// A character that may appear in a URL scheme.
pub open spec fn is_scheme_char(c: char) -> bool {
    ('a' <= c && c <= 'z') || ('A' <= c && c <= 'Z') || ('0' <= c && c <= '9') || c == '+' || c
        == '-' || c == '.'
}

/// The length of the scheme of `url`: the text before its first `:`, when
/// that is non-empty and made only of ASCII letters, digits, `+`, `-` and `.`.
pub open spec fn scheme_len(url: Seq<char>) -> Option<int> {
    match first_of(url, ':') {
        None => None,
        Some(i) => if i > 0 && forall|k: int| 0 <= k < i ==> is_scheme_char(#[trigger] url[k]) {
            Some(i)
        } else {
            None
        },
    }
}

/// Where the host of a `scheme://host[:port][/...]` URL lies: the authority
/// with any `user@` prefix and `:port` suffix removed, when non-empty.
pub open spec fn host_range(url: Seq<char>) -> Option<(int, int)> {
    match find_seq(url, seq![':', '/', '/']) {
        None => None,
        Some(i) => {
            let a = i + 3;
            let auth_end = match first_where(
                url.subrange(a, url.len() as int),
                one_of(seq!['/', '?', '#']),
            ) {
                Some(j) => a + j,
                None => url.len() as int,
            };
            let host_start = match last_where(url.subrange(a, auth_end), one_of(seq!['@'])) {
                Some(j) => a + j + 1,
                None => a,
            };
            let host_end = match first_of(url.subrange(host_start, auth_end), ':') {
                Some(j) => host_start + j,
                None => auth_end,
            };
            if host_end > host_start {
                Some((host_start, host_end))
            } else {
                None
            }
        },
    }
}

/// Where the query lies: after the first `?`, up to an optional `#`.
pub open spec fn query_range(url: Seq<char>) -> Option<(int, int)> {
    match first_of(url, '?') {
        None => None,
        Some(q) => Some(
            (
                q + 1,
                match first_of(url.subrange(q + 1, url.len() as int), '#') {
                    Some(j) => q + 1 + j,
                    None => url.len() as int,
                },
            ),
        ),
    }
}

/// Where the fragment lies: after the first `#`.
pub open spec fn fragment_range(url: Seq<char>) -> Option<(int, int)> {
    match first_of(url, '#') {
        None => None,
        Some(h) => Some((h + 1, url.len() as int)),
    }
}

/// Where the part of `url` before any query or fragment ends.
pub open spec fn path_limit(url: Seq<char>) -> int {
    let before_fragment = match first_of(url, '#') {
        Some(h) => h,
        None => url.len() as int,
    };
    match first_of(url.subrange(0, before_fragment), '?') {
        Some(q) => q,
        None => before_fragment,
    }
}

/// Where the path lies before a trailing slash is dropped: after the scheme
/// and any `//authority`, up to the query or fragment.
pub open spec fn raw_path(url: Seq<char>) -> (int, int) {
    let end = path_limit(url);
    let without_query = url.subrange(0, end);
    let after_scheme = match scheme_len(without_query) {
        Some(n) => n + 1,
        None => 0,
    };
    if occurs_at(without_query, seq!['/', '/'], after_scheme) {
        match first_of(url.subrange(after_scheme + 2, end), '/') {
            Some(j) => (after_scheme + 2 + j, end),
            None => (end, end),
        }
    } else {
        (after_scheme, end)
    }
}

/// Where the path lies: what is left once the scheme, authority, query and
/// fragment are removed, without a trailing slash unless it is the root
/// path; `None` when that is empty.
pub open spec fn path_range(url: Seq<char>) -> Option<(int, int)> {
    let (start, stop) = raw_path(url);
    if start >= stop {
        None
    } else if stop - start == 1 {
        Some((start, stop))
    } else if url[stop - 1] == '/' {
        Some((start, stop - 1))
    } else {
        Some((start, stop))
    }
}

/// What the component found at `range` of `url` is as a result.
pub open spec fn component(url: Seq<char>, range: Option<(int, int)>, r: Option<&str>) -> bool {
    match range {
        None => r is None,
        Some((a, b)) => r matches Some(x) && x@ == url.subrange(a, b),
    }
}

fn first_char(cs: &[char], lo: usize, hi: usize, c: char) -> (r: Option<usize>)
    requires
        lo <= hi <= cs@.len(),
    ensures
        r matches Some(j) ==> first_of(cs@.subrange(lo as int, hi as int), c) == Some(j - lo),
        r is None ==> first_of(cs@.subrange(lo as int, hi as int), c) is None,
        r matches Some(j) ==> lo <= j < hi && cs@[j as int] == c && forall|k: int|
            lo <= k < j ==> #[trigger] cs@[k] != c,
        r is None ==> forall|k: int| lo <= k < hi ==> #[trigger] cs@[k] != c,
{
    let targets = [c];
    assert(targets@ =~= seq![c]);
    let r = find_any(cs, lo, hi, &targets);
    proof {
        assert forall|x: char| targets@.contains(x) <==> x == c by {
            if x == c {
                assert(targets@[0] == x);
            }
        }
    }
    r
}

fn scheme_end(cs: &[char], hi: usize) -> (r: Option<usize>)
    requires
        hi <= cs@.len(),
    ensures
        r matches Some(n) ==> scheme_len(cs@.subrange(0, hi as int)) == Some(n as int) && n < hi,
        r is None ==> scheme_len(cs@.subrange(0, hi as int)) is None,
{
    let ghost s = cs@.subrange(0, hi as int);
    let colon = match first_char(cs, 0, hi, ':') {
        Some(i) => i,
        None => {
            return None;
        },
    };
    if colon == 0 {
        return None;
    }
    let mut k: usize = 0;
    while k < colon
        invariant
            colon <= hi <= cs@.len(),
            s == cs@.subrange(0, hi as int),
            first_of(s, ':') == Some(colon as int),
            colon > 0,
            k <= colon,
            forall|j: int| 0 <= j < k ==> is_scheme_char(#[trigger] s[j]),
        decreases colon - k,
    {
        let c = cs[k];
        assert(s[k as int] == c);
        if !(('a' <= c && c <= 'z') || ('A' <= c && c <= 'Z') || ('0' <= c && c <= '9') || c == '+'
            || c == '-' || c == '.') {
            assert(!is_scheme_char(s[k as int]));
            return None;
        }
        k = k + 1;
    }
    Some(colon)
}

/// Scheme: the text before the first `:`, if it is a valid scheme.
pub fn url_scheme_component(url: &str) -> (r: Option<&str>)
    ensures
        component(url@, match scheme_len(url@) {
            Some(n) => Some((0, n)),
            None => None,
        }, r),
{
    let cs = chars_of(url);
    assert(cs@.subrange(0, cs@.len() as int) =~= cs@);
    match scheme_end(cs.as_slice(), cs.len()) {
        Some(n) => Some(slice_chars(url, 0, n)),
        None => None,
    }
}

/// Host: for a `scheme://host[:port][/...]` URL, the host part of the
/// authority, with any `user@` prefix and `:port` suffix removed.
pub fn url_host_component(url: &str) -> (r: Option<&str>)
    ensures
        component(url@, host_range(url@), r),
{
    let cs = chars_of(url);
    let len = cs.len();
    let sep = [':', '/', '/'];
    assert(sep@ =~= seq![':', '/', '/']);
    let i = match find_pattern(cs.as_slice(), &sep) {
        Some(i) => i,
        None => {
            return None;
        },
    };
    proof {
        let j = choose|j: int|
            #[trigger] occurs_at(cs@, sep@, j) && forall|k: int| 0 <= k < j ==> !occurs_at(cs@, sep@, k);
    }
    let a = i + 3;
    let delims = ['/', '?', '#'];
    assert(delims@ =~= seq!['/', '?', '#']);
    let auth_end = match find_any(cs.as_slice(), a, len, &delims) {
        Some(j) => j,
        None => len,
    };
    let at = ['@'];
    assert(at@ =~= seq!['@']);
    let host_start = match rfind_any(cs.as_slice(), a, auth_end, &at) {
        Some(j) => j + 1,
        None => a,
    };
    let host_end = match first_char(cs.as_slice(), host_start, auth_end, ':') {
        Some(j) => j,
        None => auth_end,
    };
    if host_end > host_start {
        Some(slice_chars(url, host_start, host_end))
    } else {
        None
    }
}

/// Query: the text after the first `?`, up to an optional `#`.
pub fn url_query_component(url: &str) -> (r: Option<&str>)
    ensures
        component(url@, query_range(url@), r),
{
    let cs = chars_of(url);
    let len = cs.len();
    assert(cs@.subrange(0, len as int) =~= cs@);
    let q = match first_char(cs.as_slice(), 0, len, '?') {
        Some(q) => q,
        None => {
            return None;
        },
    };
    let end = match first_char(cs.as_slice(), q + 1, len, '#') {
        Some(j) => j,
        None => len,
    };
    Some(slice_chars(url, q + 1, end))
}

/// Fragment: the text after the first `#`.
pub fn url_fragment_component(url: &str) -> (r: Option<&str>)
    ensures
        component(url@, fragment_range(url@), r),
{
    let cs = chars_of(url);
    let len = cs.len();
    assert(cs@.subrange(0, len as int) =~= cs@);
    match first_char(cs.as_slice(), 0, len, '#') {
        Some(h) => Some(slice_chars(url, h + 1, len)),
        None => None,
    }
}

fn path_limit_of(cs: &[char]) -> (r: usize)
    ensures
        r == path_limit(cs@),
        r <= cs@.len(),
{
    let len = cs.len();
    assert(cs@.subrange(0, len as int) =~= cs@);
    let before_fragment = match first_char(cs, 0, len, '#') {
        Some(h) => h,
        None => len,
    };
    match first_char(cs, 0, before_fragment, '?') {
        Some(q) => q,
        None => before_fragment,
    }
}

fn raw_path_of(cs: &[char]) -> (r: (usize, usize))
    ensures
        r.0 as int == raw_path(cs@).0,
        r.1 as int == raw_path(cs@).1,
        r.0 <= r.1 <= cs@.len(),
{
    let end = path_limit_of(cs);
    let ghost without_query = cs@.subrange(0, end as int);
    let after_scheme = match scheme_end(cs, end) {
        Some(n) => n + 1,
        None => 0,
    };
    let slashes = ['/', '/'];
    assert(slashes@ =~= seq!['/', '/']);
    if after_scheme <= end && end - after_scheme >= 2 && matches_at(cs, after_scheme, &slashes) {
        assert(cs@.subrange(after_scheme as int, after_scheme + 2) =~= without_query.subrange(
            after_scheme as int,
            after_scheme + 2,
        ));
        match first_char(cs, after_scheme + 2, end, '/') {
            Some(j) => (j, end),
            None => (end, end),
        }
    } else {
        proof {
            if occurs_at(without_query, seq!['/', '/'], after_scheme as int) {
                assert(cs@.subrange(after_scheme as int, after_scheme + 2) =~= without_query.subrange(
                    after_scheme as int,
                    after_scheme + 2,
                ));
            }
        }
        (after_scheme, end)
    }
}

/// Path: what is left once the scheme, authority, query and fragment are
/// removed. A URL that is only a path is its own path. `NSURL` drops the
/// trailing slash from a non-root path, so `/levels/` and `/levels` have the
/// same path.
pub fn url_path_component(url: &str) -> (r: Option<&str>)
    ensures
        component(url@, path_range(url@), r),
{
    let cs = chars_of(url);
    let (start, stop) = raw_path_of(cs.as_slice());
    if start >= stop {
        None
    } else if stop - start == 1 {
        Some(slice_chars(url, start, stop))
    } else if cs[stop - 1] == '/' {
        Some(slice_chars(url, start, stop - 1))
    } else {
        Some(slice_chars(url, start, stop))
    }
}

/// Where the path a `file:` URL names lies, or `None` if this is not one; the
/// authority of a file URL is empty or `localhost`, and either way the path
/// is what follows it. A URL of just an authority names the root.
pub open spec fn file_path_range(url: Seq<char>) -> Option<Option<(int, int)>> {
    match scheme_len(url) {
        None => None,
        Some(n) => if !(n == 4 && (url[0] == 'f' || url[0] == 'F') && (url[1] == 'i' || url[1]
            == 'I') && (url[2] == 'l' || url[2] == 'L') && (url[3] == 'e' || url[3] == 'E')) {
            None
        } else if occurs_at(url, seq!['/', '/'], n + 1) {
            match first_of(url.subrange(n + 3, url.len() as int), '/') {
                Some(j) => Some(Some((n + 3 + j, url.len() as int))),
                None => Some(None),
            }
        } else {
            Some(Some((n + 1, url.len() as int)))
        },
    }
}

/// The filesystem path named by a `file:` URL, or `None` if this is not one.
///
/// `file:///a/b`, `file://localhost/a/b` and `file:/a/b` all name `/a/b`.
pub fn file_url_path(url: &str) -> (r: Option<&str>)
    ensures
        match file_path_range(url@) {
            None => r is None,
            Some(None) => r matches Some(x) && x@ == seq!['/'],
            Some(Some((a, b))) => r matches Some(x) && x@ == url@.subrange(a, b),
        },
{
    let cs = chars_of(url);
    let len = cs.len();
    assert(cs@.subrange(0, len as int) =~= cs@);
    let n = match scheme_end(cs.as_slice(), len) {
        Some(n) => n,
        None => {
            return None;
        },
    };
    if !(n == 4 && (cs[0] == 'f' || cs[0] == 'F') && (cs[1] == 'i' || cs[1] == 'I') && (cs[2]
        == 'l' || cs[2] == 'L') && (cs[3] == 'e' || cs[3] == 'E')) {
        return None;
    }
    let slashes = ['/', '/'];
    assert(slashes@ =~= seq!['/', '/']);
    if matches_at(cs.as_slice(), n + 1, &slashes) {
        match first_char(cs.as_slice(), n + 3, len, '/') {
            Some(j) => Some(slice_chars(url, j, len)),
            None => {
                let root = "/";
                proof {
                    reveal_strlit("/");
                }
                Some(root)
            },
        }
    } else {
        Some(slice_chars(url, n + 1, len))
    }
}

/// `relative` resolved against `base`: a root-relative URL keeps the base's
/// scheme and authority; any other is appended to the base's directory.
pub open spec fn resolved_url(base: Seq<char>, relative: Seq<char>) -> Seq<char> {
    if relative.len() > 0 && relative[0] == '/' {
        root_resolved(base, relative)
    } else {
        directory_prefix(base) + relative
    }
}

/// A root-relative URL keeps the scheme and authority of an absolute base.
pub open spec fn root_resolved(base: Seq<char>, relative: Seq<char>) -> Seq<char> {
        match find_seq(base, seq![':', '/', '/']) {
            Some(i) => {
                let end = match first_of(base.subrange(i + 3, base.len() as int), '/') {
                    Some(j) => i + 3 + j,
                    None => base.len() as int,
                };
                base.subrange(0, end) + relative
            },
            None => relative,
        }
}

/// The base URL up to and including the last `/` before any query or
/// fragment.
pub open spec fn directory_prefix(base: Seq<char>) -> Seq<char> {
        let end = match first_where(base, one_of(seq!['?', '#'])) {
            Some(j) => j,
            None => base.len() as int,
        };
        let b = base.subrange(0, end);
        let prefix = if b.len() > 0 && b.last() == '/' {
            b
        } else {
            match last_where(b, one_of(seq!['/'])) {
                Some(j) => b.subrange(0, j + 1),
                None => Seq::empty(),
            }
        };
        prefix
}

fn resolve_root_relative(base: &str, relative: &str) -> (r: String)
    ensures
        r@ == root_resolved(base@, relative@),
{
    let bs = chars_of(base);
    let len = bs.len();
    assert(bs@.subrange(0, len as int) =~= bs@);
    let sep = [':', '/', '/'];
    assert(sep@ =~= seq![':', '/', '/']);
    match find_pattern(bs.as_slice(), &sep) {
        Some(i) => {
            assert(i + 3 <= len);
            let end = match first_char(bs.as_slice(), i + 3, len, '/') {
                Some(j) => j,
                None => len,
            };
            let mut r = owned(slice_chars(base, 0, end));
            push_str(&mut r, relative);
            r
        },
        None => owned(relative),
    }
}

fn directory_prefix_of(base: &str) -> (r: &str)
    ensures
        r@ == directory_prefix(base@),
{
    let bs = chars_of(base);
    let len = bs.len();
    assert(bs@.subrange(0, len as int) =~= bs@);
    let qh = ['?', '#'];
    assert(qh@ =~= seq!['?', '#']);
    let end = match find_any(bs.as_slice(), 0, len, &qh) {
        Some(j) => j,
        None => len,
    };
    let ghost b = bs@.subrange(0, end as int);
    let cut = if end > 0 && bs[end - 1] == '/' {
        assert(b.last() == '/');
        end
    } else {
        let slash = ['/'];
        assert(slash@ =~= seq!['/']);
        assert(bs@.subrange(0, end as int) == b);
        match rfind_any(bs.as_slice(), 0, end, &slash) {
            Some(j) => {
                assert(b.subrange(0, j + 1) =~= bs@.subrange(0, j + 1));
                j + 1
            },
            None => {
                assert(bs@.subrange(0, 0) =~= Seq::<char>::empty());
                0
            },
        }
    };
    slice_chars(base, 0, cut)
}

/// Resolve the common relative-URL forms used by iPhone OS apps against an
/// absolute base URL.
pub fn resolve_relative_url(base: &str, relative: &str) -> (r: String)
    ensures
        r@ == resolved_url(base@, relative@),
{
    let rel = chars_of(relative);
    if rel.len() > 0 && rel[0] == '/' {
        resolve_root_relative(base, relative)
    } else {
        let mut r = owned(directory_prefix_of(base));
        push_str(&mut r, relative);
        r
    }
}

/// What an `NSURL` holds: a file URL's path and the working directory it
/// was made in, or any other URL's string.
#[derive(Debug)]
pub enum NSURLHostObject {
    FileURL { path: String, working_directory: String },
    OtherURL { string: String },
}

/// The path of a URL, where it has one: a file URL's own, else the path
/// component of the URL's string.
pub open spec fn url_path_of(url: NSURLHostObject) -> Option<Seq<char>> {
    match url {
        NSURLHostObject::FileURL { path, .. } => Some(path@),
        NSURLHostObject::OtherURL { string } => match path_range(string@) {
            Some((a, b)) => Some(string@.subrange(a, b)),
            None => None,
        },
    }
}

impl NSURLHostObject {
    /// `-path`: a file URL's path, or the path component of another URL;
    /// nothing for a URL such as `http://example.com` that has no path.
    pub fn path(&self) -> (r: Option<&str>)
        ensures
            r matches Some(p) ==> url_path_of(*self) == Some(p@),
            r is None ==> url_path_of(*self) is None,
    {
        match self {
            NSURLHostObject::FileURL { path, .. } => Some(path.as_str()),
            NSURLHostObject::OtherURL { string } => url_path_component(string.as_str()),
        }
    }
}

/// A view of a URL as a path, for host code. The URL must have a path.
pub fn to_rust_path(url: &NSURLHostObject) -> (r: &str)
    requires
        url_path_of(*url) is Some,
    ensures
        url_path_of(*url) == Some(r@),
{
    url.path().unwrap()
}

} // verus!
