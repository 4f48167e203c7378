//! Character-level helpers for the string logic of the library.

use vstd::prelude::*;
use vstd::string::*;

verus! {

broadcast use vstd::string::group_string_axioms;

/// The predicate "is one of `targets`".
pub open spec fn one_of(targets: Seq<char>) -> spec_fn(char) -> bool {
    |x: char| targets.contains(x)
}

/// `i` is the first position of `s` whose character satisfies `p`.
pub open spec fn is_first_where(s: Seq<char>, p: spec_fn(char) -> bool, i: int) -> bool {
    &&& 0 <= i < s.len()
    &&& p(s[i])
    &&& forall|k: int| 0 <= k < i ==> !p(#[trigger] s[k])
}

/// `i` is the last position of `s` whose character satisfies `p`.
pub open spec fn is_last_where(s: Seq<char>, p: spec_fn(char) -> bool, i: int) -> bool {
    &&& 0 <= i < s.len()
    &&& p(s[i])
    &&& forall|k: int| i < k < s.len() ==> !p(#[trigger] s[k])
}

/// The first position of `s` whose character satisfies `p`.
pub open spec fn first_where(s: Seq<char>, p: spec_fn(char) -> bool) -> Option<int> {
    if exists|i: int| 0 <= i < s.len() && p(#[trigger] s[i]) {
        Some(choose|i: int| is_first_where(s, p, i))
    } else {
        None
    }
}

/// The last position of `s` whose character satisfies `p`.
pub open spec fn last_where(s: Seq<char>, p: spec_fn(char) -> bool) -> Option<int> {
    if exists|i: int| 0 <= i < s.len() && p(#[trigger] s[i]) {
        Some(choose|i: int| is_last_where(s, p, i))
    } else {
        None
    }
}

/// The first position of `c` in `s`.
pub open spec fn first_of(s: Seq<char>, c: char) -> Option<int> {
    first_where(s, one_of(seq![c]))
}

/// Whether `pat` occurs in `s` at position `i`.
pub open spec fn occurs_at(s: Seq<char>, pat: Seq<char>, i: int) -> bool {
    0 <= i && i + pat.len() <= s.len() && s.subrange(i, i + pat.len()) == pat
}

/// The first position where `pat` occurs in `s`.
pub open spec fn find_seq(s: Seq<char>, pat: Seq<char>) -> Option<int> {
    if exists|i: int| #[trigger] occurs_at(s, pat, i) {
        Some(
            choose|i: int| #[trigger] occurs_at(s, pat, i) && forall|k: int| 0 <= k < i ==> !occurs_at(s, pat, k),
        )
    } else {
        None
    }
}

pub proof fn lemma_first_where(s: Seq<char>, p: spec_fn(char) -> bool, i: int)
    requires
        is_first_where(s, p, i),
    ensures
        first_where(s, p) == Some(i),
{
    assert(p(s[i]));
    let j = choose|j: int| is_first_where(s, p, j);
    assert(is_first_where(s, p, j));
    if j < i {
        assert(!p(s[j]));
    }
    if i < j {
        assert(!p(s[i]));
    }
}

pub proof fn lemma_first_where_none(s: Seq<char>, p: spec_fn(char) -> bool)
    requires
        forall|k: int| 0 <= k < s.len() ==> !p(#[trigger] s[k]),
    ensures
        first_where(s, p) is None,
{
}

pub proof fn lemma_last_where(s: Seq<char>, p: spec_fn(char) -> bool, i: int)
    requires
        is_last_where(s, p, i),
    ensures
        last_where(s, p) == Some(i),
{
    assert(p(s[i]));
    let j = choose|j: int| is_last_where(s, p, j);
    assert(is_last_where(s, p, j));
    if j < i {
        assert(!p(s[i]));
    }
    if i < j {
        assert(!p(s[j]));
    }
}

proof fn lemma_least_exists(s: Seq<char>, p: spec_fn(char) -> bool, m: int)
    requires
        0 <= m < s.len(),
        p(s[m]),
    ensures
        exists|i: int| is_first_where(s, p, i),
    decreases m,
{
    if exists|k: int| 0 <= k < m && p(#[trigger] s[k]) {
        let k = choose|k: int| 0 <= k < m && p(#[trigger] s[k]);
        lemma_least_exists(s, p, k);
    } else {
        assert(is_first_where(s, p, m));
    }
}

pub proof fn lemma_first_where_some(s: Seq<char>, p: spec_fn(char) -> bool)
    requires
        first_where(s, p) is Some,
    ensures
        is_first_where(s, p, first_where(s, p).unwrap()),
{
    let i = choose|i: int| 0 <= i < s.len() && p(#[trigger] s[i]);
    lemma_least_exists(s, p, i);
}

pub proof fn lemma_find_seq(s: Seq<char>, pat: Seq<char>, i: int)
    requires
        occurs_at(s, pat, i),
        forall|k: int| 0 <= k < i ==> !occurs_at(s, pat, k),
    ensures
        find_seq(s, pat) == Some(i),
{
    let j = choose|j: int|
        #[trigger] occurs_at(s, pat, j) && forall|k: int| 0 <= k < j ==> !occurs_at(s, pat, k);
    if j < i {
        assert(!occurs_at(s, pat, j));
    }
    if i < j {
        assert(!occurs_at(s, pat, i));
    }
}

/// The characters of `s`.
pub fn chars_of(s: &str) -> (r: Vec<char>)
    ensures
        r@ == s@,
{
    let mut r: Vec<char> = Vec::new();
    for c in it: s.chars()
        invariant
            r@ == it.seq().take(it.index() as int),
    {
        r.push(c);
    }
    r
}

/// The characters `s[from..to]`, as a slice of `s`.
pub fn slice_chars<'a>(s: &'a str, from: usize, to: usize) -> (r: &'a str)
    requires
        from <= to <= s@.len(),
    ensures
        r@ == s@.subrange(from as int, to as int),
{
    s.substring_char(from, to)
}

/// Append `c` to `s`: `String::push`.
/// The contract claims that the string afterwards is the one before with `c`
/// at the end, as std documents.
#[verifier::external_body]
pub(crate) fn push_char(s: &mut String, c: char)
    ensures
        final(s)@ == old(s)@.push(c),
{
    s.push(c);
}

/// A `String` of the characters `cs`.
pub fn string_of(cs: &[char]) -> (r: String)
    ensures
        r@ == cs@,
{
    let mut r = String::new();
    let mut i: usize = 0;
    while i < cs.len()
        invariant
            i <= cs@.len(),
            r@ == cs@.subrange(0, i as int),
        decreases cs@.len() - i,
    {
        push_char(&mut r, cs[i]);
        i = i + 1;
        assert(r@ =~= cs@.subrange(0, i as int));
    }
    assert(cs@.subrange(0, i as int) =~= cs@);
    r
}

/// A `String` holding the characters of `s`.
pub fn owned(s: &str) -> (r: String)
    ensures
        r@ == s@,
{
    s.to_owned()
}

/// Append the characters of `t` to `s`.
pub fn push_str(s: &mut String, t: &str)
    ensures
        final(s)@ == old(s)@ + t@,
{
    s.append(t);
}

/// Whether `c` is one of `targets`.
pub fn is_one_of(c: char, targets: &[char]) -> (r: bool)
    ensures
        r == targets@.contains(c),
{
    let mut i: usize = 0;
    while i < targets.len()
        invariant
            i <= targets@.len(),
            forall|k: int| 0 <= k < i ==> targets@[k] != c,
        decreases targets@.len() - i,
    {
        if targets[i] == c {
            assert(targets@[i as int] == c);
            return true;
        }
        i = i + 1;
    }
    false
}

/// The first position in `s[lo..hi]` holding one of `targets`, counted from
/// the start of `s`.
pub fn find_any(s: &[char], lo: usize, hi: usize, targets: &[char]) -> (r: Option<usize>)
    requires
        lo <= hi <= s@.len(),
    ensures
        r matches Some(j) ==> first_where(s@.subrange(lo as int, hi as int), one_of(targets@))
            == Some(j - lo),
        r is None ==> first_where(s@.subrange(lo as int, hi as int), one_of(targets@)) is None,
        r matches Some(j) ==> lo <= j < hi && targets@.contains(s@[j as int]) && forall|k: int|
            lo <= k < j ==> !targets@.contains(#[trigger] s@[k]),
        r is None ==> forall|k: int| lo <= k < hi ==> !targets@.contains(#[trigger] s@[k]),
{
    let ghost sub = s@.subrange(lo as int, hi as int);
    let mut i = lo;
    while i < hi
        invariant
            lo <= i <= hi <= s@.len(),
            sub == s@.subrange(lo as int, hi as int),
            forall|k: int| 0 <= k < i - lo ==> !one_of(targets@)(#[trigger] sub[k]),
            forall|k: int| lo <= k < i ==> !targets@.contains(#[trigger] s@[k]),
        decreases hi - i,
    {
        if is_one_of(s[i], targets) {
            proof {
                assert(sub[i - lo] == s@[i as int]);
                lemma_first_where(sub, one_of(targets@), i - lo);
            }
            return Some(i);
        }
        assert(sub[i - lo] == s@[i as int]);
        i = i + 1;
    }
    proof {
        lemma_first_where_none(sub, one_of(targets@));
    }
    None
}

/// The last position in `s[lo..hi]` holding one of `targets`, counted from
/// the start of `s`.
pub fn rfind_any(s: &[char], lo: usize, hi: usize, targets: &[char]) -> (r: Option<usize>)
    requires
        lo <= hi <= s@.len(),
    ensures
        r matches Some(j) ==> last_where(s@.subrange(lo as int, hi as int), one_of(targets@))
            == Some(j - lo),
        r is None ==> last_where(s@.subrange(lo as int, hi as int), one_of(targets@)) is None,
        r matches Some(j) ==> lo <= j < hi && targets@.contains(s@[j as int]) && forall|k: int|
            j < k < hi ==> !targets@.contains(#[trigger] s@[k]),
        r is None ==> forall|k: int| lo <= k < hi ==> !targets@.contains(#[trigger] s@[k]),
{
    let ghost sub = s@.subrange(lo as int, hi as int);
    let mut i = hi;
    while i > lo
        invariant
            lo <= i <= hi <= s@.len(),
            sub == s@.subrange(lo as int, hi as int),
            forall|k: int| i - lo <= k < hi - lo ==> !one_of(targets@)(#[trigger] sub[k]),
            forall|k: int| i <= k < hi ==> !targets@.contains(#[trigger] s@[k]),
        decreases i - lo,
    {
        if is_one_of(s[i - 1], targets) {
            proof {
                assert(sub[i - 1 - lo] == s@[i - 1]);
                lemma_last_where(sub, one_of(targets@), i - 1 - lo);
            }
            return Some(i - 1);
        }
        assert(sub[i - 1 - lo] == s@[i - 1]);
        i = i - 1;
    }
    None
}

/// Whether `pat` occurs in `s` at `at`.
pub fn matches_at(s: &[char], at: usize, pat: &[char]) -> (r: bool)
    ensures
        r == occurs_at(s@, pat@, at as int),
{
    if at > s.len() || pat.len() > s.len() - at {
        return false;
    }
    let mut k: usize = 0;
    while k < pat.len()
        invariant
            at + pat@.len() <= s.len(),
            k <= pat@.len(),
            forall|j: int| 0 <= j < k ==> s@[at + j] == pat@[j],
        decreases pat@.len() - k,
    {
        if s[at + k] != pat[k] {
            assert(s@.subrange(at as int, at + pat@.len())[k as int] != pat@[k as int]);
            return false;
        }
        k = k + 1;
    }
    assert(s@.subrange(at as int, at + pat@.len()) =~= pat@);
    true
}

/// The first position at which `pat` occurs in `s`.
pub fn find_pattern(s: &[char], pat: &[char]) -> (r: Option<usize>)
    ensures
        r matches Some(i) ==> find_seq(s@, pat@) == Some(i as int),
        r is None ==> find_seq(s@, pat@) is None,
        r matches Some(i) ==> occurs_at(s@, pat@, i as int) && forall|k: int|
            0 <= k < i ==> !#[trigger] occurs_at(s@, pat@, k),
{
    let mut i: usize = 0;
    while i < s.len()
        invariant
            i <= s@.len(),
            forall|k: int| 0 <= k < i ==> !#[trigger] occurs_at(s@, pat@, k),
        decreases s@.len() - i,
    {
        if matches_at(s, i, pat) {
            proof {
                lemma_find_seq(s@, pat@, i as int);
            }
            return Some(i);
        }
        i = i + 1;
    }
    if matches_at(s, i, pat) {
        proof {
            lemma_find_seq(s@, pat@, i as int);
        }
        return Some(i);
    }
    proof {
        assert forall|k: int| !#[trigger] occurs_at(s@, pat@, k) by {
            if k > i {
                assert(!(k + pat@.len() <= s@.len()));
            }
        }
    }
    None
}

/// Whether two strings hold the same characters.
pub fn str_eq(a: &str, b: &str) -> (r: bool)
    ensures
        r == (a@ == b@),
{
    let x = a.to_owned();
    let y = b.to_owned();
    x == y
}

/// The pieces of `s[start..]` that `str::split` yields for separator `sep`,
/// scanning from position `i`.
pub open spec fn split_from(s: Seq<char>, sep: char, start: int, i: int) -> Seq<Seq<char>>
    decreases s.len() - i,
{
    if i < 0 || i >= s.len() {
        seq![s.subrange(start, s.len() as int)]
    } else if s[i] == sep {
        seq![s.subrange(start, i)] + split_from(s, sep, i + 1, i + 1)
    } else {
        split_from(s, sep, start, i + 1)
    }
}

/// The pieces of `s` between occurrences of `sep`, in order, as
/// `str::split` yields them: there is always at least one, and an empty piece
/// stands wherever two separators meet or one ends or starts `s`.
pub open spec fn split_on(s: Seq<char>, sep: char) -> Seq<Seq<char>> {
    split_from(s, sep, 0, 0)
}

proof fn lemma_split_from_nonempty(s: Seq<char>, sep: char, start: int, i: int)
    ensures
        split_from(s, sep, start, i).len() >= 1,
    decreases s.len() - i,
{
    if !(i < 0 || i >= s.len()) && s[i] != sep {
        lemma_split_from_nonempty(s, sep, start, i + 1);
    }
}

/// `str::split` yields at least one piece.
pub proof fn lemma_split_nonempty(s: Seq<char>, sep: char)
    ensures
        split_on(s, sep).len() >= 1,
{
    lemma_split_from_nonempty(s, sep, 0, 0);
}

/// The character sequences of a sequence of strings.
pub open spec fn str_views(v: Seq<&str>) -> Seq<Seq<char>> {
    v.map_values(|x: &str| x@)
}

/// The pieces of `s` between occurrences of `sep`, as slices of `s`.
pub fn split_str<'a>(s: &'a str, sep: char) -> (r: Vec<&'a str>)
    ensures
        str_views(r@) == split_on(s@, sep),
{
    let cs = chars_of(s);
    let mut r: Vec<&'a str> = Vec::new();
    let mut start: usize = 0;
    let mut i: usize = 0;
    while i < cs.len()
        invariant
            cs@ == s@,
            start <= i <= cs@.len(),
            str_views(r@) + split_from(s@, sep, start as int, i as int) == split_on(s@, sep),
        decreases cs@.len() - i,
    {
        if cs[i] == sep {
            let piece = slice_chars(s, start, i);
            let ghost before = str_views(r@);
            r.push(piece);
            assert(str_views(r@) =~= before.push(piece@));
            assert(split_from(s@, sep, start as int, i as int) == seq![piece@] + split_from(
                s@,
                sep,
                i + 1,
                i + 1,
            ));
            assert(before + (seq![piece@] + split_from(s@, sep, i + 1, i + 1)) =~= before.push(
                piece@,
            ) + split_from(s@, sep, i + 1, i + 1));
            start = i + 1;
        }
        i = i + 1;
    }
    let piece = slice_chars(s, start, cs.len());
    let ghost before = str_views(r@);
    r.push(piece);
    assert(str_views(r@) =~= before.push(piece@));
    assert(before + seq![piece@] =~= before.push(piece@));
    r
}

/// `s` ends with `suffix`.
pub open spec fn has_suffix(s: Seq<char>, suffix: Seq<char>) -> bool {
    suffix.len() <= s.len() && s.subrange(s.len() - suffix.len(), s.len() as int) == suffix
}

/// `s` with every trailing repetition of `suffix` removed, as
/// `str::trim_end_matches` leaves it.
pub open spec fn trim_suffix_all(s: Seq<char>, suffix: Seq<char>) -> Seq<char>
    decreases s.len(),
{
    if suffix.len() > 0 && has_suffix(s, suffix) {
        trim_suffix_all(s.subrange(0, s.len() - suffix.len()), suffix)
    } else {
        s
    }
}

/// Whether `s` ends with `suffix`.
pub fn ends_with(s: &str, suffix: &str) -> (r: bool)
    ensures
        r == has_suffix(s@, suffix@),
{
    let cs = chars_of(s);
    let ps = chars_of(suffix);
    if ps.len() > cs.len() {
        return false;
    }
    let off = cs.len() - ps.len();
    let r = matches_at(cs.as_slice(), off, ps.as_slice());
    proof {
        if r {
            assert(cs@.subrange(off as int, off + ps@.len()) =~= ps@);
        } else {
            assert(!(s@.subrange(s@.len() - suffix@.len(), s@.len() as int) == suffix@));
        }
    }
    r
}

/// `s` with every trailing repetition of `suffix` removed.
pub fn trim_end_matches<'a>(s: &'a str, suffix: &str) -> (r: &'a str)
    ensures
        r@ == trim_suffix_all(s@, suffix@),
{
    let cs = chars_of(s);
    let ps = chars_of(suffix);
    let mut end: usize = cs.len();
    if ps.len() == 0 {
        return s;
    }
    assert(s@.subrange(0, end as int) =~= s@);
    while ps.len() <= end && matches_at(cs.as_slice(), end - ps.len(), ps.as_slice())
        invariant
            cs@ == s@,
            ps@ == suffix@,
            ps@.len() > 0,
            end <= cs@.len(),
            trim_suffix_all(s@, suffix@) == trim_suffix_all(s@.subrange(0, end as int), suffix@),
        decreases end,
    {
        let ghost pre = s@.subrange(0, end as int);
        assert(pre.subrange(pre.len() - suffix@.len(), pre.len() as int) =~= suffix@);
        assert(pre.subrange(0, pre.len() - suffix@.len()) =~= s@.subrange(
            0,
            end - ps@.len(),
        ));
        end = end - ps.len();
    }
    proof {
        let pre = s@.subrange(0, end as int);
        if has_suffix(pre, suffix@) {
            assert(cs@.subrange((end - ps@.len()) as int, end as int) =~= pre.subrange(
                pre.len() - suffix@.len(),
                pre.len() as int,
            ));
        }
    }
    slice_chars(s, 0, end)
}

/// Whether `c` is an ASCII decimal digit.
pub open spec fn is_digit(c: char) -> bool {
    '0' <= c <= '9'
}

/// The number that the decimal digits `d` write.
pub open spec fn digits_value(d: Seq<char>) -> int
    decreases d.len(),
{
    if d.len() == 0 {
        0
    } else {
        digits_value(d.drop_last()) * 10 + (d.last() as int - '0' as int)
    }
}

/// The digits of `s`, after the one `+` that may lead them.
pub open spec fn unsigned_digits(s: Seq<char>) -> Seq<char> {
    if s.len() > 0 && s[0] == '+' {
        s.drop_first()
    } else {
        s
    }
}

/// What `str::parse::<u64>` gives for `s`: an optional `+`, then one or more
/// ASCII digits whose value fits in 64 bits.
pub open spec fn parsed_u64(s: Seq<char>) -> Option<u64> {
    let d = unsigned_digits(s);
    if d.len() > 0 && (forall|i: int| 0 <= i < d.len() ==> is_digit(#[trigger] d[i]))
        && digits_value(d) <= u64::MAX {
        Some(digits_value(d) as u64)
    } else {
        None
    }
}

proof fn lemma_digits_value_grows(d: Seq<char>, i: int, j: int)
    requires
        0 <= i <= j <= d.len(),
        forall|k: int| 0 <= k < d.len() ==> is_digit(#[trigger] d[k]),
    ensures
        0 <= digits_value(d.take(i)) <= digits_value(d.take(j)),
    decreases j - i,
{
    if i < j {
        lemma_digits_value_grows(d, i, j - 1);
        assert(d.take(j).drop_last() =~= d.take(j - 1));
        assert(d.take(j).last() == d[j - 1]);
    } else {
        lemma_digits_value_nonneg(d.take(i));
    }
}

proof fn lemma_digits_value_nonneg(d: Seq<char>)
    requires
        forall|k: int| 0 <= k < d.len() ==> is_digit(#[trigger] d[k]),
    ensures
        digits_value(d) >= 0,
    decreases d.len(),
{
    if d.len() > 0 {
        assert forall|k: int| 0 <= k < d.drop_last().len() implies is_digit(
            #[trigger] d.drop_last()[k],
        ) by {
            assert(d.drop_last()[k] == d[k]);
        }
        lemma_digits_value_nonneg(d.drop_last());
    }
}

/// The unsigned number `s` writes in decimal, as `str::parse::<u64>` reads it.
pub fn parse_u64(s: &str) -> (r: Option<u64>)
    ensures
        r == parsed_u64(s@),
{
    let cs = chars_of(s);
    let start: usize = if cs.len() > 0 && cs[0] == '+' {
        1
    } else {
        0
    };
    let ghost d = unsigned_digits(s@);
    assert(d =~= cs@.subrange(start as int, cs@.len() as int));
    if start >= cs.len() {
        return None;
    }
    let mut value: u64 = 0;
    let mut i: usize = start;
    while i < cs.len()
        invariant
            cs@ == s@,
            d == cs@.subrange(start as int, cs@.len() as int),
            d == unsigned_digits(s@),
            start <= i <= cs@.len(),
            forall|k: int| 0 <= k < i - start ==> is_digit(#[trigger] d[k]),
            value == digits_value(d.take(i - start)),
        decreases cs@.len() - i,
    {
        let c = cs[i];
        if !('0' <= c && c <= '9') {
            assert(d[i - start] == c);
            assert(!is_digit(d[i - start]));
            return None;
        }
        let digit = (c as u32 - '0' as u32) as u64;
        assert(d[i - start] == c);
        assert(d.take(i - start + 1).drop_last() =~= d.take(i - start));
        assert(d.take(i - start + 1).last() == c);
        assert(digits_value(d.take(i - start + 1)) == value * 10 + digit);
        let next = match value.checked_mul(10) {
            Some(v) => v.checked_add(digit),
            None => None,
        };
        match next {
            Some(v) => {
                value = v;
            },
            None => {
                proof {
                    let n = d.len() as int;
                    assert(digits_value(d.take(i - start + 1)) > u64::MAX);
                    if forall|k: int| 0 <= k < n ==> is_digit(#[trigger] d[k]) {
                        lemma_digits_value_grows(d, i - start + 1, n);
                        assert(d.take(n) =~= d);
                    }
                }
                return None;
            },
        }
        i = i + 1;
    }
    assert(d.take(i - start) =~= d);
    Some(value)
}

/// The first position at or after `j` where `pat` occurs in `s`.
pub open spec fn occurrence_from(s: Seq<char>, pat: Seq<char>, j: int) -> Option<int>
    decreases s.len() + 1 - j,
{
    if j < 0 || j > s.len() {
        None
    } else if occurs_at(s, pat, j) {
        Some(j)
    } else {
        occurrence_from(s, pat, j + 1)
    }
}

pub proof fn lemma_occurrence_from(s: Seq<char>, pat: Seq<char>, j: int)
    requires
        0 <= j,
    ensures
        occurrence_from(s, pat, j) matches Some(k) ==> j <= k && occurs_at(s, pat, k),
        occurrence_from(s, pat, j) matches Some(k) ==> k + pat.len() <= s.len(),
    decreases s.len() + 1 - j,
{
    if j <= s.len() && !occurs_at(s, pat, j) {
        lemma_occurrence_from(s, pat, j + 1);
    }
}

/// The first position at or after `j` where `pat` occurs in `s`.
pub fn find_from(s: &[char], pat: &[char], j: usize) -> (r: Option<usize>)
    ensures
        r matches Some(k) ==> occurrence_from(s@, pat@, j as int) == Some(k as int) && j <= k
            && k + pat@.len() <= s@.len(),
        r is None ==> occurrence_from(s@, pat@, j as int) is None,
{
    if j > s.len() {
        return None;
    }
    let mut i = j;
    while i < s.len()
        invariant
            j <= i <= s@.len(),
            occurrence_from(s@, pat@, j as int) == occurrence_from(s@, pat@, i as int),
        decreases s@.len() - i,
    {
        if matches_at(s, i, pat) {
            return Some(i);
        }
        i = i + 1;
    }
    if matches_at(s, i, pat) {
        return Some(i);
    }
    assert(occurrence_from(s@, pat@, i + 1) is None);
    None
}

/// Whether `c` is white space as `char::is_whitespace` counts it: the
/// characters with the Unicode `White_Space` property.
pub open spec fn is_white_space(c: char) -> bool {
    ||| '\u{9}' <= c <= '\u{d}'
    ||| c == ' '
    ||| c == '\u{85}'
    ||| c == '\u{a0}'
    ||| c == '\u{1680}'
    ||| '\u{2000}' <= c <= '\u{200a}'
    ||| c == '\u{2028}'
    ||| c == '\u{2029}'
    ||| c == '\u{202f}'
    ||| c == '\u{205f}'
    ||| c == '\u{3000}'
}

/// Whether `c` is white space.
pub fn white_space(c: char) -> (r: bool)
    ensures
        r == is_white_space(c),
{
    ('\u{9}' <= c && c <= '\u{d}') || c == ' ' || c == '\u{85}' || c == '\u{a0}' || c
        == '\u{1680}' || ('\u{2000}' <= c && c <= '\u{200a}') || c == '\u{2028}' || c
        == '\u{2029}' || c == '\u{202f}' || c == '\u{205f}' || c == '\u{3000}'
}

/// The number of white space characters that start `s`.
pub open spec fn leading_space(s: Seq<char>) -> int
    decreases s.len(),
{
    if s.len() > 0 && is_white_space(s[0]) {
        1 + leading_space(s.drop_first())
    } else {
        0
    }
}

/// The number of white space characters that end `s`.
pub open spec fn trailing_space(s: Seq<char>) -> int
    decreases s.len(),
{
    if s.len() > 0 && is_white_space(s.last()) {
        1 + trailing_space(s.drop_last())
    } else {
        0
    }
}

/// `s` without the white space at its start and its end, as `str::trim`
/// leaves it.
pub open spec fn trimmed(s: Seq<char>) -> Seq<char> {
    let t = s.subrange(leading_space(s), s.len() as int);
    t.subrange(0, t.len() - trailing_space(t))
}

proof fn lemma_leading_space(s: Seq<char>, i: int)
    requires
        0 <= i <= s.len(),
        forall|k: int| 0 <= k < i ==> is_white_space(#[trigger] s[k]),
        i == s.len() || !is_white_space(s[i]),
    ensures
        leading_space(s) == i,
    decreases i,
{
    if i > 0 {
        assert forall|k: int| 0 <= k < i - 1 implies is_white_space(#[trigger] s.drop_first()[k]) by {
            assert(s.drop_first()[k] == s[k + 1]);
        }
        if i < s.len() {
            assert(s.drop_first()[i - 1] == s[i]);
        }
        lemma_leading_space(s.drop_first(), i - 1);
    }
}

proof fn lemma_trailing_space(s: Seq<char>, i: int)
    requires
        0 <= i <= s.len(),
        forall|k: int| s.len() - i <= k < s.len() ==> is_white_space(#[trigger] s[k]),
        i == s.len() || !is_white_space(s[s.len() - i - 1]),
    ensures
        trailing_space(s) == i,
    decreases i,
{
    if i > 0 {
        assert forall|k: int|
            s.drop_last().len() - (i - 1) <= k < s.drop_last().len() implies is_white_space(
            #[trigger] s.drop_last()[k],
        ) by {
            assert(s.drop_last()[k] == s[k]);
        }
        if i < s.len() {
            assert(s.drop_last()[s.drop_last().len() - (i - 1) - 1] == s[s.len() - i - 1]);
        }
        lemma_trailing_space(s.drop_last(), i - 1);
    }
}

/// `s` without white space at its start and end.
pub fn trim<'a>(s: &'a str) -> (r: &'a str)
    ensures
        r@ == trimmed(s@),
{
    let cs = chars_of(s);
    let mut lo: usize = 0;
    while lo < cs.len() && white_space(cs[lo])
        invariant
            cs@ == s@,
            lo <= cs@.len(),
            forall|k: int| 0 <= k < lo ==> is_white_space(#[trigger] cs@[k]),
        decreases cs@.len() - lo,
    {
        lo = lo + 1;
    }
    proof {
        lemma_leading_space(s@, lo as int);
    }
    let mut hi: usize = cs.len();
    while hi > lo && white_space(cs[hi - 1])
        invariant
            cs@ == s@,
            lo <= hi <= cs@.len(),
            forall|k: int| hi <= k < cs@.len() ==> is_white_space(#[trigger] cs@[k]),
        decreases hi,
    {
        hi = hi - 1;
    }
    proof {
        let t = s@.subrange(lo as int, s@.len() as int);
        assert forall|k: int| t.len() - (cs@.len() - hi) <= k < t.len() implies is_white_space(
            #[trigger] t[k],
        ) by {
            assert(t[k] == cs@[k + lo]);
        }
        if hi > lo {
            assert(t[t.len() - (cs@.len() - hi) - 1] == cs@[hi - 1]);
        }
        lemma_trailing_space(t, cs@.len() - hi);
        assert(t.subrange(0, t.len() - trailing_space(t)) =~= s@.subrange(lo as int, hi as int));
    }
    slice_chars(s, lo, hi)
}

/// The decimal digits of `n`, as `{}` formats it.
pub open spec fn decimal(n: nat) -> Seq<char>
    decreases n,
{
    if n < 10 {
        seq![(n + '0' as nat) as char]
    } else {
        decimal(n / 10).push(((n % 10) + '0' as nat) as char)
    }
}

/// `n` in decimal.
pub fn decimal_string(n: u64) -> (r: String)
    ensures
        r@ == decimal(n as nat),
    decreases n,
{
    let digit = char_of_digit((n % 10) as u32);
    if n < 10 {
        let mut r = String::new();
        push_char(&mut r, digit);
        assert(r@ =~= decimal(n as nat));
        r
    } else {
        let mut r = decimal_string(n / 10);
        push_char(&mut r, digit);
        r
    }
}

/// The character of the decimal digit `d`.
fn char_of_digit(d: u32) -> (c: char)
    requires
        d < 10,
    ensures
        c == ((d + '0' as nat) as char),
{
    if d == 0 {
        '0'
    } else if d == 1 {
        '1'
    } else if d == 2 {
        '2'
    } else if d == 3 {
        '3'
    } else if d == 4 {
        '4'
    } else if d == 5 {
        '5'
    } else if d == 6 {
        '6'
    } else if d == 7 {
        '7'
    } else if d == 8 {
        '8'
    } else {
        '9'
    }
}

/// A line that a line feed ended, without the carriage return before that.
pub open spec fn without_cr(line: Seq<char>) -> Seq<char> {
    if line.len() > 0 && line.last() == '\r' {
        line.drop_last()
    } else {
        line
    }
}

/// The lines of `text` as `str::lines` yields them: the pieces that a line
/// feed ends, without a carriage return just before it, then what follows
/// the last line feed unless that is empty.
pub open spec fn lines_of(text: Seq<char>) -> Seq<Seq<char>> {
    let pieces = split_on(text, '\n');
    let ended = pieces.drop_last().map_values(|line: Seq<char>| without_cr(line));
    if pieces.last().len() == 0 {
        ended
    } else {
        ended.push(pieces.last())
    }
}

/// The lines of `text`.
pub fn lines<'a>(text: &'a str) -> (r: Vec<&'a str>)
    ensures
        str_views(r@) == lines_of(text@),
{
    let pieces = split_str(text, '\n');
    proof {
        lemma_split_nonempty(text@, '\n');
    }
    let ghost ps = str_views(pieces@);
    let ended = pieces.len() - 1;
    let mut r: Vec<&'a str> = Vec::new();
    let mut i: usize = 0;
    while i < ended
        invariant
            ended == pieces@.len() - 1,
            ps == str_views(pieces@),
            i <= ended,
            str_views(r@) == ps.take(i as int).map_values(|line: Seq<char>| without_cr(line)),
        decreases ended - i,
    {
        let piece = pieces[i];
        let cs = chars_of(piece);
        assert(ps[i as int] == piece@);
        let line = if cs.len() > 0 && cs[cs.len() - 1] == '\r' {
            slice_chars(piece, 0, cs.len() - 1)
        } else {
            piece
        };
        let ghost before = str_views(r@);
        r.push(line);
        assert(line@ == without_cr(piece@)) by {
            if piece@.len() > 0 && piece@.last() == '\r' {
                assert(line@ =~= piece@.drop_last());
            }
        }
        assert(str_views(r@) =~= before.push(line@));
        i = i + 1;
        assert(str_views(r@) =~= ps.take(i as int).map_values(|line: Seq<char>| without_cr(line)));
    }
    assert(ps.take(i as int) =~= ps.drop_last());
    let last = pieces[ended];
    assert(ps[ended as int] == last@);
    if !last.is_empty() {
        let ghost before = str_views(r@);
        r.push(last);
        assert(str_views(r@) =~= before.push(last@));
    }
    r
}

/// The character of the hexadecimal digit `d`, in lower case.
pub open spec fn hex_digit(d: nat) -> char {
    if d < 10 {
        (d + '0' as nat) as char
    } else {
        (d - 10 + 'a' as nat) as char
    }
}

/// The lower-case hexadecimal digits of `n`, as `{:x}` formats it.
pub open spec fn hex(n: nat) -> Seq<char>
    decreases n,
{
    if n < 16 {
        seq![hex_digit(n)]
    } else {
        hex(n / 16).push(hex_digit(n % 16))
    }
}

/// The value of a lower-case hexadecimal digit.
pub open spec fn hex_digit_value(c: char) -> int {
    if '0' <= c <= '9' {
        c as int - '0' as int
    } else {
        c as int - 'a' as int + 10
    }
}

/// The number the hexadecimal digits `d` write.
pub open spec fn hex_value(d: Seq<char>) -> int
    decreases d.len(),
{
    if d.len() == 0 {
        0
    } else {
        hex_value(d.drop_last()) * 16 + hex_digit_value(d.last())
    }
}

proof fn lemma_hex_digit(d: nat)
    requires
        d < 16,
    ensures
        hex_digit_value(hex_digit(d)) == d,
{
    if d < 10 {
        assert((d + '0' as nat) as char as int == d + '0' as int);
    } else {
        assert((d - 10 + 'a' as nat) as char as int == d - 10 + 'a' as int);
    }
}

/// The hexadecimal digits of `n` write `n`.
pub proof fn lemma_hex_value(n: nat)
    ensures
        hex_value(hex(n)) == n,
    decreases n,
{
    lemma_hex_digit(n % 16);
    if n >= 16 {
        lemma_hex_value(n / 16);
        assert(hex(n).drop_last() =~= hex(n / 16));
        assert(hex(n).last() == hex_digit(n % 16));
        assert(hex_value(hex(n)) == hex_value(hex(n).drop_last()) * 16 + hex_digit_value(
            hex(n).last(),
        ));
        assert(hex_value(hex(n)) == hex_value(hex(n / 16)) * 16 + (n % 16));
        assert((n / 16) * 16 + n % 16 == n);
    } else {
        assert(hex(n).drop_last() =~= Seq::<char>::empty());
        assert(hex(n).last() == hex_digit(n));
        assert(n % 16 == n);
        assert(hex_value(hex(n)) == hex_value(hex(n).drop_last()) * 16 + hex_digit_value(
            hex(n).last(),
        ));
    }
}

/// Different numbers have different hexadecimal digits.
pub proof fn lemma_hex_injective(a: nat, b: nat)
    requires
        a != b,
    ensures
        hex(a) != hex(b),
{
    lemma_hex_value(a);
    lemma_hex_value(b);
}

/// The character of the hexadecimal digit `d`.
fn char_of_hex_digit(d: u32) -> (c: char)
    requires
        d < 16,
    ensures
        c == hex_digit(d as nat),
{
    if d < 10 {
        char_of_digit(d)
    } else if d == 10 {
        'a'
    } else if d == 11 {
        'b'
    } else if d == 12 {
        'c'
    } else if d == 13 {
        'd'
    } else if d == 14 {
        'e'
    } else {
        'f'
    }
}

/// `n` in lower-case hexadecimal.
pub fn hex_string(n: u128) -> (r: String)
    ensures
        r@ == hex(n as nat),
    decreases n,
{
    let digit = char_of_hex_digit((n % 16) as u32);
    if n < 16 {
        let mut r = String::new();
        push_char(&mut r, digit);
        assert(r@ =~= hex(n as nat));
        r
    } else {
        let mut r = hex_string(n / 16);
        push_char(&mut r, digit);
        r
    }
}

/// What `str::parse::<i64>` gives for `s`: an optional sign, then one or
/// more ASCII digits whose value, with the sign, fits in 64 bits.
pub open spec fn parsed_i64(s: Seq<char>) -> Option<i64> {
    if s.len() > 0 && s[0] == '-' {
        let d = s.drop_first();
        if d.len() > 0 && (forall|i: int| 0 <= i < d.len() ==> is_digit(#[trigger] d[i]))
            && digits_value(d) <= 0x8000_0000_0000_0000 {
            Some((-digits_value(d)) as i64)
        } else {
            None
        }
    } else {
        match parsed_u64(s) {
            Some(v) => if v <= i64::MAX {
                Some(v as i64)
            } else {
                None
            },
            None => None,
        }
    }
}

/// The signed number `s` writes in decimal, as `str::parse::<i64>` reads
/// it.
pub fn parse_i64(s: &str) -> (r: Option<i64>)
    ensures
        r == parsed_i64(s@),
{
    let cs = chars_of(s);
    if cs.len() > 0 && cs[0] == '-' {
        let rest = slice_chars(s, 1, cs.len());
        let rc = chars_of(rest);
        assert(rest@ =~= s@.drop_first());
        if rc.len() > 0 && rc[0] == '+' {
            assert(!is_digit(rest@[0]));
            return None;
        }
        assert(unsigned_digits(rest@) == rest@);
        let ghost d = s@.drop_first();
        match parse_u64(rest) {
            Some(v) => {
                proof {
                    lemma_digits_value_nonneg(d);
                }
                assert(v == digits_value(d));
                if v <= 0x8000_0000_0000_0000 {
                if v == 0x8000_0000_0000_0000 {
                    assert(parsed_i64(s@) == Some(i64::MIN));
                    Some(i64::MIN)
                } else {
                    let r = -(v as i64);
                    assert(r == -digits_value(d));
                    assert(parsed_i64(s@) == Some(r));
                    Some(r)
                }
            } else {
                None
            }
            },
            None => {
                proof {
                    if d.len() > 0 && (forall|i: int| 0 <= i < d.len() ==> is_digit(#[trigger] d[i])) {
                        assert(digits_value(d) > u64::MAX);
                    }
                }
                None
            },
        }
    } else {
        match parse_u64(s) {
            Some(v) => if v <= i64::MAX as u64 {
                Some(v as i64)
            } else {
                None
            },
            None => None,
        }
    }
}

/// `v` in decimal, with a `-` before a negative number, as `{}` formats
/// it.
pub open spec fn signed_decimal(v: int) -> Seq<char> {
    if v < 0 {
        seq!['-'] + decimal((-v) as nat)
    } else {
        decimal(v as nat)
    }
}

/// `v` in decimal.
pub fn signed_decimal_string(v: i64) -> (r: String)
    ensures
        r@ == signed_decimal(v as int),
{
    if v < 0 {
        let magnitude: u64 = if v == i64::MIN {
            0x8000_0000_0000_0000
        } else {
            (-v) as u64
        };
        let mut r = String::new();
        push_char(&mut r, '-');
        r.append(decimal_string(magnitude).as_str());
        assert(r@ =~= seq!['-'] + decimal((-v) as nat));
        r
    } else {
        decimal_string(v as u64)
    }
}

} // verus!
