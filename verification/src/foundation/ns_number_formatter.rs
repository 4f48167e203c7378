//! `NSNumberFormatter`'s grouping of the digits left of the decimal point.

use crate::text::{chars_of, push_char, slice_chars};
use vstd::prelude::*;
use vstd::string::*;

verus! {

broadcast use vstd::string::group_string_axioms;

/// The number of bytes UTF-8 takes for `c`.
pub open spec fn utf8_width(c: char) -> int {
    if (c as int) < 0x80 {
        1
    } else if (c as int) < 0x800 {
        2
    } else if (c as int) < 0x10000 {
        3
    } else {
        4
    }
}

/// The length in bytes of the UTF-8 encoding of `s`, which is what
/// `str::len` counts.
pub open spec fn utf8_len(s: Seq<char>) -> int
    decreases s.len(),
{
    if s.len() == 0 {
        0
    } else {
        utf8_len(s.drop_last()) + utf8_width(s.last())
    }
}

proof fn lemma_utf8_len_grows(s: Seq<char>, i: int)
    requires
        0 <= i <= s.len(),
    ensures
        utf8_len(s.take(i)) >= i,
        utf8_len(s.take(i)) <= utf8_len(s),
    decreases s.len() - i,
{
    lemma_utf8_len_at_least(s.take(i));
    if i < s.len() {
        lemma_utf8_len_grows(s, i + 1);
        assert(s.take(i + 1).drop_last() =~= s.take(i));
    } else {
        assert(s.take(i) =~= s);
    }
}

proof fn lemma_utf8_len_at_least(s: Seq<char>)
    ensures
        utf8_len(s) >= s.len(),
    decreases s.len(),
{
    if s.len() > 0 {
        lemma_utf8_len_at_least(s.drop_last());
    }
}

/// `digits` with a `,` before each character that has a multiple of three
/// bytes after it and something before it, the first `i` characters of
/// them; `bytes` is the length in bytes of all of `digits`.
pub open spec fn grouped_prefix(digits: Seq<char>, bytes: int, i: int) -> Seq<char>
    decreases i,
{
    if i <= 0 {
        Seq::empty()
    } else {
        let before = grouped_prefix(digits, bytes, i - 1);
        let c = digits[i - 1];
        if i - 1 > 0 && (bytes - (i - 1)) % 3 == 0 {
            before.push(',').push(c)
        } else {
            before.push(c)
        }
    }
}

/// `integer_part` with `,` every three digits counted from the right, and a
/// leading `-` kept outside the groups.
pub open spec fn grouped(integer_part: Seq<char>) -> Seq<char> {
    if integer_part.len() > 0 && integer_part[0] == '-' {
        let digits = integer_part.drop_first();
        seq!['-'] + grouped_prefix(digits, utf8_len(digits), digits.len() as int)
    } else {
        grouped_prefix(integer_part, utf8_len(integer_part), integer_part.len() as int)
    }
}

/// The number of bytes UTF-8 takes for `c`.
fn utf8_width_of(c: char) -> (r: u128)
    ensures
        r == utf8_width(c),
{
    let n = c as u32;
    if n < 0x80 {
        1
    } else if n < 0x800 {
        2
    } else if n < 0x10000 {
        3
    } else {
        4
    }
}

/// Insert `,` every three digits, left of the decimal point.
pub fn group(integer_part: &str) -> (r: String)
    ensures
        r@ == grouped(integer_part@),
{
    let all = chars_of(integer_part);
    let negative = all.len() > 0 && all[0] == '-';
    let digits = if negative {
        slice_chars(integer_part, 1, all.len())
    } else {
        integer_part
    };
    let cs = chars_of(digits);
    assert(negative ==> cs@ =~= integer_part@.drop_first());
    let mut bytes: u128 = 0;
    let mut k: usize = 0;
    while k < cs.len()
        invariant
            k <= cs@.len(),
            bytes == utf8_len(cs@.take(k as int)),
            bytes <= 4 * k,
        decreases cs@.len() - k,
    {
        assert(cs@.take(k + 1).drop_last() =~= cs@.take(k as int));
        bytes = bytes + utf8_width_of(cs[k]);
        k = k + 1;
    }
    assert(cs@.take(k as int) =~= cs@);
    let mut grouped_digits = String::new();
    let mut i: usize = 0;
    while i < cs.len()
        invariant
            i <= cs@.len(),
            bytes == utf8_len(cs@),
            grouped_digits@ == grouped_prefix(cs@, bytes as int, i as int),
        decreases cs@.len() - i,
    {
        proof {
            lemma_utf8_len_grows(cs@, i as int);
            lemma_utf8_len_at_least(cs@);
        }
        if i > 0 && (bytes - i as u128) % 3 == 0 {
            push_char(&mut grouped_digits, ',');
        }
        push_char(&mut grouped_digits, cs[i]);
        i = i + 1;
    }
    if negative {
        let r = "-".to_owned().concat(grouped_digits.as_str());
        proof {
            reveal_strlit("-");
        }
        r
    } else {
        grouped_digits
    }
}

/// Whether `d` is ASCII decimal digits alone.
pub open spec fn ascii_digits(d: Seq<char>) -> bool {
    forall|k: int| 0 <= k < d.len() ==> '0' <= #[trigger] d[k] <= '9'
}

proof fn lemma_utf8_len_of_digits(d: Seq<char>)
    requires
        ascii_digits(d),
    ensures
        utf8_len(d) == d.len(),
    decreases d.len(),
{
    if d.len() > 0 {
        assert(ascii_digits(d.drop_last())) by {
            assert forall|k: int| 0 <= k < d.drop_last().len() implies '0' <= #[trigger] d.drop_last()[k]
                <= '9' by {
                assert(d.drop_last()[k] == d[k]);
            }
        }
        lemma_utf8_len_of_digits(d.drop_last());
        assert('0' <= d[d.len() - 1] <= '9');
    }
}

/// With no group boundary in reach, the first `i` characters come out as
/// they are.
proof fn lemma_short_prefix(d: Seq<char>, n: int, i: int)
    requires
        n <= 3,
        0 <= i <= d.len(),
        i <= n,
    ensures
        grouped_prefix(d, n, i) == d.take(i),
    decreases i,
{
    if i > 0 {
        lemma_short_prefix(d, n, i - 1);
        assert(d.take(i - 1).push(d[i - 1]) =~= d.take(i));
        if i - 1 > 0 {
            assert(1 <= n - (i - 1) <= 2);
        }
    }
}

/// Before the last three characters, grouping a string is grouping the
/// string without them.
proof fn lemma_prefix_without_last_group(d: Seq<char>, n: int, i: int)
    requires
        n == d.len(),
        n >= 3,
        0 <= i <= n - 3,
    ensures
        grouped_prefix(d, n, i) == grouped_prefix(d.take(n - 3), n - 3, i),
    decreases i,
{
    if i > 0 {
        lemma_prefix_without_last_group(d, n, i - 1);
        assert((n - (i - 1)) % 3 == (n - 3 - (i - 1)) % 3);
        assert(d.take(n - 3)[i - 1] == d[i - 1]);
    }
}

/// Grouping digits puts a `,` before each run of three counted from the
/// right: up to three digits come out as they are, and more are the
/// grouping of all but the last three, a `,`, and the last three.
pub proof fn lemma_groups_of_three(d: Seq<char>)
    requires
        ascii_digits(d),
    ensures
        d.len() <= 3 ==> grouped(d) == d,
        d.len() > 3 ==> grouped(d) == grouped(d.take(d.len() - 3)) + seq![','] + d.skip(
            d.len() - 3,
        ),
{
    let n = d.len() as int;
    lemma_utf8_len_of_digits(d);
    if n > 0 {
        assert('0' <= d[0] <= '9');
    }
    if n <= 3 {
        lemma_short_prefix(d, n, n);
        assert(d.take(n) =~= d);
    } else {
        let e = d.take(n - 3);
        assert(ascii_digits(e)) by {
            assert forall|k: int| 0 <= k < e.len() implies '0' <= #[trigger] e[k] <= '9' by {
                assert(e[k] == d[k]);
            }
        }
        lemma_utf8_len_of_digits(e);
        assert('0' <= e[0] <= '9');
        lemma_prefix_without_last_group(d, n, n - 3);
        let g = grouped_prefix(d, n, n - 3);
        assert((n - (n - 3)) % 3 == 0);
        assert(grouped_prefix(d, n, n - 2) == g.push(',').push(d[n - 3]));
        assert((n - (n - 2)) % 3 != 0);
        assert(grouped_prefix(d, n, n - 1) == g.push(',').push(d[n - 3]).push(d[n - 2]));
        assert((n - (n - 1)) % 3 != 0);
        assert(grouped_prefix(d, n, n) == g.push(',').push(d[n - 3]).push(d[n - 2]).push(d[n - 1]));
        assert(g.push(',').push(d[n - 3]).push(d[n - 2]).push(d[n - 1]) =~= g + seq![','] + d.skip(
            n - 3,
        ));
    }
}

/// A leading `-` stays outside the groups: grouping `-` and digits is `-`
/// and the grouping of the digits, so no `,` ever follows the sign.
pub proof fn lemma_sign_outside_groups(d: Seq<char>)
    requires
        d.len() == 0 || d[0] != '-',
    ensures
        grouped(seq!['-'] + d) == seq!['-'] + grouped(d),
        d.len() > 0 && d[0] != ',' ==> grouped(seq!['-'] + d)[1] == d[0],
{
    let s = seq!['-'] + d;
    assert(s[0] == '-');
    assert(s.drop_first() =~= d);
    if d.len() > 0 {
        lemma_first_kept(d, utf8_len(d), d.len() as int);
    }
}

/// The first character of a grouping is the first of what is grouped.
proof fn lemma_first_kept(d: Seq<char>, bytes: int, i: int)
    requires
        1 <= i <= d.len(),
    ensures
        grouped_prefix(d, bytes, i).len() >= 1,
        grouped_prefix(d, bytes, i)[0] == d[0],
    decreases i,
{
    let before = grouped_prefix(d, bytes, i - 1);
    if i > 1 {
        lemma_first_kept(d, bytes, i - 1);
        assert(before.push(',')[0] == d[0]);
        assert(before.push(',').push(d[i - 1])[0] == d[0]);
        assert(before.push(d[i - 1])[0] == d[0]);
    } else {
        assert(before.len() == 0);
        assert(before.push(d[0])[0] == d[0]);
    }
}

} // verus!
