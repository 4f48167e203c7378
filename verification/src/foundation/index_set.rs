//! The set behind `NSIndexSet` and `NSMutableIndexSet`.
//!
//! A set of unsigned integers, stored as sorted, disjoint, non-adjacent ranges
//! rather than as individual indexes. That is how Apple's is built too, and
//! here it is a correctness requirement: an index set over a whole collection
//! must not store a million separate integers.

use vstd::prelude::*;
use vstd::set_lib::{lemma_int_range, set_int_range};

verus! {

/// `NSUInteger` on the 32-bit devices being emulated.
pub type NSUInteger = u32;

/// `NSNotFound`, as the unsigned value a caller compares against.
pub const NS_NOT_FOUND: NSUInteger = 0x7fff_ffff;

/// Whether `x` lies in the range `(location, length)`.
pub open spec fn in_range(r: (NSUInteger, NSUInteger), x: int) -> bool {
    r.0 <= x < r.0 + r.1
}

/// The indexes a list of ranges covers.
pub open spec fn ranges_set(rs: Seq<(NSUInteger, NSUInteger)>) -> Set<int> {
    Set::new(|x: int| exists|i: int| 0 <= i < rs.len() && #[trigger] in_range(rs[i], x))
}

/// The ranges are non-empty, end inside the 32-bit range, and are sorted,
/// disjoint and never adjacent: two ranges that touch are always one.
pub open spec fn canonical(rs: Seq<(NSUInteger, NSUInteger)>) -> bool {
    &&& forall|i: int| 0 <= i < rs.len() ==> 0 < (#[trigger] rs[i]).1 && rs[i].0 + rs[i].1 <= u32::MAX
    &&& forall|i: int, j: int|
        0 <= i < j < rs.len() ==> #[trigger] rs[i].0 + rs[i].1 < #[trigger] rs[j].0
}

/// The total length of a list of ranges.
pub open spec fn ranges_total(rs: Seq<(NSUInteger, NSUInteger)>) -> int
    decreases rs.len(),
{
    if rs.len() == 0 {
        0
    } else {
        ranges_total(rs.drop_last()) + rs.last().1
    }
}

proof fn lemma_set_push(rs: Seq<(NSUInteger, NSUInteger)>, r: (NSUInteger, NSUInteger))
    ensures
        ranges_set(rs.push(r)) =~= ranges_set(rs).union(set_int_range(r.0 as int, r.0 + r.1)),
{
    let s = rs.push(r);
    assert forall|x: int| ranges_set(s).contains(x) <==> ranges_set(rs).union(
        set_int_range(r.0 as int, r.0 + r.1),
    ).contains(x) by {
        if ranges_set(rs).contains(x) {
            let i = choose|i: int| 0 <= i < rs.len() && #[trigger] in_range(rs[i], x);
            assert(in_range(s[i], x));
        }
        if in_range(r, x) {
            assert(in_range(s[rs.len() as int], x));
        }
        if ranges_set(s).contains(x) {
            let i = choose|i: int| 0 <= i < s.len() && #[trigger] in_range(s[i], x);
            if i < rs.len() {
                assert(in_range(rs[i], x));
            }
        }
    }
}

proof fn lemma_set_split(rs: Seq<(NSUInteger, NSUInteger)>, k: int)
    requires
        0 <= k < rs.len(),
    ensures
        ranges_set(rs.subrange(k, rs.len() as int)) =~= set_int_range(
            rs[k].0 as int,
            rs[k].0 + rs[k].1,
        ).union(ranges_set(rs.subrange(k + 1, rs.len() as int))),
{
    let a = rs.subrange(k, rs.len() as int);
    let b = rs.subrange(k + 1, rs.len() as int);
    assert forall|x: int| ranges_set(a).contains(x) <==> set_int_range(
        rs[k].0 as int,
        rs[k].0 + rs[k].1,
    ).union(ranges_set(b)).contains(x) by {
        if ranges_set(a).contains(x) {
            let i = choose|i: int| 0 <= i < a.len() && #[trigger] in_range(a[i], x);
            if i > 0 {
                assert(in_range(b[i - 1], x));
            }
        }
        if ranges_set(b).contains(x) {
            let i = choose|i: int| 0 <= i < b.len() && #[trigger] in_range(b[i], x);
            assert(in_range(a[i + 1], x));
        }
        if in_range(rs[k], x) {
            assert(in_range(a[0], x));
        }
    }
}

proof fn lemma_set_empty(rs: Seq<(NSUInteger, NSUInteger)>)
    requires
        rs.len() == 0,
    ensures
        ranges_set(rs) =~= Set::<int>::empty(),
{
}

/// The size of the set canonical ranges cover is their total length.
proof fn lemma_set_len(rs: Seq<(NSUInteger, NSUInteger)>)
    requires
        canonical(rs),
    ensures
        ranges_set(rs).finite(),
        ranges_set(rs).len() == ranges_total(rs),
    decreases rs.len(),
{
    if rs.len() == 0 {
        lemma_set_empty(rs);
    } else {
        let init = rs.drop_last();
        let r = rs.last();
        assert(canonical(init)) by {
            assert forall|i: int, j: int| 0 <= i < j < init.len() implies #[trigger] init[i].0
                + init[i].1 < #[trigger] init[j].0 by {
                assert(rs[i].0 + rs[i].1 < rs[j].0);
            }
        }
        lemma_set_len(init);
        assert(init.push(r) =~= rs);
        lemma_set_push(init, r);
        lemma_int_range(r.0 as int, r.0 + r.1);
        assert(ranges_set(init).disjoint(set_int_range(r.0 as int, r.0 + r.1))) by {
            assert forall|x: int| ranges_set(init).contains(x) implies !set_int_range(
                r.0 as int,
                r.0 + r.1,
            ).contains(x) by {
                let i = choose|i: int| 0 <= i < init.len() && #[trigger] in_range(init[i], x);
                assert(rs[i].0 + rs[i].1 < rs[rs.len() - 1].0);
            }
        }
        vstd::set_lib::lemma_set_disjoint_lens(
            ranges_set(init),
            set_int_range(r.0 as int, r.0 + r.1),
        );
    }
}

proof fn lemma_drop_first(rs: Seq<(NSUInteger, NSUInteger)>)
    requires
        canonical(rs),
        rs.len() > 0,
    ensures
        canonical(rs.drop_first()),
        ranges_set(rs.drop_first()) =~= ranges_set(rs).difference(
            set_int_range(rs[0].0 as int, rs[0].0 + rs[0].1),
        ),
{
    let t = rs.drop_first();
    assert forall|i: int, j: int| 0 <= i < j < t.len() implies #[trigger] t[i].0 + t[i].1
        < #[trigger] t[j].0 by {
        assert(rs[i + 1].0 + rs[i + 1].1 < rs[j + 1].0);
    }
    assert forall|x: int| ranges_set(t).contains(x) <==> ranges_set(rs).difference(
        set_int_range(rs[0].0 as int, rs[0].0 + rs[0].1),
    ).contains(x) by {
        if ranges_set(t).contains(x) {
            let i = choose|i: int| 0 <= i < t.len() && #[trigger] in_range(t[i], x);
            assert(in_range(rs[i + 1], x));
            assert(rs[0].0 + rs[0].1 < rs[i + 1].0);
        }
        if ranges_set(rs).contains(x) && !in_range(rs[0], x) {
            let i = choose|i: int| 0 <= i < rs.len() && #[trigger] in_range(rs[i], x);
            assert(i != 0);
            assert(in_range(t[i - 1], x));
        }
    }
}

/// Canonical ranges are determined by the set they cover: two canonical lists
/// that cover the same indexes are the same list.
pub proof fn lemma_canonical_unique(a: Seq<(NSUInteger, NSUInteger)>, b: Seq<(NSUInteger, NSUInteger)>)
    requires
        canonical(a),
        canonical(b),
        ranges_set(a) == ranges_set(b),
    ensures
        a == b,
    decreases a.len(),
{
    if a.len() == 0 || b.len() == 0 {
        if a.len() > 0 {
            assert(ranges_set(a).contains(a[0].0 as int)) by {
                assert(in_range(a[0], a[0].0 as int));
            }
        }
        if b.len() > 0 {
            assert(ranges_set(b).contains(b[0].0 as int)) by {
                assert(in_range(b[0], b[0].0 as int));
            }
        }
        assert(a =~= b);
    } else {
        // The first ranges start at the least index.
        assert forall|s: Seq<(NSUInteger, NSUInteger)>, x: int|
            canonical(s) && s.len() > 0 && #[trigger] ranges_set(s).contains(x) implies s[0].0
            <= x by {
            let i = choose|i: int| 0 <= i < s.len() && #[trigger] in_range(s[i], x);
            if i > 0 {
                assert(s[0].0 + s[0].1 < s[i].0);
            }
        }
        assert(in_range(a[0], a[0].0 as int));
        assert(in_range(b[0], b[0].0 as int));
        assert(ranges_set(b).contains(a[0].0 as int));
        assert(ranges_set(a).contains(b[0].0 as int));
        assert(a[0].0 == b[0].0);
        // The first ranges end at the first index missing after that.
        let ea = a[0].0 + a[0].1;
        let eb = b[0].0 + b[0].1;
        assert forall|s: Seq<(NSUInteger, NSUInteger)>|
            canonical(s) && s.len() > 0 implies !(#[trigger] ranges_set(s)).contains(
            s[0].0 + s[0].1,
        ) by {
            if ranges_set(s).contains(s[0].0 + s[0].1) {
                let i = choose|i: int|
                    0 <= i < s.len() && #[trigger] in_range(s[i], s[0].0 + s[0].1);
                if i > 0 {
                    assert(s[0].0 + s[0].1 < s[i].0);
                }
            }
        }
        if ea < eb {
            assert(in_range(b[0], ea));
            assert(ranges_set(b).contains(ea));
        }
        if eb < ea {
            assert(in_range(a[0], eb));
            assert(ranges_set(a).contains(eb));
        }
        assert(a[0] == b[0]);
        lemma_drop_first(a);
        lemma_drop_first(b);
        lemma_canonical_unique(a.drop_first(), b.drop_first());
        assert(a =~= seq![a[0]] + a.drop_first());
        assert(b =~= seq![b[0]] + b.drop_first());
    }
}

/// Whether `y` occurs in `s` at a position from `from` on.
pub open spec fn occurs_from(s: Seq<NSUInteger>, from: int, y: int) -> bool {
    exists|i: int| from <= i < s.len() && s[i] == y
}

/// The indexes as sorted, disjoint, non-adjacent ranges.
#[derive(Clone, Debug)]
pub struct IndexSet {
    ranges: Vec<(NSUInteger, NSUInteger)>,
}

impl View for IndexSet {
    type V = Set<int>;

    closed spec fn view(&self) -> Set<int> {
        ranges_set(self.ranges@)
    }
}

impl IndexSet {
    /// The ranges, sorted by location, as `(location, length)`.
    pub closed spec fn range_list(&self) -> Seq<(NSUInteger, NSUInteger)> {
        self.ranges@
    }

    /// The canonical form that every operation keeps.
    pub closed spec fn wf(&self) -> bool {
        canonical(self.ranges@)
    }

    pub proof fn lemma_view(&self)
        ensures
            self@ == ranges_set(self.range_list()),
    {
    }

    /// An empty set.
    pub fn new() -> (s: IndexSet)
        ensures
            s.wf(),
            s@ == Set::<int>::empty(),
            s.range_list() == Seq::<(NSUInteger, NSUInteger)>::empty(),
    {
        let s = IndexSet { ranges: Vec::new() };
        assert(s@ =~= Set::<int>::empty());
        s
    }

    /// The ranges, sorted by location, as `(location, length)`.
    pub fn ranges(&self) -> (r: Vec<(NSUInteger, NSUInteger)>)
        ensures
            r@ == self.range_list(),
    {
        let mut r: Vec<(NSUInteger, NSUInteger)> = Vec::new();
        let mut i: usize = 0;
        while i < self.ranges.len()
            invariant
                i <= self.ranges@.len(),
                r@ == self.ranges@.subrange(0, i as int),
            decreases self.ranges@.len() - i,
        {
            r.push(self.ranges[i]);
            i = i + 1;
            assert(r@ =~= self.ranges@.subrange(0, i as int));
        }
        assert(self.ranges@.subrange(0, i as int) =~= self.ranges@);
        r
    }

    /// The number of indexes in the set.
    pub fn count(&self) -> (n: NSUInteger)
        requires
            self.wf(),
        ensures
            n == self@.len(),
            self@.finite(),
    {
        let mut n: u64 = 0;
        let mut i: usize = 0;
        while i < self.ranges.len()
            invariant
                self.wf(),
                i <= self.ranges@.len(),
                n == ranges_total(self.ranges@.subrange(0, i as int)),
                n <= (if i == 0 { 0 } else { self.ranges@[i - 1].0 + self.ranges@[i - 1].1 }),
            decreases self.ranges@.len() - i,
        {
            let (loc, len) = self.ranges[i];
            proof {
                assert(self.ranges@.subrange(0, i + 1).drop_last() =~= self.ranges@.subrange(
                    0,
                    i as int,
                ));
                if i > 0 {
                    assert(self.ranges@[i - 1].0 + self.ranges@[i - 1].1 < self.ranges@[i as int].0);
                }
            }
            n = n + len as u64;
            i = i + 1;
        }
        proof {
            assert(self.ranges@.subrange(0, self.ranges@.len() as int) =~= self.ranges@);
            lemma_set_len(self.ranges@);
        }
        n as u32
    }

    /// Whether `index` is in the set.
    pub fn contains(&self, index: NSUInteger) -> (r: bool)
        ensures
            r == self@.contains(index as int),
    {
        let mut i: usize = 0;
        while i < self.ranges.len()
            invariant
                i <= self.ranges@.len(),
                forall|k: int| 0 <= k < i ==> !in_range(#[trigger] self.ranges@[k], index as int),
            decreases self.ranges@.len() - i,
        {
            let (loc, len) = self.ranges[i];
            if index >= loc && index - loc < len {
                assert(in_range(self.ranges@[i as int], index as int));
                return true;
            }
            i = i + 1;
        }
        false
    }

    /// The lowest index, if any.
    pub fn first(&self) -> (r: Option<NSUInteger>)
        requires
            self.wf(),
        ensures
            r is None <==> self@ == Set::<int>::empty(),
            r matches Some(x) ==> self@.contains(x as int) && forall|y: int|
                #[trigger] self@.contains(y) ==> x <= y,
    {
        if self.ranges.len() == 0 {
            assert(self@ =~= Set::<int>::empty());
            None
        } else {
            let loc = self.ranges[0].0;
            proof {
                assert(in_range(self.ranges@[0], loc as int));
                assert(self@.contains(loc as int));
                assert(self@ != Set::<int>::empty()) by {
                    assert(!Set::<int>::empty().contains(loc as int));
                }
                assert forall|y: int| #[trigger] self@.contains(y) implies loc <= y by {
                    let i = choose|i: int|
                        0 <= i < self.ranges@.len() && #[trigger] in_range(self.ranges@[i], y);
                    if i > 0 {
                        assert(self.ranges@[0].0 + self.ranges@[0].1 < self.ranges@[i].0);
                    }
                }
            }
            Some(loc)
        }
    }

    /// The highest index, if any.
    pub fn last(&self) -> (r: Option<NSUInteger>)
        requires
            self.wf(),
        ensures
            r is None <==> self@ == Set::<int>::empty(),
            r matches Some(x) ==> self@.contains(x as int) && forall|y: int|
                #[trigger] self@.contains(y) ==> y <= x,
    {
        let n = self.ranges.len();
        if n == 0 {
            assert(self@ =~= Set::<int>::empty());
            None
        } else {
            let (loc, len) = self.ranges[n - 1];
            proof {
                assert(in_range(self.ranges@[n - 1], loc + len - 1));
                assert(self@.contains(loc + len - 1));
                assert(self@ != Set::<int>::empty()) by {
                    assert(!Set::<int>::empty().contains(loc + len - 1));
                }
                assert forall|y: int| #[trigger] self@.contains(y) implies y <= loc + len - 1 by {
                    let i = choose|i: int|
                        0 <= i < self.ranges@.len() && #[trigger] in_range(self.ranges@[i], y);
                    if i < n - 1 {
                        assert(self.ranges@[i].0 + self.ranges@[i].1 < self.ranges@[n - 1].0);
                    }
                }
            }
            Some(loc + len - 1)
        }
    }

    /// Add the range `(location, length)`, merging it with anything it
    /// touches or overlaps. An empty range adds nothing, as Apple's does.
    pub fn add_range(&mut self, location: NSUInteger, length: NSUInteger)
        requires
            old(self).wf(),
            location + length <= u32::MAX,
        ensures
            final(self).wf(),
            final(self)@ == old(self)@.union(set_int_range(location as int, location + length)),
    {
        if length == 0 {
            assert(set_int_range(location as int, location + length) =~= Set::<int>::empty());
            assert(self@.union(Set::<int>::empty()) =~= self@);
            return;
        }
        let ghost rs = self.ranges@;
        let ghost n = rs.len() as int;
        let ghost added = set_int_range(location as int, location + length);
        let mut start = location;
        let mut end = location + length;  // exclusive
        let mut merged: Vec<(NSUInteger, NSUInteger)> = Vec::new();
        let mut inserted = false;
        let mut k: usize = 0;
        proof {
            assert(rs.subrange(0, n) =~= rs);
        }
        while k < self.ranges.len()
            invariant
                self.ranges@ == rs,
                n == rs.len(),
                canonical(rs),
                k <= n,
                canonical(merged@),
                start < end <= u32::MAX,
                // Every kept range is one of those already passed.
                !inserted ==> forall|i: int|
                    0 <= i < merged@.len() ==> exists|j: int|
                        0 <= j < k && #[trigger] merged@[i] == #[trigger] rs[j],
                !inserted ==> forall|i: int|
                    0 <= i < merged@.len() ==> (#[trigger] merged@[i]).0 + merged@[i].1 < start,
                !inserted ==> k > 0 ==> end >= rs[k - 1].0 + rs[k - 1].1 || exists|i: int|
                    0 <= i < merged@.len() && #[trigger] merged@[i] == rs[k - 1],
                inserted ==> forall|j: int| k <= j < n ==> end < (#[trigger] rs[j]).0,
                inserted ==> merged@.len() > 0 && forall|j: int|
                    k <= j < n ==> merged@.last().0 + merged@.last().1 < (#[trigger] rs[j]).0,
                !inserted ==> ranges_set(merged@).union(set_int_range(start as int, end as int)).union(
                    ranges_set(rs.subrange(k as int, n)),
                ) == ranges_set(rs).union(added),
                inserted ==> ranges_set(merged@).union(ranges_set(rs.subrange(k as int, n)))
                    == ranges_set(rs).union(added),
            decreases n - k,
        {
            let (loc, len) = self.ranges[k];
            let r_start = loc;
            let r_end = loc + len;
            let ghost cur = set_int_range(r_start as int, r_end as int);
            proof {
                lemma_set_split(rs, k as int);
            }
            if r_end < start {
                // Entirely before, and not adjacent.
                let ghost before = merged@;
                merged.push((loc, len));
                proof {
                    lemma_set_push(before, (loc, len));
                    assert forall|i: int, j: int|
                        0 <= i < j < merged@.len() implies #[trigger] merged@[i].0 + merged@[i].1
                        < #[trigger] merged@[j].0 by {
                        if j == merged@.len() - 1 {
                            let jj = choose|jj: int|
                                0 <= jj < k && #[trigger] before[i] == #[trigger] rs[jj];
                            assert(rs[jj].0 + rs[jj].1 < rs[k as int].0);
                        }
                    }
                    assert forall|i: int| 0 <= i < merged@.len() implies exists|j: int|
                        0 <= j < k + 1 && #[trigger] merged@[i] == #[trigger] rs[j] by {
                        if i == merged@.len() - 1 {
                            assert(merged@[i] == rs[k as int]);
                        } else {
                            assert(merged@[i] == before[i]);
                        }
                    }
                    assert(ranges_set(merged@).union(set_int_range(start as int, end as int)).union(
                        ranges_set(rs.subrange(k + 1, n)),
                    ) =~= ranges_set(before).union(set_int_range(start as int, end as int)).union(
                        ranges_set(rs.subrange(k as int, n)),
                    ));
                }
            } else if r_start > end {
                // Entirely after: the new range's final position is known.
                if !inserted {
                    let ghost before = merged@;
                    merged.push((start, end - start));
                    inserted = true;
                    proof {
                        lemma_set_push(before, (start, (end - start) as u32));
                        assert forall|i: int, j: int|
                            0 <= i < j < merged@.len() implies #[trigger] merged@[i].0
                            + merged@[i].1 < #[trigger] merged@[j].0 by {
                            if j == merged@.len() - 1 {
                                assert(merged@[i] == before[i]);
                            }
                        }
                        assert forall|j: int| k <= j < n implies merged@.last().0
                            + merged@.last().1 < (#[trigger] rs[j]).0 by {
                            if j > k {
                                assert(rs[k as int].0 + rs[k as int].1 < rs[j].0);
                            }
                        }
                        assert forall|i: int| 0 <= i < merged@.len() - 1 implies exists|j: int|
                            0 <= j < k && #[trigger] merged@[i] == #[trigger] rs[j] by {
                            assert(merged@[i] == before[i]);
                        }
                        assert(ranges_set(merged@).union(ranges_set(rs.subrange(k as int, n)))
                            =~= ranges_set(before).union(set_int_range(start as int, end as int)).union(
                            ranges_set(rs.subrange(k as int, n)),
                        ));
                    }
                }
                let ghost before = merged@;
                merged.push((loc, len));
                proof {
                    lemma_set_push(before, (loc, len));
                    assert forall|i: int, j: int|
                        0 <= i < j < merged@.len() implies #[trigger] merged@[i].0 + merged@[i].1
                        < #[trigger] merged@[j].0 by {
                        if j == merged@.len() - 1 && i < before.len() - 1 {
                            assert(before[i].0 + before[i].1 < before.last().0);
                        }
                    }
                    assert forall|j: int| k + 1 <= j < n implies merged@.last().0
                        + merged@.last().1 < (#[trigger] rs[j]).0 by {
                        assert(rs[k as int].0 + rs[k as int].1 < rs[j].0);
                    }
                    assert(ranges_set(merged@).union(ranges_set(rs.subrange(k + 1, n)))
                        =~= ranges_set(before).union(ranges_set(rs.subrange(k as int, n))));
                }
            } else {
                // Touching or overlapping: absorb it.
                assert(!inserted);
                let ghost old_start = start;
                let ghost old_end = end;
                if r_start < start {
                    start = r_start;
                }
                if r_end > end {
                    end = r_end;
                }
                proof {
                    assert(set_int_range(start as int, end as int) =~= set_int_range(
                        old_start as int,
                        old_end as int,
                    ).union(cur));
                    assert forall|i: int| 0 <= i < merged@.len() implies (#[trigger] merged@[i]).0
                        + merged@[i].1 < start by {
                        let jj = choose|jj: int|
                            0 <= jj < k && #[trigger] merged@[i] == #[trigger] rs[jj];
                        assert(rs[jj].0 + rs[jj].1 < rs[k as int].0);
                    }
                    assert forall|i: int| 0 <= i < merged@.len() implies exists|j: int|
                        0 <= j < k + 1 && #[trigger] merged@[i] == #[trigger] rs[j] by {
                        let jj = choose|jj: int|
                            0 <= jj < k && #[trigger] merged@[i] == #[trigger] rs[jj];
                    }
                    assert(ranges_set(merged@).union(set_int_range(start as int, end as int)).union(
                        ranges_set(rs.subrange(k + 1, n)),
                    ) =~= ranges_set(merged@).union(
                        set_int_range(old_start as int, old_end as int),
                    ).union(ranges_set(rs.subrange(k as int, n))));
                }
            }
            k = k + 1;
        }
        proof {
            assert(rs.subrange(n, n) =~= Seq::<(NSUInteger, NSUInteger)>::empty());
            lemma_set_empty(rs.subrange(n, n));
        }
        if !inserted {
            let ghost before = merged@;
            merged.push((start, end - start));
            proof {
                lemma_set_push(before, (start, (end - start) as u32));
                assert forall|i: int, j: int|
                    0 <= i < j < merged@.len() implies #[trigger] merged@[i].0 + merged@[i].1
                    < #[trigger] merged@[j].0 by {
                    if j == merged@.len() - 1 {
                        assert(merged@[i] == before[i]);
                    }
                }
            }
        }
        self.ranges = merged;
        proof {
            assert(self@ =~= ranges_set(rs).union(added));
        }
    }

    /// Remove the range `(location, length)`, splitting whatever it cuts
    /// through.
    pub fn remove_range(&mut self, location: NSUInteger, length: NSUInteger)
        requires
            old(self).wf(),
            location + length <= u32::MAX,
        ensures
            final(self).wf(),
            final(self)@ == old(self)@.difference(set_int_range(location as int, location + length)),
    {
        if length == 0 {
            assert(set_int_range(location as int, location + length) =~= Set::<int>::empty());
            assert(self@.difference(Set::<int>::empty()) =~= self@);
            return;
        }
        let ghost rs = self.ranges@;
        let ghost n = rs.len() as int;
        let ghost removed = set_int_range(location as int, location + length);
        let start = location;
        let end = location + length;  // exclusive
        let mut kept: Vec<(NSUInteger, NSUInteger)> = Vec::new();
        let mut k: usize = 0;
        proof {
            lemma_set_empty(kept@);
            lemma_set_empty(rs.subrange(0, 0));
            assert(rs.subrange(0, n) =~= rs);
        }
        while k < self.ranges.len()
            invariant
                self.ranges@ == rs,
                n == rs.len(),
                canonical(rs),
                k <= n,
                canonical(kept@),
                start < end <= u32::MAX,
                removed == set_int_range(start as int, end as int),
                forall|i: int, j: int|
                    0 <= i < kept@.len() && k <= j < n ==> #[trigger] kept@[i].0 + kept@[i].1
                        < #[trigger] rs[j].0,
                ranges_set(kept@) == ranges_set(rs.subrange(0, k as int)).difference(removed),
            decreases n - k,
        {
            let (loc, len) = self.ranges[k];
            let r_start = loc;
            let r_end = loc + len;
            let ghost before = kept@;
            proof {
                assert(rs.subrange(0, k + 1) =~= rs.subrange(0, k as int).push(rs[k as int]));
                lemma_set_push(rs.subrange(0, k as int), rs[k as int]);
            }
            if r_end <= start || r_start >= end {
                kept.push((loc, len));
                proof {
                    lemma_set_push(before, (loc, len));
                    assert(ranges_set(kept@) =~= ranges_set(rs.subrange(0, k + 1)).difference(
                        removed,
                    ));
                }
            } else {
                if r_start < start {
                    kept.push((r_start, start - r_start));
                    proof {
                        lemma_set_push(before, (r_start, (start - r_start) as u32));
                    }
                }
                let ghost middle = kept@;
                if r_end > end {
                    kept.push((end, r_end - end));
                    proof {
                        lemma_set_push(middle, (end, (r_end - end) as u32));
                    }
                }
                proof {
                    assert(ranges_set(kept@) =~= ranges_set(rs.subrange(0, k + 1)).difference(
                        removed,
                    ));
                }
            }
            proof {
                assert forall|i: int, j: int|
                    0 <= i < j < kept@.len() implies #[trigger] kept@[i].0 + kept@[i].1
                    < #[trigger] kept@[j].0 by {
                    if j >= before.len() && i < before.len() {
                        assert(before[i].0 + before[i].1 < rs[k as int].0);
                    }
                }
                assert forall|i: int, j: int|
                    0 <= i < kept@.len() && k + 1 <= j < n implies #[trigger] kept@[i].0
                    + kept@[i].1 < #[trigger] rs[j].0 by {
                    assert(rs[k as int].0 + rs[k as int].1 < rs[j].0);
                    if i < before.len() {
                        assert(before[i].0 + before[i].1 < rs[k as int].0);
                    }
                }
            }
            k = k + 1;
        }
        self.ranges = kept;
    }

    /// The lowest index greater than `index`, or `None`.
    pub fn index_greater_than(&self, index: NSUInteger) -> (r: Option<NSUInteger>)
        requires
            self.wf(),
        ensures
            r matches Some(y) ==> self@.contains(y as int) && y > index && forall|z: int|
                #[trigger] self@.contains(z) && z > index ==> z >= y,
            r is None ==> forall|z: int| #[trigger] self@.contains(z) ==> z <= index,
    {
        let mut i: usize = 0;
        while i < self.ranges.len()
            invariant
                self.wf(),
                i <= self.ranges@.len(),
                forall|k: int|
                    0 <= k < i ==> (#[trigger] self.ranges@[k]).0 + self.ranges@[k].1 - 1 <= index,
            decreases self.ranges@.len() - i,
        {
            let (loc, len) = self.ranges[i];
            if loc > index {
                proof {
                    assert(in_range(self.ranges@[i as int], loc as int));
                    assert forall|z: int| #[trigger] self@.contains(z) && z > index implies z
                        >= loc by {
                        let j = choose|j: int|
                            0 <= j < self.ranges@.len() && #[trigger] in_range(self.ranges@[j], z);
                        if j > i {
                            assert(self.ranges@[i as int].0 + self.ranges@[i as int].1
                                < self.ranges@[j].0);
                        }
                    }
                }
                return Some(loc);
            }
            if index < loc + len - 1 {
                proof {
                    assert(in_range(self.ranges@[i as int], index + 1));
                }
                return Some(index + 1);
            }
            i = i + 1;
        }
        proof {
            assert forall|z: int| #[trigger] self@.contains(z) implies z <= index by {
                let j = choose|j: int|
                    0 <= j < self.ranges@.len() && #[trigger] in_range(self.ranges@[j], z);
            }
        }
        None
    }

    /// The highest index less than `index`, or `None`.
    pub fn index_less_than(&self, index: NSUInteger) -> (r: Option<NSUInteger>)
        requires
            self.wf(),
        ensures
            r matches Some(y) ==> self@.contains(y as int) && y < index && forall|z: int|
                #[trigger] self@.contains(z) && z < index ==> z <= y,
            r is None ==> forall|z: int| #[trigger] self@.contains(z) ==> z >= index,
    {
        let mut best: Option<NSUInteger> = None;
        let mut i: usize = 0;
        let mut done = false;
        while i < self.ranges.len() && !done
            invariant
                self.wf(),
                i <= self.ranges@.len(),
                best is None <==> i == 0,
                best matches Some(y) ==> self@.contains(y as int) && y < index && forall|z: int|
                    #[trigger] self@.contains(z) && z < index && z < self.ranges@[i - 1].0
                        + self.ranges@[i - 1].1 ==> z <= y,
                i > 0 ==> self.ranges@[i - 1].0 < index,
                done ==> forall|z: int| #[trigger] self@.contains(z) && z < index ==> (i > 0 && z
                    < self.ranges@[i - 1].0 + self.ranges@[i - 1].1),
            decreases self.ranges@.len() - i + (if done { 0int } else { 1int }),
        {
            let (loc, len) = self.ranges[i];
            if loc >= index {
                proof {
                    assert forall|z: int| #[trigger] self@.contains(z) && z < index implies (
                    i > 0 && z < self.ranges@[i - 1].0 + self.ranges@[i - 1].1) by {
                        let j = choose|j: int|
                            0 <= j < self.ranges@.len() && #[trigger] in_range(self.ranges@[j], z);
                        if j >= i {
                            if j > i {
                                assert(self.ranges@[i as int].0 + self.ranges@[i as int].1
                                    < self.ranges@[j].0);
                            }
                        } else if j < i - 1 {
                            assert(self.ranges@[j].0 + self.ranges@[j].1 < self.ranges@[i
                                - 1].0);
                        }
                    }
                }
                done = true;
            } else {
                let candidate = if loc + len - 1 < index - 1 {
                    loc + len - 1
                } else {
                    index - 1
                };
                proof {
                    assert(in_range(self.ranges@[i as int], candidate as int));
                    assert forall|z: int|
                        #[trigger] self@.contains(z) && z < index && z < self.ranges@[i as int].0
                            + self.ranges@[i as int].1 implies z <= candidate by {
                        let j = choose|j: int|
                            0 <= j < self.ranges@.len() && #[trigger] in_range(
                                self.ranges@[j],
                                z,
                            );
                        if j > i {
                            assert(self.ranges@[i as int].0 + self.ranges@[i as int].1
                                < self.ranges@[j].0);
                        }
                    }
                }
                best = Some(candidate);
                i = i + 1;
            }
        }
        proof {
            if !done {
                if best is Some {
                    assert forall|z: int| #[trigger] self@.contains(z) && z < index implies z
                        < self.ranges@[i - 1].0 + self.ranges@[i - 1].1 by {
                        let j = choose|j: int|
                            0 <= j < self.ranges@.len() && #[trigger] in_range(self.ranges@[j], z);
                        if j < i - 1 {
                            assert(self.ranges@[j].0 + self.ranges@[j].1 < self.ranges@[i
                                - 1].0);
                        }
                    }
                } else {
                    assert(self@ =~= Set::<int>::empty());
                }
            }
        }
        best
    }

    /// Two index sets are equal exactly when their range lists are, because
    /// every set has one canonical list.
    pub proof fn lemma_equal_iff_same_ranges(&self, other: &IndexSet)
        requires
            self.wf(),
            other.wf(),
        ensures
            (self@ == other@) <==> (self.range_list() == other.range_list()),
    {
        if self@ == other@ {
            lemma_canonical_unique(self.ranges@, other.ranges@);
        }
    }

    /// A set holding just `index`.
    pub fn with_index(index: NSUInteger) -> (s: IndexSet)
        requires
            index < u32::MAX,
        ensures
            s.wf(),
            s@ == set_int_range(index as int, index + 1),
    {
        let mut s = IndexSet::new();
        s.add_range(index, 1);
        assert(s@ =~= set_int_range(index as int, index + 1));
        s
    }

    /// A set holding the indexes of the range `(location, length)`.
    pub fn with_range(location: NSUInteger, length: NSUInteger) -> (s: IndexSet)
        requires
            location + length <= u32::MAX,
        ensures
            s.wf(),
            s@ == set_int_range(location as int, location + length),
    {
        let mut s = IndexSet::new();
        s.add_range(location, length);
        assert(s@ =~= set_int_range(location as int, location + length));
        s
    }

    /// `-firstIndex`: the lowest index, or `NSNotFound`.
    pub fn first_index(&self) -> (r: NSUInteger)
        requires
            self.wf(),
        ensures
            self@ == Set::<int>::empty() ==> r == NS_NOT_FOUND,
            self@ != Set::<int>::empty() ==> self@.contains(r as int) && forall|y: int|
                #[trigger] self@.contains(y) ==> r <= y,
    {
        match self.first() {
            Some(x) => x,
            None => NS_NOT_FOUND,
        }
    }

    /// `-lastIndex`: the highest index, or `NSNotFound`.
    pub fn last_index(&self) -> (r: NSUInteger)
        requires
            self.wf(),
        ensures
            self@ == Set::<int>::empty() ==> r == NS_NOT_FOUND,
            self@ != Set::<int>::empty() ==> self@.contains(r as int) && forall|y: int|
                #[trigger] self@.contains(y) ==> y <= r,
    {
        match self.last() {
            Some(x) => x,
            None => NS_NOT_FOUND,
        }
    }

    /// `-containsIndexesInRange:`: whether every index of the range is in
    /// the set.
    pub fn contains_all_in_range(&self, location: NSUInteger, length: NSUInteger) -> (r: bool)
        requires
            location + length <= u32::MAX,
        ensures
            r == (forall|x: int| location <= x < location + length ==> #[trigger] self@.contains(x)),
    {
        let mut i = location;
        while i < location + length
            invariant
                location <= i <= location + length,
                location + length <= u32::MAX,
                forall|x: int| location <= x < i ==> #[trigger] self@.contains(x),
            decreases location + length - i,
        {
            if !self.contains(i) {
                return false;
            }
            i = i + 1;
        }
        true
    }

    /// `-intersectsIndexesInRange:`: whether any index of the range is in the
    /// set.
    pub fn intersects_range(&self, location: NSUInteger, length: NSUInteger) -> (r: bool)
        requires
            location + length <= u32::MAX,
        ensures
            r == (exists|x: int| location <= x < location + length && #[trigger] self@.contains(x)),
    {
        let mut i = location;
        while i < location + length
            invariant
                location <= i <= location + length,
                location + length <= u32::MAX,
                forall|x: int| location <= x < i ==> !#[trigger] self@.contains(x),
            decreases location + length - i,
        {
            if self.contains(i) {
                return true;
            }
            i = i + 1;
        }
        false
    }

    /// `-indexGreaterThanOrEqualToIndex:`: the lowest index at or above
    /// `index`, or `NSNotFound`.
    pub fn index_greater_than_or_equal(&self, index: NSUInteger) -> (r: NSUInteger)
        requires
            self.wf(),
        ensures
            (exists|z: int| #[trigger] self@.contains(z) && z >= index) ==> self@.contains(r as int)
                && r >= index && forall|z: int| #[trigger] self@.contains(z) && z >= index ==> z >= r,
            !(exists|z: int| #[trigger] self@.contains(z) && z >= index) ==> r == NS_NOT_FOUND,
    {
        if self.contains(index) {
            index
        } else {
            match self.index_greater_than(index) {
                Some(y) => y,
                None => NS_NOT_FOUND,
            }
        }
    }

    /// `-indexLessThanOrEqualToIndex:`: the highest index at or below
    /// `index`, or `NSNotFound`.
    pub fn index_less_than_or_equal(&self, index: NSUInteger) -> (r: NSUInteger)
        requires
            self.wf(),
        ensures
            (exists|z: int| #[trigger] self@.contains(z) && z <= index) ==> self@.contains(r as int)
                && r <= index && forall|z: int| #[trigger] self@.contains(z) && z <= index ==> z <= r,
            !(exists|z: int| #[trigger] self@.contains(z) && z <= index) ==> r == NS_NOT_FOUND,
    {
        if self.contains(index) {
            index
        } else {
            match self.index_less_than(index) {
                Some(y) => y,
                None => NS_NOT_FOUND,
            }
        }
    }

    /// Every index in the set, in ascending order.
    pub fn indexes(&self) -> (r: Vec<NSUInteger>)
        requires
            self.wf(),
        ensures
            forall|i: int, j: int| 0 <= i < j < r@.len() ==> r@[i] < r@[j],
            forall|x: int| #[trigger] self@.contains(x) <==> exists|i: int|
                0 <= i < r@.len() && r@[i] == x,
    {
        let mut r: Vec<NSUInteger> = Vec::new();
        let mut k: usize = 0;
        while k < self.ranges.len()
            invariant
                self.wf(),
                k <= self.ranges@.len(),
                forall|i: int, j: int| 0 <= i < j < r@.len() ==> r@[i] < r@[j],
                r@.len() > 0 ==> forall|j: int|
                    k <= j < self.ranges@.len() ==> r@.last() < (#[trigger] self.ranges@[j]).0,
                forall|x: int|
                    #[trigger] ranges_set(self.ranges@.subrange(0, k as int)).contains(x) <==> exists|
                        i: int,
                    | 0 <= i < r@.len() && r@[i] == x,
            decreases self.ranges@.len() - k,
        {
            let (loc, len) = self.ranges[k];
            let ghost before = r@;
            let mut x = loc;
            while x < loc + len
                invariant
                    self.wf(),
                    k < self.ranges@.len(),
                    self.ranges@[k as int] == (loc, len),
                    loc <= x <= loc + len,
                    r@.len() >= before.len(),
                    r@.subrange(0, before.len() as int) == before,
                    forall|i: int, j: int| 0 <= i < j < r@.len() ==> r@[i] < r@[j],
                    before.len() > 0 ==> before.last() < loc,
                    r@.len() > before.len() ==> r@.last() == x - 1,
                    r@.len() == before.len() ==> x == loc,
                    forall|y: int|
                        #[trigger] occurs_from(r@, before.len() as int, y) <==> loc <= y < x,
                decreases loc + len - x,
            {
                let ghost prev = r@;
                r.push(x);
                proof {
                    assert forall|y: int|
                        #[trigger] occurs_from(r@, before.len() as int, y) <==> loc <= y < x + 1 by {
                        if loc <= y < x {
                            assert(occurs_from(prev, before.len() as int, y));
                            let i = choose|i: int| before.len() <= i < prev.len() && prev[i] == y;
                            assert(r@[i] == y);
                        }
                        if y == x {
                            assert(r@[r@.len() - 1] == y);
                        }
                        if occurs_from(r@, before.len() as int, y) {
                            let i = choose|i: int| before.len() <= i < r@.len() && r@[i] == y;
                            if i < prev.len() {
                                assert(prev[i] == y);
                                assert(occurs_from(prev, before.len() as int, y));
                            }
                        }
                    }
                    assert(r@.subrange(0, before.len() as int) =~= before) by {
                        assert(prev.subrange(0, before.len() as int) == before);
                    }
                }
                x = x + 1;
            }
            proof {
                assert(self.ranges@.subrange(0, k + 1) =~= self.ranges@.subrange(0, k as int).push(
                    (loc, len),
                ));
                lemma_set_push(self.ranges@.subrange(0, k as int), (loc, len));
                assert forall|y: int|
                    #[trigger] ranges_set(self.ranges@.subrange(0, k + 1)).contains(y) <==> exists|
                        i: int,
                    | 0 <= i < r@.len() && r@[i] == y by {
                    if exists|i: int| 0 <= i < before.len() && before[i] == y {
                        let i = choose|i: int| 0 <= i < before.len() && before[i] == y;
                        assert(r@[i] == y);
                    }
                    if exists|i: int| 0 <= i < r@.len() && r@[i] == y {
                        let i = choose|i: int| 0 <= i < r@.len() && r@[i] == y;
                        if i < before.len() {
                            assert(before[i] == y);
                        } else {
                            assert(occurs_from(r@, before.len() as int, y));
                        }
                    }
                    if in_range((loc, len), y) {
                        assert(occurs_from(r@, before.len() as int, y));
                    }
                }
                assert forall|j: int| k + 1 <= j < self.ranges@.len() implies r@.last()
                    < (#[trigger] self.ranges@[j]).0 by {
                    assert(self.ranges@[k as int].0 + self.ranges@[k as int].1 < self.ranges@[j].0);
                }
            }
            k = k + 1;
        }
        assert(self.ranges@.subrange(0, k as int) =~= self.ranges@);
        r
    }

    /// `-getIndexes:maxCount:inIndexRange:`: up to `max_count` of the set's
    /// indexes, ascending, that lie in `range` (`(location, length)`; `None`
    /// means everything below `NSNotFound`), and the part of the range left to
    /// fetch.
    pub fn get_indexes(&self, max_count: NSUInteger, range: Option<(NSUInteger, NSUInteger)>) -> (r: (
        Vec<NSUInteger>,
        Option<(NSUInteger, NSUInteger)>,
    ))
        requires
            self.wf(),
        ensures
            ({
                let (start, end) = match range {
                    None => (0int, NS_NOT_FOUND as int),
                    Some((loc, len)) => (loc as int, if loc + len > u32::MAX {
                        u32::MAX as int
                    } else {
                        loc + len
                    }),
                };
                let got = r.0@;
                &&& got.len() <= max_count
                &&& forall|i: int, j: int| 0 <= i < j < got.len() ==> got[i] < got[j]
                &&& forall|i: int|
                    0 <= i < got.len() ==> start <= #[trigger] got[i] < end && self@.contains(
                        got[i] as int,
                    )
                // Nothing in range below the last one returned was skipped.
                &&& forall|x: int|
                    #[trigger] self@.contains(x) && start <= x < end && (got.len() == max_count ==> (
                    got.len() > 0 && x <= got.last())) ==> exists|i: int|
                        0 <= i < got.len() && got[i] == x
                &&& range is None ==> r.1 is None
                &&& range is Some ==> r.1 == Some(
                    {
                        let consumed_to = if got.len() > 0 {
                            got.last() + 1
                        } else {
                            end
                        };
                        (consumed_to as NSUInteger, (if end > consumed_to {
                            end - consumed_to
                        } else {
                            0
                        }) as NSUInteger)
                    },
                )
            }),
    {
        let (start, end) = match range {
            None => (0u32, NS_NOT_FOUND),
            Some((loc, len)) => (loc, loc.saturating_add(len)),
        };
        let all = self.indexes();
        let mut got: Vec<NSUInteger> = Vec::new();
        let mut i: usize = 0;
        while i < all.len() && got.len() < max_count as usize
            invariant
                i <= all@.len(),
                got@.len() <= max_count,
                forall|a: int, b: int| 0 <= a < b < all@.len() ==> all@[a] < all@[b],
                forall|x: int| #[trigger] self@.contains(x) <==> exists|a: int|
                    0 <= a < all@.len() && all@[a] == x,
                forall|a: int, b: int| 0 <= a < b < got@.len() ==> got@[a] < got@[b],
                forall|a: int|
                    0 <= a < got@.len() ==> start <= #[trigger] got@[a] < end && self@.contains(
                        got@[a] as int,
                    ),
                got@.len() > 0 ==> exists|a: int| 0 <= a < i && all@[a] == got@.last(),
                forall|a: int|
                    0 <= a < i && start <= #[trigger] all@[a] < end ==> exists|b: int|
                        0 <= b < got@.len() && got@[b] == all@[a],
            decreases all@.len() - i,
        {
            let x = all[i];
            if x >= start && x < end {
                let ghost prev = got@;
                got.push(x);
                proof {
                    assert forall|a: int, b: int| 0 <= a < b < got@.len() implies got@[a]
                        < got@[b] by {
                        if b == got@.len() - 1 && a < prev.len() {
                            let c = choose|c: int| 0 <= c < i && all@[c] == prev.last();
                            if a < prev.len() - 1 {
                                assert(prev[a] < prev.last());
                            }
                        }
                    }
                    assert forall|a: int|
                        0 <= a < i + 1 && start <= #[trigger] all@[a] < end implies exists|b: int|
                        0 <= b < got@.len() && got@[b] == all@[a] by {
                        if a == i {
                            assert(got@[got@.len() - 1] == all@[a]);
                        } else {
                            let b = choose|b: int| 0 <= b < prev.len() && prev[b] == all@[a];
                            assert(got@[b] == all@[a]);
                        }
                    }
                    assert(self@.contains(x as int));
                }
            }
            i = i + 1;
        }
        proof {
            assert forall|x: int|
                #[trigger] self@.contains(x) && start <= x < end && (got@.len() == max_count ==> (
                got@.len() > 0 && x <= got@.last())) implies exists|b: int|
                0 <= b < got@.len() && got@[b] == x by {
                let a = choose|a: int| 0 <= a < all@.len() && all@[a] == x;
                if a >= i {
                    // Stopped early: the last one taken comes from before `i`.
                    let c = choose|c: int| 0 <= c < i && all@[c] == got@.last();
                    assert(all@[c] < all@[a]);
                }
            }
        }
        let rest = match range {
            None => None,
            Some(_) => {
                let consumed_to = if got.len() > 0 {
                    got[got.len() - 1] + 1
                } else {
                    end
                };
                Some((consumed_to, end.saturating_sub(consumed_to)))
            },
        };
        (got, rest)
    }

    /// `-addIndexes:`: add every index of `other`.
    pub fn add_indexes(&mut self, other: &IndexSet)
        requires
            old(self).wf(),
            other.wf(),
        ensures
            final(self).wf(),
            final(self)@ == old(self)@.union(other@),
    {
        let mut k: usize = 0;
        while k < other.ranges.len()
            invariant
                self.wf(),
                other.wf(),
                k <= other.ranges@.len(),
                self@ == old(self)@.union(ranges_set(other.ranges@.subrange(0, k as int))),
            decreases other.ranges@.len() - k,
        {
            let (loc, len) = other.ranges[k];
            self.add_range(loc, len);
            proof {
                assert(other.ranges@.subrange(0, k + 1) =~= other.ranges@.subrange(0, k as int).push(
                    (loc, len),
                ));
                lemma_set_push(other.ranges@.subrange(0, k as int), (loc, len));
                assert(self@ =~= old(self)@.union(ranges_set(other.ranges@.subrange(0, k + 1))));
            }
            k = k + 1;
        }
        proof {
            assert(other.ranges@.subrange(0, k as int) =~= other.ranges@);
        }
    }

    /// `-removeIndexes:`: remove every index of `other`.
    pub fn remove_indexes(&mut self, other: &IndexSet)
        requires
            old(self).wf(),
            other.wf(),
        ensures
            final(self).wf(),
            final(self)@ == old(self)@.difference(other@),
    {
        let mut k: usize = 0;
        while k < other.ranges.len()
            invariant
                self.wf(),
                other.wf(),
                k <= other.ranges@.len(),
                self@ == old(self)@.difference(ranges_set(other.ranges@.subrange(0, k as int))),
            decreases other.ranges@.len() - k,
        {
            let (loc, len) = other.ranges[k];
            self.remove_range(loc, len);
            proof {
                assert(other.ranges@.subrange(0, k + 1) =~= other.ranges@.subrange(0, k as int).push(
                    (loc, len),
                ));
                lemma_set_push(other.ranges@.subrange(0, k as int), (loc, len));
                assert(self@ =~= old(self)@.difference(
                    ranges_set(other.ranges@.subrange(0, k + 1)),
                ));
            }
            k = k + 1;
        }
        proof {
            assert(other.ranges@.subrange(0, k as int) =~= other.ranges@);
        }
    }

    /// `-removeAllIndexes`.
    pub fn remove_all(&mut self)
        ensures
            final(self).wf(),
            final(self)@ == Set::<int>::empty(),
    {
        self.ranges = Vec::new();
        assert(self@ =~= Set::<int>::empty());
    }

    /// `-isEqualToIndexSet:`: whether both hold the same indexes.
    pub fn is_equal(&self, other: &IndexSet) -> (r: bool)
        requires
            self.wf(),
            other.wf(),
        ensures
            r == (self@ == other@),
    {
        proof {
            self.lemma_equal_iff_same_ranges(other);
        }
        if self.ranges.len() != other.ranges.len() {
            assert(self.ranges@ != other.ranges@);
            return false;
        }
        let mut i: usize = 0;
        while i < self.ranges.len()
            invariant
                i <= self.ranges@.len(),
                self.ranges@.len() == other.ranges@.len(),
                (self@ == other@) <==> (self.ranges@ == other.ranges@),
                forall|k: int| 0 <= k < i ==> self.ranges@[k] == other.ranges@[k],
            decreases self.ranges@.len() - i,
        {
            let (a, b) = self.ranges[i];
            let (c, d) = other.ranges[i];
            if a != c || b != d {
                assert(self.ranges@[i as int] != other.ranges@[i as int]);
                assert(self.ranges@ != other.ranges@);
                return false;
            }
            i = i + 1;
        }
        assert(self.ranges@ =~= other.ranges@);
        true
    }
}

} // verus!
