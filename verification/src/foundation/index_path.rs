//! `NSIndexPath`, and UIKit's `row`/`section` reading of it.
//!
//! Foundation's index path is a list of indexes into nested collections.
//! UIKit reads its first two as section then row, and `-row` and `-section`
//! are defined by the general indexes, so an index path built one way and
//! read back the other agrees.

use crate::foundation::index_set::NSUInteger;
use vstd::prelude::*;

verus! {

/// The index at position `i` of `indexes`, 0 where there is none.
pub open spec fn index_or_zero(indexes: Seq<NSUInteger>, i: int) -> NSUInteger {
    if 0 <= i < indexes.len() {
        indexes[i]
    } else {
        0
    }
}

/// `(section, row)`, the UIKit reading of an index path's indexes, with 0 for
/// anything absent.
pub fn section_and_row(indexes: &[NSUInteger]) -> (r: (NSUInteger, NSUInteger))
    ensures
        r == (index_or_zero(indexes@, 0), index_or_zero(indexes@, 1)),
{
    let section = if indexes.len() > 0 {
        indexes[0]
    } else {
        0
    };
    let row = if indexes.len() > 1 {
        indexes[1]
    } else {
        0
    };
    (section, row)
}

/// The indexes of the index path UIKit builds for `row` in `section`.
pub fn for_row_in_section(row: NSUInteger, section: NSUInteger) -> (r: Vec<NSUInteger>)
    ensures
        r@ == seq![section, row],
{
    let mut r: Vec<NSUInteger> = Vec::new();
    r.push(section);
    r.push(row);
    assert(r@ =~= seq![section, row]);
    r
}

/// An index path built for a row in a section reads back as that section
/// and that row.
pub proof fn lemma_row_and_section_round_trip(row: NSUInteger, section: NSUInteger)
    ensures
        (index_or_zero(seq![section, row], 0), index_or_zero(seq![section, row], 1)) == (
            section,
            row,
        ),
{
}

} // verus!
