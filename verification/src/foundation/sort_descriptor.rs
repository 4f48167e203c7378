//! `NSSortDescriptor`: how one descriptor, and a list of them, order two
//! objects.

use vstd::prelude::*;

verus! {

/// `NSInteger` on the 32-bit devices being emulated.
pub type NSInteger = i32;

/// `NSOrderedAscending` (-1), `NSOrderedSame` (0) or `NSOrderedDescending`
/// (1), as a comparison method returns it.
pub type NSComparisonResult = NSInteger;

/// The order one descriptor gives, from what its comparison selector
/// returned for the two values: that result when the descriptor is
/// ascending, its negation when descending.
pub fn compare_with_descriptor(ascending: bool, result: NSComparisonResult) -> (r:
    NSComparisonResult)
    requires
        result != i32::MIN,
    ensures
        r == if ascending {
            result as int
        } else {
            -result
        },
{
    if ascending {
        result
    } else {
        -result
    }
}

/// The order a list of `count` descriptors gives, earlier ones winning:
/// `compare(i)` is the order the `i`th descriptor gives, and it is asked
/// for descriptors in turn until one of them does not find the two objects
/// the same.
pub fn compare_with_descriptors<F: Fn(usize) -> NSComparisonResult>(count: usize, compare: F) -> (r:
    NSComparisonResult)
    requires
        forall|i: usize| i < count ==> call_requires(compare, (i,)),
    ensures
        r == 0 ==> forall|i: usize| i < count ==> call_ensures(compare, (i,), 0),
        r != 0 ==> exists|k: usize|
            k < count && call_ensures(compare, (k,), r) && forall|i: usize|
                i < k ==> call_ensures(compare, (i,), 0),
{
    let mut i: usize = 0;
    while i < count
        invariant
            i <= count,
            forall|j: usize| j < count ==> call_requires(compare, (j,)),
            forall|j: usize| j < i ==> call_ensures(compare, (j,), 0),
        decreases count - i,
    {
        let result = compare(i);
        if result != 0 {
            return result;
        }
        i = i + 1;
    }
    0
}

} // verus!
