use taphle::foundation::index_set::{IndexSet, NS_NOT_FOUND};

/// Adjacent ranges have to coalesce, or every question about the set
/// depends on how it happened to be built.
#[test]
fn adjacent_ranges_merge() {
    let mut set = IndexSet::new();
    set.add_range(0, 3);
    set.add_range(3, 2);
    assert_eq!(set.ranges(), vec![(0, 5)]);
    assert_eq!(set.count(), 5);
}

#[test]
fn overlapping_and_separate_ranges() {
    let mut set = IndexSet::new();
    set.add_range(10, 5);
    set.add_range(0, 2);
    set.add_range(12, 5);
    assert_eq!(set.ranges(), vec![(0, 2), (10, 7)]);
    assert!(set.contains(16));
    assert!(!set.contains(9));
    assert_eq!(set.first(), Some(0));
    assert_eq!(set.last(), Some(16));
}

/// Removing from the middle splits a range in two.
#[test]
fn removing_the_middle_splits() {
    let mut set = IndexSet::new();
    set.add_range(0, 10);
    set.remove_range(4, 2);
    assert_eq!(set.ranges(), vec![(0, 4), (6, 4)]);
    assert!(!set.contains(5));
}

#[test]
fn stepping_through_the_set() {
    let mut set = IndexSet::new();
    set.add_range(0, 2);
    set.add_range(5, 1);
    assert_eq!(set.index_greater_than(0), Some(1));
    assert_eq!(set.index_greater_than(1), Some(5));
    assert_eq!(set.index_greater_than(5), None);
    assert_eq!(set.index_less_than(5), Some(1));
    assert_eq!(set.index_less_than(0), None);
    assert_eq!(set.indexes(), vec![0, 1, 5]);
}

/// An empty range is not an error and adds nothing, as Apple's does.
#[test]
fn an_empty_range_is_ignored() {
    let mut set = IndexSet::new();
    set.add_range(7, 0);
    assert!(set.ranges().is_empty());
    assert_eq!(set.count(), 0);
    assert_eq!(set.first(), None);
}

#[test]
fn a_range_bridging_two_others_merges_all_three() {
    let mut set = IndexSet::new();
    set.add_range(0, 2);
    set.add_range(5, 2);
    set.add_range(10, 2);
    set.add_range(2, 8);
    assert_eq!(set.ranges(), vec![(0, 12)]);
    // Removing and re-adding gives back the same canonical list.
    set.remove_range(3, 4);
    assert_eq!(set.ranges(), vec![(0, 3), (7, 5)]);
    set.add_range(3, 4);
    assert_eq!(set.ranges(), vec![(0, 12)]);
}

#[test]
fn the_or_equal_queries_and_not_found() {
    let mut set = IndexSet::with_range(3, 3);
    assert_eq!(set.index_greater_than_or_equal(4), 4);
    assert_eq!(set.index_greater_than_or_equal(0), 3);
    assert_eq!(set.index_greater_than_or_equal(6), NS_NOT_FOUND);
    assert_eq!(set.index_less_than_or_equal(10), 5);
    assert_eq!(set.index_less_than_or_equal(2), NS_NOT_FOUND);
    assert!(set.contains_all_in_range(3, 3));
    assert!(!set.contains_all_in_range(2, 3));
    assert!(set.intersects_range(0, 4));
    assert!(!set.intersects_range(6, 10));
    assert_eq!(set.first_index(), 3);
    assert_eq!(set.last_index(), 5);
    set.remove_all();
    assert_eq!(set.first_index(), NS_NOT_FOUND);
    assert_eq!(set.last_index(), NS_NOT_FOUND);
}

#[test]
fn getting_indexes_in_batches_reports_what_is_left() {
    let mut set = IndexSet::with_range(0, 3);
    set.add_range(10, 2);
    let (first, rest) = set.get_indexes(2, Some((0, 100)));
    assert_eq!(first, vec![0, 1]);
    assert_eq!(rest, Some((2, 98)));
    let (second, rest) = set.get_indexes(10, rest);
    assert_eq!(second, vec![2, 10, 11]);
    assert_eq!(rest, Some((12, 88)));
    let (none, rest) = set.get_indexes(10, rest);
    assert!(none.is_empty());
    assert_eq!(rest, Some((100, 0)));
    let (all, rest) = set.get_indexes(100, None);
    assert_eq!(all, vec![0, 1, 2, 10, 11]);
    assert_eq!(rest, None);
}

#[test]
fn sets_built_differently_compare_equal() {
    let mut a = IndexSet::with_index(4);
    a.add_range(5, 3);
    let mut b = IndexSet::with_range(4, 10);
    b.remove_range(8, 6);
    assert!(a.is_equal(&b));
    let mut c = IndexSet::new();
    c.add_indexes(&a);
    c.remove_indexes(&IndexSet::with_index(5));
    assert!(!c.is_equal(&a));
    assert_eq!(c.ranges(), vec![(4, 1), (6, 2)]);
}
