use taphle::core_graphics::cg_context::{inside_spans, span_is_inside, PathRaster};

#[test]
fn the_even_odd_rule_alternates_regardless_of_direction() {
    // Four crossings from two nested shapes wound the same way: even-odd
    // makes the inner one a hole, and the winding number does not.
    for (index, winding) in [(0usize, 1), (1, 2), (2, 1)] {
        let even_odd = span_is_inside(PathRaster::FillEvenOdd, index, winding);
        assert_eq!(even_odd, index % 2 == 0);
        assert!(span_is_inside(PathRaster::FillNonZero, index, winding));
    }
}

#[test]
fn the_non_zero_rule_is_outside_only_where_the_winding_cancels() {
    // Two shapes wound opposite ways: the overlap sums to zero and drops
    // out under the winding rule.
    assert!(!span_is_inside(PathRaster::FillNonZero, 1, 0));
    assert!(span_is_inside(PathRaster::FillNonZero, 1, -1));
}

#[test]
fn nested_shapes_fill_by_the_rule_in_force() {
    // Same direction: a hole under even-odd, solid under non-zero.
    assert_eq!(inside_spans(PathRaster::FillEvenOdd, &[1, 1, -1, -1]), vec![0, 2]);
    assert_eq!(inside_spans(PathRaster::FillNonZero, &[1, 1, -1, -1]), vec![0, 1, 2]);
    // Opposite directions: a hole under both.
    assert_eq!(inside_spans(PathRaster::FillNonZero, &[1, -1, 1, -1]), vec![0, 2]);
    assert!(inside_spans(PathRaster::FillNonZero, &[1]).is_empty());
    assert!(inside_spans(PathRaster::FillEvenOdd, &[]).is_empty());
}
