use taphle::core_graphics::cg_path::Path;

type P = (i32, i32);

#[test]
fn a_line_without_a_move_starts_a_subpath() {
    let mut path: Path<P> = Path::new();
    assert!(path.is_empty());
    assert_eq!(path.current_point(), None);
    path.line_to((1, 2));
    assert_eq!(path.subpaths.len(), 1);
    assert_eq!(path.current_point(), Some((1, 2)));
    path.line_to((3, 4));
    assert!(!path.is_empty());
    assert_eq!(path.subpaths[0].points, vec![(1, 2), (3, 4)]);
}

#[test]
fn a_line_after_close_begins_anew() {
    let mut path: Path<P> = Path::new();
    path.move_to((0, 0));
    path.line_to((1, 0));
    path.close();
    assert!(path.subpaths[0].closed);
    path.line_to((5, 5));
    assert_eq!(path.subpaths.len(), 2);
    assert_eq!(path.subpaths[1].points, vec![(5, 5)]);
    assert!(!path.subpaths[1].closed);
    path.clear();
    assert!(path.subpaths.is_empty());
    assert!(path.is_empty());
}

#[test]
fn appending_transforms_every_point_and_keeps_closedness() {
    let mut a: Path<P> = Path::new();
    a.move_to((9, 9));
    let mut b: Path<P> = Path::new();
    b.move_to((1, 1));
    b.line_to((2, 3));
    b.close();
    b.move_to((4, 4));
    a.append(&b, |(x, y)| (x * 10, y + 1));
    assert_eq!(a.subpaths.len(), 3);
    assert_eq!(a.subpaths[0].points, vec![(9, 9)]);
    assert_eq!(a.subpaths[1].points, vec![(10, 2), (20, 4)]);
    assert!(a.subpaths[1].closed);
    assert_eq!(a.subpaths[2].points, vec![(40, 5)]);
    assert!(!a.subpaths[2].closed);
}
