use taphle::core_animation::ca_layer::{common_ancestor, remove_anonymous_animation, LayerAnimations};

#[test]
fn anonymous_animations_are_added_and_removed() {
    let mut layer = LayerAnimations::new();
    layer.add_anonymous_animation(0x100);
    layer.add_anonymous_animation(0x200);
    assert_eq!(remove_anonymous_animation(&mut layer, 0x100), 0x100);
    assert_eq!(remove_anonymous_animation(&mut layer, 0x200), 0x200);
}

#[test]
fn the_common_ancestor_is_found_by_alternating_walks() {
    assert_eq!(common_ancestor(&[1, 2, 3], &[4, 3]), Some((2, 1)));
    assert_eq!(common_ancestor(&[1, 2], &[2]), Some((1, 0)));
    assert_eq!(common_ancestor(&[2], &[1, 2]), Some((0, 1)));
    assert_eq!(common_ancestor(&[1, 2, 9], &[3, 4, 9]), Some((2, 2)));
}

#[test]
fn layers_without_a_common_ancestor_have_none() {
    assert_eq!(common_ancestor(&[1, 2], &[3, 4]), None);
    assert_eq!(common_ancestor(&[5], &[5]), None);
}
