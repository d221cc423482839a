use bevy_ecs_tiled::physics::geometry::simplify_geometry;

#[test]
fn empty_list_gives_nothing() {
    assert_eq!(simplify_geometry(Vec::<u32>::new(), |a, b| a + b), None);
}

#[test]
fn single_item_is_kept() {
    assert_eq!(simplify_geometry(vec![5u32], |a, b| a + b), Some(5));
}

#[test]
fn items_are_paired_round_after_round() {
    let combine = |a: String, b: String| format!("({a}{b})");
    let items = |n: usize| (0..n).map(|i| ((b'a' + i as u8) as char).to_string()).collect::<Vec<_>>();
    assert_eq!(simplify_geometry(items(2), combine), Some("(ab)".to_string()));
    assert_eq!(simplify_geometry(items(3), combine), Some("(c(ab))".to_string()));
    assert_eq!(simplify_geometry(items(4), combine), Some("((ab)(cd))".to_string()));
    assert_eq!(simplify_geometry(items(5), combine), Some("((cd)(e(ab)))".to_string()));
}

#[test]
fn every_item_is_used_once() {
    let total = simplify_geometry((1..=100u64).collect(), |a, b| a + b);
    assert_eq!(total, Some(5050));
}
