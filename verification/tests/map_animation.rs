use bevy_ecs_tiled::map::animation::{check_animation, get_animated_tile, next_atlas_index, AnimatedTileRange, Frame};

fn frames(list: &[(u32, u32)]) -> Option<Vec<Frame>> {
    Some(list.iter().map(|&(tile_id, duration)| Frame { tile_id, duration }).collect())
}

#[test]
fn consecutive_frames_play_as_a_range() {
    let r = get_animated_tile(&frames(&[(4, 100), (5, 100), (6, 100)]));
    assert_eq!(r, Some(AnimatedTileRange { start: 4, end: 7, period_ms: 300 }));
    // Tiled durations are in milliseconds: one loop of three 100 ms frames
    // plays at 1000 / 300 loops per second.
    let speed = 1000.0 / r.unwrap().period_ms as f32;
    assert!((speed - 3.333_333_3).abs() < 1e-5);
}

#[test]
fn single_frame_animation() {
    assert_eq!(
        get_animated_tile(&frames(&[(9, 250)])),
        Some(AnimatedTileRange { start: 9, end: 10, period_ms: 250 })
    );
}

#[test]
fn irregular_animations_are_not_played() {
    assert_eq!(get_animated_tile(&None), None);
    assert_eq!(get_animated_tile(&frames(&[])), None);
    assert_eq!(get_animated_tile(&frames(&[(4, 100), (5, 120)])), None);
    assert_eq!(get_animated_tile(&frames(&[(4, 100), (6, 100)])), None);
    assert_eq!(get_animated_tile(&frames(&[(4, 100), (3, 100)])), None);
}

#[test]
fn sprite_index_wraps_to_start() {
    assert_eq!(next_atlas_index(2, 2, 5), 3);
    assert_eq!(next_atlas_index(4, 2, 5), 2);
    let mut index = 3;
    for _ in 0..3 {
        index = next_atlas_index(index, 2, 5);
    }
    assert_eq!(index, 3);
}

#[test]
fn overflowing_animations_are_detected() {
    let f = |list: &[(u32, u32)]| list.iter().map(|&(tile_id, duration)| Frame { tile_id, duration }).collect::<Vec<_>>();
    assert!(check_animation(&f(&[(4, 100), (5, 100)])));
    assert!(!check_animation(&f(&[(u32::MAX, 100)])));
    assert!(!check_animation(&f(&[(u32::MAX, 100), (0, 100)])));
    assert!(check_animation(&f(&[(u32::MAX, 100), (0, 50)])));
    assert!(!check_animation(&f(&[(1, u32::MAX), (2, u32::MAX)])));
    assert!(check_animation(&f(&[])));
}
