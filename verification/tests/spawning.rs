use space_warior::game_object::Visual;
use space_warior::spawn::{base_frame, build_enemy, roll_spawn};

const FIELD_W: i64 = 800_000;
const FIELD_H: i64 = 600_000;

#[test]
fn base_frames_match_the_sprite_sheets() {
    assert_eq!(base_frame(Visual::EnemySmall), (17, 16));
    assert_eq!(base_frame(Visual::EnemyMedium), (32, 16));
    assert_eq!(base_frame(Visual::EnemyBig), (32, 32));
    assert_eq!(base_frame(Visual::Player), (16, 24));
    assert_eq!(base_frame(Visual::Bullet), (16, 16));
}

#[test]
fn build_enemy_scales_the_base_frame() {
    let e = build_enemy(2, 3_000, 350, 500_000);
    assert_eq!(e.visual, Visual::EnemyBig);
    assert_eq!(e.width, 32 * 3_000);
    assert_eq!(e.height, 32 * 3_000);
    assert_eq!(e.speed, 350);
    assert_eq!(e.x, 500_000);
    assert_eq!(e.y, -e.height);
    assert!(!e.collided);
    assert_eq!(e.animation_num, 0);
}

#[test]
fn build_enemy_maps_each_index() {
    assert_eq!(build_enemy(0, 4_000, 300, 0).visual, Visual::EnemySmall);
    assert_eq!(build_enemy(1, 4_000, 300, 0).visual, Visual::EnemyMedium);
    assert_eq!(build_enemy(2, 4_000, 300, 0).visual, Visual::EnemyBig);
    // The generator's inclusive upper edge falls back to the small variant.
    assert_eq!(build_enemy(3, 4_000, 300, 0).visual, Visual::EnemySmall);
}

#[test]
fn rolled_enemies_respect_the_drawn_ranges() {
    macroquad::rand::srand(42);
    let mut spawned = 0u32;
    let mut skipped = 0u32;
    for _ in 0..500 {
        match roll_spawn(FIELD_W, FIELD_H) {
            Some(e) => {
                spawned += 1;
                assert!(e.width > 0 && e.height > 0);
                assert!(e.width <= 32 * 5_000 && e.height <= 32 * 5_000);
                assert!(e.speed >= 300 && e.speed <= 400);
                assert!(e.x >= e.width / 2 && e.x <= FIELD_W - e.width / 2);
                assert_eq!(e.y, -e.height);
                assert!(!e.collided);
                assert!(matches!(
                    e.visual,
                    Visual::EnemySmall | Visual::EnemyMedium | Visual::EnemyBig
                ));
            },
            None => {
                skipped += 1;
            },
        }
    }
    // The roll accepts roughly one frame in ten: over 500 frames both
    // outcomes must occur, and skips must dominate.
    assert!(spawned > 0);
    assert!(skipped > spawned);
}

#[test]
fn rolled_sizes_and_speeds_vary() {
    macroquad::rand::srand(7);
    let mut widths = Vec::new();
    let mut speeds = Vec::new();
    for _ in 0..2_000 {
        if let Some(e) = roll_spawn(FIELD_W, FIELD_H) {
            widths.push(e.width);
            speeds.push(e.speed);
        }
    }
    widths.sort();
    widths.dedup();
    speeds.sort();
    speeds.dedup();
    assert!(widths.len() > 1);
    assert!(speeds.len() > 1);
}
