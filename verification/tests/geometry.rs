use space_warior::game_object::{circle_hits_square, GameObject, Visual};

fn obj(x: i64, y: i64, w: i64, h: i64) -> GameObject {
    GameObject {
        width: w,
        height: h,
        speed: 0,
        x,
        y,
        collided: false,
        visual: Visual::EnemySmall,
        animation_num: 0,
    }
}

#[test]
fn overlap_is_symmetric_on_overlapping_pair() {
    let a = obj(100_000, 100_000, 50_000, 50_000);
    let b = obj(120_000, 110_000, 40_000, 60_000);
    assert!(a.collides_with(&b));
    assert!(b.collides_with(&a));
}

#[test]
fn overlap_is_symmetric_on_disjoint_pair() {
    let a = obj(0, 0, 10_000, 10_000);
    let b = obj(500_000, 0, 10_000, 10_000);
    assert!(!a.collides_with(&b));
    assert!(!b.collides_with(&a));
}

#[test]
fn corner_touch_counts_as_overlap() {
    // a spans [-1000, 1000] on both axes (half-extent 1000); b's lower-left
    // corner sits exactly on a's upper-right corner.
    let a = obj(0, 0, 2_000, 2_000);
    let b = obj(2_000, 2_000, 2_000, 2_000);
    assert!(a.collides_with(&b));
    assert!(b.collides_with(&a));
    // One unit further and they no longer touch.
    let c = obj(2_001, 2_001, 2_000, 2_000);
    assert!(!a.collides_with(&c));
}

#[test]
fn edge_touch_counts_as_overlap() {
    let a = obj(0, 0, 2_000, 2_000);
    let b = obj(2_000, 0, 2_000, 2_000);
    assert!(a.collides_with(&b));
}

#[test]
fn circle_at_square_center_hits() {
    assert!(circle_hits_square(300, -700, 300, -700, 1));
    assert!(circle_hits_square(0, 0, 0, 0, 1_000_000));
    assert!(circle_hits_square(-5_000, 42, -5_000, 42, 123));
}

#[test]
fn circle_on_square_edge_boundary() {
    // Square centered at the origin with side 1000: the closest point to a
    // center at (0, 1000) is (0, 500), squared distance (2*500)^2 == size^2.
    assert!(circle_hits_square(0, 1_000, 0, 0, 1_000));
    assert!(!circle_hits_square(0, 1_001, 0, 0, 1_000));
}

#[test]
fn circle_far_from_square_misses() {
    assert!(!circle_hits_square(10_000, 10_000, 0, 0, 1_000));
}

#[test]
fn rect_exposes_top_left_corner() {
    let a = obj(100, 200, 30, 50);
    let r = a.rect();
    assert_eq!(r.x, 85);
    assert_eq!(r.y, 175);
    assert_eq!(r.w, 30);
    assert_eq!(r.h, 50);
}

#[test]
fn set_animation_num_changes_only_the_row() {
    let mut a = obj(1, 2, 3, 4);
    a.set_animation_num(7);
    assert_eq!(a.animation_num, 7);
    assert_eq!(a.x, 1);
    assert_eq!(a.y, 2);
}
