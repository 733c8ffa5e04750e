use vstd::prelude::*;
use crate::config::{
    ENEMY_SPEED_MAX, ENEMY_SPEED_MIN, MAX_FIELD, MIN_FIELD_H, MIN_FIELD_W, SIZE_MULT_MAX,
    SIZE_MULT_MIN, SPAWN_ROLL_BOUND, SPAWN_ROLL_THRESHOLD,
};
use crate::game_object::{GameObject, ObjView, Visual};
use crate::world::spawn_ok;

verus! {

/// Relies on `macroquad::rand::gen_range` (quad_rand): for an integer
/// type it computes `low + (high - low) * f` with `f` drawn in `[0, 1)`
/// and casts the value back to the integer type, so the result never
/// leaves `[low, high]` (float rounding can reach the upper bound).
/// Nothing more is promised of the draw.
#[verifier::external_body]
fn gen_range_u32(low: u32, high: u32) -> (r: u32)
    requires
        low <= high,
    ensures
        low <= r <= high,
{
    macroquad::rand::gen_range(low, high)
}

/// The base sprite-frame width of a visual variant, in pixels.
pub open spec fn spec_base_w(k: Visual) -> int {
    match k {
        Visual::Player => 16,
        Visual::Bullet => 16,
        Visual::EnemySmall => 17,
        Visual::EnemyMedium => 32,
        Visual::EnemyBig => 32,
    }
}

/// The base sprite-frame height of a visual variant, in pixels.
pub open spec fn spec_base_h(k: Visual) -> int {
    match k {
        Visual::Player => 24,
        Visual::Bullet => 16,
        Visual::EnemySmall => 16,
        Visual::EnemyMedium => 16,
        Visual::EnemyBig => 32,
    }
}

/// The base sprite-frame extents of a visual variant, in pixels.
pub fn base_frame(k: Visual) -> (r: (i64, i64))
    ensures
        r.0 == spec_base_w(k),
        r.1 == spec_base_h(k),
{
    match k {
        Visual::Player => (16, 24),
        Visual::Bullet => (16, 16),
        Visual::EnemySmall => (17, 16),
        Visual::EnemyMedium => (32, 16),
        Visual::EnemyBig => (32, 32),
    }
}

/// The enemy variant a drawn index selects. An index at the generator's
/// inclusive upper edge falls back to the small variant.
pub open spec fn spec_enemy_kind(ix: int) -> Visual {
    if ix == 1 {
        Visual::EnemyMedium
    } else if ix == 2 {
        Visual::EnemyBig
    } else {
        Visual::EnemySmall
    }
}

/// The enemy an accepted spawn roll produces, given the drawn variant
/// index, size multiplier (thousandths of the base frame), speed and
/// horizontal position: extents scaled from the variant's base frame,
/// placed one extent above the top edge, unflagged.
pub open spec fn spec_build_enemy(ix: int, mult: int, speed: int, x: int) -> ObjView {
    let k = spec_enemy_kind(ix);
    let w = spec_base_w(k) * mult;
    let h = spec_base_h(k) * mult;
    ObjView {
        width: w,
        height: h,
        speed: speed,
        x: x,
        y: -h,
        collided: false,
        visual: k,
        animation_num: 0,
    }
}

/// Whether an enemy has the shape a spawn with multiplier `m` gives.
pub open spec fn sized_by(e: ObjView, m: int) -> bool {
    &&& e.width == spec_base_w(e.visual) * m
    &&& e.height == spec_base_h(e.visual) * m
}

/// What every spawned enemy looks like: one of the enemy variants,
/// scaled by some multiplier within the spawn range, idle animation.
pub open spec fn enemy_shape_ok(e: ObjView) -> bool {
    &&& (e.visual == Visual::EnemySmall || e.visual == Visual::EnemyMedium || e.visual
        == Visual::EnemyBig)
    &&& (exists|m: int| SIZE_MULT_MIN <= m <= SIZE_MULT_MAX && #[trigger] sized_by(e, m))
    &&& e.animation_num == 0
}

/// Builds the enemy the drawn attributes describe.
pub fn build_enemy(kind_ix: u32, size_mult: u32, speed: u32, x: i64) -> (e: GameObject)
    requires
        kind_ix <= 3,
        SIZE_MULT_MIN <= size_mult <= SIZE_MULT_MAX,
        ENEMY_SPEED_MIN <= speed <= ENEMY_SPEED_MAX,
        -MAX_FIELD <= x <= MAX_FIELD,
    ensures
        e@ == spec_build_enemy(kind_ix as int, size_mult as int, speed as int, x as int),
{
    let kind = if kind_ix == 1 {
        Visual::EnemyMedium
    } else if kind_ix == 2 {
        Visual::EnemyBig
    } else {
        Visual::EnemySmall
    };
    let (bw, bh) = base_frame(kind);
    proof {
        assert(0 < bw * size_mult <= 200_000 && 0 < bh * size_mult <= 200_000)
            by (nonlinear_arith)
            requires
                0 < bw <= 32,
                0 < bh <= 32,
                SIZE_MULT_MIN <= size_mult <= SIZE_MULT_MAX,
        ;
    }
    let w = bw * (size_mult as i64);
    let h = bh * (size_mult as i64);
    GameObject {
        width: w,
        height: h,
        speed: speed as i64,
        x,
        y: -h,
        collided: false,
        visual: kind,
        animation_num: 0,
    }
}

/// The per-frame spawn decision: with fixed probability per frame (tied
/// to frame count, not to elapsed time), draws an enemy with a random
/// variant, size, speed and horizontal position such that it fits the
/// field's width, or nothing. Every enemy it hands back satisfies
/// `spawn_ok` and `enemy_shape_ok`; whether one comes back at all is up
/// to the generator.
pub fn roll_spawn(field_w: i64, field_h: i64) -> (r: Option<GameObject>)
    requires
        MIN_FIELD_W <= field_w <= MAX_FIELD,
        MIN_FIELD_H <= field_h <= MAX_FIELD,
    ensures
        match r {
            Some(e) => spawn_ok(e@, field_w as int, field_h as int) && enemy_shape_ok(e@)
                && e@.width / 2 <= e@.x <= field_w - e@.width / 2,
            None => true,
        },
{
    let roll = gen_range_u32(0, SPAWN_ROLL_BOUND);
    if roll >= SPAWN_ROLL_THRESHOLD {
        let kind_ix = gen_range_u32(0, 3);
        let mult = gen_range_u32(SIZE_MULT_MIN, SIZE_MULT_MAX);
        let speed = gen_range_u32(ENEMY_SPEED_MIN, ENEMY_SPEED_MAX);
        let kind = if kind_ix == 1 {
            Visual::EnemyMedium
        } else if kind_ix == 2 {
            Visual::EnemyBig
        } else {
            Visual::EnemySmall
        };
        let (bw, _bh) = base_frame(kind);
        proof {
            assert(0 < bw * mult <= 160_000) by (nonlinear_arith)
                requires
                    0 < bw <= 32,
                    SIZE_MULT_MIN <= mult <= SIZE_MULT_MAX,
            ;
        }
        let half_w = (bw * (mult as i64)) / 2;
        let x = gen_range_u32(half_w as u32, (field_w - half_w) as u32);
        let e = build_enemy(kind_ix, mult, speed, x as i64);
        proof {
            assert(spec_enemy_kind(kind_ix as int) == kind);
            assert(sized_by(e@, mult as int));
            assert(e@.wf());
        }
        Some(e)
    } else {
        None
    }
}

} // verus!
