use vstd::prelude::*;

verus! {

// Positions, extents and speeds are fixed-point integers: one screen pixel
// is UNITS_PER_PX position units, and speeds are units per millisecond
// (numerically equal to pixels per second).

/// One screen pixel, in position units.
pub const UNITS_PER_PX: i64 = 1000;

/// Largest extent (width or height) an entity may have, in units.
pub const MAX_EXTENT: i64 = 1_000_000;

/// Largest speed an entity may have, in units per millisecond.
pub const MAX_SPEED: i64 = 1_000_000;

/// Largest frame duration a step accepts, in milliseconds.
pub const MAX_DT_MS: i64 = 10_000;

/// Coarse bound on any entity coordinate, loose enough to cover every
/// intermediate position within one frame.
pub const MAX_COORD: i64 = 100_000_000_000;

/// Largest displacement an entity can travel in one frame:
/// `MAX_SPEED * MAX_DT_MS`.
pub const FRAME_TRAVEL: i64 = 10_000_000_000;

/// How far outside the field a bullet's coordinates may lie: a bullet is
/// created at the player's pre-clamp position, which can be up to two full
/// frame displacements (`MAX_SPEED * MAX_DT_MS` each) beyond an edge, and
/// it may travel one more before the first cull reaches it.
pub const BULLET_SLACK: i64 = 40_000_000_000;

/// Smallest field width a session accepts: wide enough for the widest
/// enemy that can spawn and for the player's clamping range.
pub const MIN_FIELD_W: i64 = 320_000;

/// Smallest field height a session accepts: tall enough for the player's
/// clamping range.
pub const MIN_FIELD_H: i64 = 200_000;

/// Largest field dimension a session accepts.
pub const MAX_FIELD: i64 = 10_000_000;

/// Player speed, in units per millisecond.
pub const MOVEMENT_SPEED: i64 = 200;

/// Cooldown between two shots, in milliseconds.
pub const RELOAD_MS: u64 = 100;

/// Debounce before the strong sideways animation shows, in milliseconds.
pub const ANIM_SWITCH_MS: u64 = 500;

/// Player extents, in units.
pub const PLAYER_W: i64 = 64_000;
pub const PLAYER_H: i64 = 96_000;

/// Bullet extents, in units.
pub const BULLET_W: i64 = 32_000;
pub const BULLET_H: i64 = 32_000;

/// A bullet starts this far above the player's center, in units.
pub const BULLET_Y_OFFSET: i64 = 24_000;

/// Spawn roll is drawn from 0 to this bound; at or above the threshold,
/// an enemy spawns.
pub const SPAWN_ROLL_BOUND: u32 = 99;
pub const SPAWN_ROLL_THRESHOLD: u32 = 90;

/// Enemy size multiplier range, in thousandths of the base frame size.
pub const SIZE_MULT_MIN: u32 = 3_000;
pub const SIZE_MULT_MAX: u32 = 5_000;

/// Enemy speed range, in units per millisecond.
pub const ENEMY_SPEED_MIN: u32 = 300;
pub const ENEMY_SPEED_MAX: u32 = 400;

} // verus!
