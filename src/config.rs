use vstd::prelude::*;

verus! {

/// Width of the display, in pixels.
pub const WIDTH: usize = 800;

/// Height of the display, in pixels.
pub const HEIGHT: usize = 600;

/// Side of the player square, in pixels.
pub const SQUARE_SIZE: usize = 40;

/// Sub-pixel steps in one pixel.
pub const UNIT: i64 = 1_000_000;

/// Width of the display in sub-pixel steps.
pub const WIDTH_UNITS: i64 = 800_000_000;

/// Height of the display in sub-pixel steps.
pub const HEIGHT_UNITS: i64 = 600_000_000;

/// Speed of a projectile per frame, in sub-pixel steps (five pixels).
pub const BULLET_SPEED: i64 = 5_000_000;

/// Distance below which a projectile strikes a target, in sub-pixel steps
/// (half the player's size).
pub const HIT_RADIUS: i64 = 20_000_000;

/// Largest error, in sub-pixel steps, of a fired projectile's velocity
/// along either axis and of its speed (a ten-thousandth of a pixel).
pub const AIM_TOLERANCE: i64 = 100;

/// Most targets alive at once.
pub const MAX_ENEMIES: usize = 10;

/// Chance, in percent, that a target spawns in a frame.
pub const SPAWN_PERCENT: u32 = 5;

/// Player step per held movement key and frame, in sub-pixel steps.
pub const MOVE_STEP: i64 = 1_000_000;

/// Side of a projectile's square, in pixels.
pub const BULLET_SIZE: i32 = 4;

/// Side of a target's square, in pixels.
pub const ENEMY_SIZE: i32 = 20;

/// Colour of the player.
pub const SQUARE_COLOR: u32 = 0xFF0000;

/// Colour of a projectile.
pub const BULLET_COLOR: u32 = 0x00FF00;

/// Colour of a target.
pub const ENEMY_COLOR: u32 = 0x0000FF;

/// Fixed-point scale of the cosine and sine handed to the player's drawing.
pub const TRIG_SCALE: i64 = 65536;

} // verus!
