//! Simulation core of a continuously steered snake game.
//!
//! All world geometry is carried in fixed-point integers: one world unit is
//! split into a thousand steps, so the square playing field of side two world
//! units spans `-1000..=1000` on each axis. Headings are integer vectors of
//! norm close to `DIR_ONE`. Every update rule — the head's motion, the lazy
//! chase of the body segments, collision with fruit, walls and the snake's own
//! body, and the per-frame game step — is verified here; rendering and input
//! live outside the library.

use vstd::prelude::*;

pub mod arith;
pub mod fruit;
pub mod game;
pub mod geom;
pub mod head;
pub mod snake;
pub mod unit;

verus! {

/// Half the side of the square playing field, in position steps.
pub const FIELD_HALF: i64 = 1000;

/// Radius of one snake segment, in position steps.
pub const UNIT_RADIUS: i64 = 40;

/// Radius of the fruit, in position steps.
pub const FRUIT_RADIUS: i64 = 60;

/// Initial speed of the snake, in position steps per second.
pub const INIT_SPEED: i64 = 400;

/// Norm of a heading vector: headings keep their norm within a few steps
/// of this value, the unit circle of the grid.
pub const DIR_ONE: i64 = 1000;

} // verus!
