//! Simulation core of a two-player snake game drawn on a pair of 6x6 LED
//! panels chained into one strip.
//!
//! One player drives (turns the snake) while the other watches a mirrored
//! view that also shows the tail. Eating food grows the snake and hands the
//! controls to the other player; filling the snake's capacity is a lap that
//! shrinks it back to its head and speeds the game up.

pub mod coord;
pub mod game;
mod random;
pub mod render;

pub use coord::{Coordinate, Direction, Player, Velocity};
pub use game::{duration, nth_free_cell, GameState};

use vstd::prelude::*;

verus! {

/// Width of one player's playfield, in cells.
pub const WIDTH: usize = 6;

/// Height of one player's playfield, in cells.
pub const HEIGHT: usize = 6;

/// Number of cells in one playfield.
pub const CELL_COUNT: usize = WIDTH * HEIGHT;

/// Number of LEDs on the strip: both playfields plus the separators.
pub const LED_COUNT: usize = CELL_COUNT * 2 + 5;

/// The most segments the snake holds before a lap resets it to its head.
pub const MAX_SNAKE_LENGTH: usize = 10;

/// Tick duration at level zero.
pub const BASE_TICK: u32 = 2000;

} // verus!
