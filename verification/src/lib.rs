//! A first-person renderer over a two-dimensional occupancy grid.
//!
//! One ray is cast per screen column; the nearest wall it meets is projected
//! into a vertical strip of the frame. All quantities that vary continuously
//! (positions, distances, angles, time steps) are held as 16.16 fixed-point
//! integers, so every function of the crate is exact and has a contract over
//! mathematical integers.

use vstd::prelude::*;

pub mod angle;
pub mod drawing;
pub mod fixed;
pub mod grid;
pub mod player;
pub mod renderer;
pub mod viewport;
pub mod world;
pub mod ray;

verus! {

/// Width of the frame in pixels.
pub const WIDTH: i32 = 1280;

/// Height of the frame in pixels.
pub const HEIGHT: i32 = 450;

} // verus!
