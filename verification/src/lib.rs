//! Conway's Game of Life on a fixed-size toroidal grid.
//!
//! The library holds the simulation core: the grid of boolean cells, the
//! pattern templates that seed it, toroidal neighbor counting, and the
//! generation step that reads one buffer and writes a second. Rendering and
//! the frame loop live outside the library and only consume plain values.
use vstd::prelude::*;

pub mod color;
pub mod grid;
pub mod life;

verus! {

/// Number of cell columns in the stock configuration.
pub const GRID_W: usize = 200;

/// Number of cell rows in the stock configuration.
pub const GRID_H: usize = 100;

/// Side length, in pixels, of the square block that renders one cell.
pub const CELL_PIXELS: usize = 5;

/// Milliseconds to pause between frames.
pub const FRAME_DELAY_MS: u64 = 100;

} // verus!
