//! A falling-sand simulation core: an occupancy grid over a square of the
//! plane, particles ("sandflakes") that fall, spill diagonally and settle
//! against the grid, and a lateral push that shoves settled rows sideways.
//!
//! World coordinates are fixed-point integers: `SCALE` units stand for one
//! world unit, so the simulated square `[-1, 1] x [-1, 1]` is
//! `[-SCALE, SCALE] x [-SCALE, SCALE]`. The grid has `GRID_SIZE` cells per
//! edge, so one cell is `CELL_SIZE` fixed-point units wide.

use vstd::prelude::*;

pub mod flake;
pub mod grid;
pub mod push;
pub mod step;

verus! {

/// Number of grid cells along each edge of the square grid.
pub const GRID_SIZE: usize = 1000;

/// Fixed-point units per world unit: a coordinate of `SCALE` is the world
/// coordinate `1.0`.
pub const SCALE: i64 = 1_000_000;

/// Width of one grid cell in fixed-point units: `2 * SCALE / GRID_SIZE`.
pub const CELL_SIZE: i64 = 2_000;

/// Bound on particle coordinates accepted by the engine; far outside the
/// simulated square, it only keeps the fixed-point arithmetic inside `i64`.
pub const MAX_COORD: i64 = 1_000_000_000_000;

/// Quantization of one world coordinate to a cell index: the cell containing
/// `c` in a grid whose cells are `CELL_SIZE` wide starting at `-SCALE`,
/// clamped to `[0, GRID_SIZE - 1]`.
pub open spec fn quantize(c: int) -> int {
    if c < -(SCALE as int) {
        0
    } else if (c + SCALE as int) / (CELL_SIZE as int) >= GRID_SIZE as int {
        GRID_SIZE as int - 1
    } else {
        (c + SCALE as int) / (CELL_SIZE as int)
    }
}

/// The quantized cell of any coordinate lies within the grid.
pub proof fn lemma_quantize_in_range(c: int)
    ensures
        0 <= quantize(c) < GRID_SIZE as int,
{
}

/// Maps a position to its grid cell `(column, row)`, clamped to the grid.
pub fn to_cell(x: i64, y: i64) -> (r: (usize, usize))
    requires
        -MAX_COORD <= x <= MAX_COORD,
        -MAX_COORD <= y <= MAX_COORD,
    ensures
        r.0 as int == quantize(x as int),
        r.1 as int == quantize(y as int),
        r.0 < GRID_SIZE,
        r.1 < GRID_SIZE,
{
    (coord_to_index(x), coord_to_index(y))
}

/// Quantizes one coordinate, clamped to `[0, GRID_SIZE - 1]`.
pub fn coord_to_index(c: i64) -> (r: usize)
    requires
        -MAX_COORD <= c <= MAX_COORD,
    ensures
        r as int == quantize(c as int),
        r < GRID_SIZE,
{
    if c < -SCALE {
        0
    } else {
        let shifted: u64 = (c + SCALE) as u64;
        let idx: u64 = shifted / (CELL_SIZE as u64);
        if idx >= GRID_SIZE as u64 {
            GRID_SIZE - 1
        } else {
            idx as usize
        }
    }
}

} // verus!
