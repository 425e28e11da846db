//! The fit rule for rasterized glyph matrices.
//!
//! The rasterizer itself is an outside collaborator; the grid model only
//! decides whether its output can fit into the grid at all.
use vstd::prelude::*;

verus! {

use crate::consts::GRID_SIZE;

/// Pixel width at which a glyph is rasterized.
pub const PIXEL_WIDTH: usize = 7;

/// Pixel height at which a glyph is rasterized: one pixel row per weekday
/// row of the grid.
pub const PIXEL_HEIGHT: usize = 7;

/// Whether a rasterized message of the given pixel width fits the grid:
/// each pixel takes one cell, so the pixel count must not exceed the
/// grid's length.
pub fn glyph_fits(width: usize) -> (r: bool)
    ensures
        r == (width * PIXEL_HEIGHT <= GRID_SIZE),
{
    width <= GRID_SIZE / PIXEL_HEIGHT
}

} // verus!
