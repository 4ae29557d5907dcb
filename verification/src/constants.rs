//! Dimensions of the world, in cells.

use vstd::prelude::*;

verus! {

/// Side of a chunk along x and along z.
pub const CHUNK_SIZE: usize = 20;

/// Cells above world height zero.
pub const HEIGHT_ABOVE: usize = 64;

/// Cells below world height zero, where caves are carved.
pub const HEIGHT_BELOW: usize = 32;

/// Height of a chunk.
pub const TOTAL_HEIGHT: usize = 96;

/// Height of one vertical layer of a chunk, meshed and streamed on its own.
pub const VERTICAL_CHUNK_HEIGHT: usize = 32;

/// Number of vertical layers in a chunk.
pub const VERTICAL_LAYERS: usize = 3;

/// Distance, in chunks, up to which chunks are kept around the viewpoint
/// when nothing else is configured.
pub const RENDER_DISTANCE: i64 = 20;

/// Vertical reach of the viewpoint, in chunk sides.
pub const VERTICAL_BUFFER: i64 = 20;

/// Cells in one horizontal layer of a chunk.
pub const LAYER_CELLS: usize = 400;

/// Cells in a chunk.
pub const CHUNK_CELLS: usize = 38400;

/// The dimensions agree with each other, and the vertical layers tile the
/// height of a chunk exactly.
pub proof fn lemma_dimensions()
    ensures
        TOTAL_HEIGHT == HEIGHT_ABOVE + HEIGHT_BELOW,
        LAYER_CELLS == CHUNK_SIZE * CHUNK_SIZE,
        CHUNK_CELLS == LAYER_CELLS * TOTAL_HEIGHT,
        TOTAL_HEIGHT % VERTICAL_CHUNK_HEIGHT == 0,
        VERTICAL_LAYERS * VERTICAL_CHUNK_HEIGHT == TOTAL_HEIGHT,
{
}

} // verus!
