//! Names of the pieces of the world that are streamed, and where they lie.

use vstd::prelude::*;
use crate::constants::{CHUNK_SIZE, HEIGHT_BELOW, VERTICAL_CHUNK_HEIGHT};

verus! {

/// Names one vertical layer of one chunk.
#[derive(Copy, Clone, PartialEq, Eq, Hash, Debug, Structural)]
pub struct ChunkKey {
    pub chunk_x: i32,
    pub chunk_z: i32,
    pub vertical_layer: i32,
}

/// Where the viewer is, in whole cells: each coordinate of its position
/// rounded down.
#[derive(Copy, Clone, PartialEq, Eq, Debug, Structural)]
pub struct Viewpoint {
    pub x: i32,
    pub y: i32,
    pub z: i32,
}

/// The chunk coordinate of the world coordinate `w`, along x or z: `w`
/// divided by `CHUNK_SIZE` and rounded down, below zero as above.
pub open spec fn chunk_of(w: int) -> int {
    w / (CHUNK_SIZE as int)
}

/// The chunk coordinate of the world coordinate `w`.
pub fn chunk_coord(w: i32) -> (c: i32)
    ensures
        c == chunk_of(w as int),
{
    let side: i64 = CHUNK_SIZE as i64;
    let c: i64 = if w >= 0 {
        (w as i64) / side
    } else {
        -((side - 1 - (w as i64)) / side)
    };
    c as i32
}

/// The chunk that the viewer stands in, as `(chunk_x, chunk_z)`.
pub open spec fn player_chunk(viewpoint: Viewpoint) -> (int, int) {
    (chunk_of(viewpoint.x as int), chunk_of(viewpoint.z as int))
}

/// The chunk that the viewer stands in; `(0, 0)` while there is no viewer.
pub fn player_chunk_pos(viewpoint: Option<&Viewpoint>) -> (pos: (i32, i32))
    ensures
        (pos.0 as int, pos.1 as int) == match viewpoint {
            Some(v) => player_chunk(*v),
            None => (0int, 0int),
        },
{
    match viewpoint {
        Some(v) => (chunk_coord(v.x), chunk_coord(v.z)),
        None => (0, 0),
    }
}

/// World height of the lowest cells of the vertical layer `layer`.
pub open spec fn layer_base(layer: int) -> int {
    layer * VERTICAL_CHUNK_HEIGHT - HEIGHT_BELOW
}

/// Where the surface of a vertical layer is placed in the world: the
/// corner of the layer with the lowest coordinates.
#[derive(Copy, Clone, PartialEq, Eq, Debug, Structural)]
pub struct Placement {
    pub world_x: i64,
    pub world_y: i64,
    pub world_z: i64,
}

impl ChunkKey {
    /// Where the surface of this layer belongs.
    pub open spec fn placement_spec(self) -> Placement {
        Placement {
            world_x: (self.chunk_x * CHUNK_SIZE) as i64,
            world_y: layer_base(self.vertical_layer as int) as i64,
            world_z: (self.chunk_z * CHUNK_SIZE) as i64,
        }
    }

    /// Where the surface of this layer belongs: its chunk coordinates times
    /// `CHUNK_SIZE`, and the layer's number times `VERTICAL_CHUNK_HEIGHT`
    /// above the bottom of the world.
    pub fn placement(&self) -> (p: Placement)
        ensures
            p == self.placement_spec(),
            p.world_x == self.chunk_x * CHUNK_SIZE,
            p.world_y == layer_base(self.vertical_layer as int),
            p.world_z == self.chunk_z * CHUNK_SIZE,
    {
        let side: i64 = CHUNK_SIZE as i64;
        let tall: i64 = VERTICAL_CHUNK_HEIGHT as i64;
        Placement {
            world_x: (self.chunk_x as i64) * side,
            world_y: (self.vertical_layer as i64) * tall - (HEIGHT_BELOW as i64),
            world_z: (self.chunk_z as i64) * side,
        }
    }

    /// Whether this key comes before `other` when keys are ordered by
    /// `chunk_x`, among equals by `chunk_z`, among equals by
    /// `vertical_layer`.
    pub open spec fn before(self, other: ChunkKey) -> bool {
        self.chunk_x < other.chunk_x || (self.chunk_x == other.chunk_x && (self.chunk_z
            < other.chunk_z || (self.chunk_z == other.chunk_z && self.vertical_layer
            < other.vertical_layer)))
    }

    /// The number under which the key is stored: its three coordinates,
    /// each moved into `0 .. 2^32`, as the digits of a number in base 2^32.
    pub open spec fn code(self) -> int {
        ((self.chunk_x + 0x8000_0000) * 0x1_0000_0000 + (self.chunk_z + 0x8000_0000))
            * 0x1_0000_0000 + (self.vertical_layer + 0x8000_0000)
    }

    /// The number under which the key is stored.
    pub fn to_code(&self) -> (code: u128)
        ensures
            code == self.code(),
    {
        let a: u128 = (self.chunk_x as i64 + 0x8000_0000) as u128;
        let b: u128 = (self.chunk_z as i64 + 0x8000_0000) as u128;
        let c: u128 = (self.vertical_layer as i64 + 0x8000_0000) as u128;
        (a * 0x1_0000_0000 + b) * 0x1_0000_0000 + c
    }
}

/// Different keys have different codes.
pub proof fn lemma_code_injective(a: ChunkKey, b: ChunkKey)
    requires
        a.code() == b.code(),
    ensures
        a == b,
{
    let pa = (a.chunk_x + 0x8000_0000) * 0x1_0000_0000 + (a.chunk_z + 0x8000_0000);
    let pb = (b.chunk_x + 0x8000_0000) * 0x1_0000_0000 + (b.chunk_z + 0x8000_0000);
    assert(pa == pb);
}

} // verus!
