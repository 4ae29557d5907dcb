//! From noise samples to the cells of a chunk.
//!
//! The noise fields themselves are sampled by the caller. A sample is a
//! fixed-point number: `NOISE_ONE` stands for 1, and the fields range over
//! about -1 to 1. Everything decided from the samples is decided here.

use vstd::prelude::*;
use crate::constants::{CHUNK_CELLS, CHUNK_SIZE, HEIGHT_ABOVE, HEIGHT_BELOW, LAYER_CELLS};
use crate::voxel::{cell_x, cell_y, cell_z, Voxel};

verus! {

/// The fixed-point value of 1.
pub const NOISE_ONE: i32 = 65536;

/// Side of the square of surface samples: the chunk's columns and one more
/// column on each side.
pub const SURFACE_SIDE: usize = 22;

/// Number of surface samples of a chunk.
pub const SURFACE_SAMPLES: usize = 484;

/// Number of cave samples of a chunk: one for each cell below height zero.
pub const CAVE_SAMPLES: usize = 12800;

/// The seed of a world.
#[derive(Copy, Clone, PartialEq, Eq, Debug, Structural)]
pub struct WorldSeed(pub u64);

impl Default for WorldSeed {
    fn default() -> (seed: WorldSeed)
        ensures
            seed.0 == 12345,
    {
        WorldSeed(12345)
    }
}

impl WorldSeed {
    /// Seed of the surface noise field: the low 32 bits of the world seed.
    pub fn surface_seed(&self) -> (seed: u32)
        ensures
            seed == self.0 % 0x1_0000_0000,
    {
        let low: u64 = self.0 % 0x1_0000_0000;
        low as u32
    }

    /// Seed of the cave noise field: the low 32 bits of the world seed plus
    /// one, the sum taken modulo 2^64.
    pub fn cave_seed(&self) -> (seed: u32)
        ensures
            seed == ((self.0 + 1) % 0x1_0000_0000_0000_0000) % 0x1_0000_0000,
    {
        let next: u64 = if self.0 == u64::MAX {
            0
        } else {
            self.0 + 1
        };
        let low: u64 = next % 0x1_0000_0000;
        low as u32
    }
}

/// World coordinate, along x or z, of the column `local` of chunk `chunk`.
pub open spec fn world_coord_spec(chunk: int, local: int) -> int {
    chunk * CHUNK_SIZE + local
}

/// World coordinate, along x or z, of the column `local` of chunk `chunk`.
/// Columns left of a chunk have negative `local`.
pub fn world_coord(chunk: i32, local: i32) -> (w: i64)
    ensures
        w == world_coord_spec(chunk as int, local as int),
{
    (chunk as i64) * (CHUNK_SIZE as i64) + (local as i64)
}

/// World height of the layer `y` of a chunk: layer `HEIGHT_BELOW` is at
/// height zero.
pub open spec fn world_height_spec(y: int) -> int {
    y - HEIGHT_BELOW
}

/// The world column of surface sample number `i` of the chunk at
/// `(chunk_x, chunk_z)`: the samples run over `SURFACE_SIDE` rows of growing
/// z, each of `SURFACE_SIDE` columns of growing x, from one column before
/// the chunk on both axes.
pub open spec fn surface_point(chunk_x: int, chunk_z: int, i: int) -> (i64, i64) {
    (
        world_coord_spec(chunk_x, i % (SURFACE_SIDE as int) - 1) as i64,
        world_coord_spec(chunk_z, i / (SURFACE_SIDE as int) - 1) as i64,
    )
}

/// The world cell of cave sample number `i` of the chunk at
/// `(chunk_x, chunk_z)`: the samples run over the cells below height zero,
/// in the order of the cells of a chunk.
pub open spec fn cave_point(chunk_x: int, chunk_z: int, i: int) -> (i64, i64, i64) {
    (
        world_coord_spec(chunk_x, cell_x(i)) as i64,
        world_height_spec(cell_y(i)) as i64,
        world_coord_spec(chunk_z, cell_z(i)) as i64,
    )
}

/// Where the surface noise is sampled for the chunk at
/// `(chunk_x, chunk_z)`: sample number `i` belongs to the world column
/// `(x, z)` that entry `i` names. The columns are those of the chunk and
/// one more on each side, each with its fixed place in the world, left of
/// zero as right of it.
pub fn surface_sample_points(chunk_x: i32, chunk_z: i32) -> (points: Vec<(i64, i64)>)
    ensures
        points@.len() == SURFACE_SAMPLES,
        forall|i: int|
            0 <= i < SURFACE_SAMPLES
                ==> #[trigger] points@[i] == surface_point(chunk_x as int, chunk_z as int, i),
{
    let mut points: Vec<(i64, i64)> = Vec::with_capacity(SURFACE_SAMPLES);
    let side: i32 = SURFACE_SIDE as i32;
    let mut j: i32 = 0;
    while j < side
        invariant
            side == SURFACE_SIDE,
            0 <= j <= side,
            points@.len() == j * SURFACE_SIDE,
            forall|i: int|
                0 <= i < points@.len()
                    ==> #[trigger] points@[i] == surface_point(chunk_x as int, chunk_z as int, i),
        decreases side - j,
    {
        let mut i: i32 = 0;
        while i < side
            invariant
                side == SURFACE_SIDE,
                0 <= j < side,
                0 <= i <= side,
                points@.len() == j * SURFACE_SIDE + i,
                forall|i: int|
                    0 <= i < points@.len()
                        ==> #[trigger] points@[i]
                            == surface_point(chunk_x as int, chunk_z as int, i),
            decreases side - i,
        {
            proof {
                let at = j * SURFACE_SIDE + i;
                assert(at % (SURFACE_SIDE as int) == i);
                assert(at / (SURFACE_SIDE as int) == j);
            }
            points.push((world_coord(chunk_x, i - 1), world_coord(chunk_z, j - 1)));
            i += 1;
        }
        j += 1;
    }
    points
}

/// Where the cave noise is sampled for the chunk at `(chunk_x, chunk_z)`:
/// sample number `i` belongs to the world cell `(x, y, z)` that entry `i`
/// names. The cells are those of the chunk below height zero, in the order
/// of the cells of a chunk.
pub fn cave_sample_points(chunk_x: i32, chunk_z: i32) -> (points: Vec<(i64, i64, i64)>)
    ensures
        points@.len() == CAVE_SAMPLES,
        forall|i: int|
            0 <= i < CAVE_SAMPLES
                ==> #[trigger] points@[i] == cave_point(chunk_x as int, chunk_z as int, i),
{
    let mut points: Vec<(i64, i64, i64)> = Vec::with_capacity(CAVE_SAMPLES);
    let side: i32 = CHUNK_SIZE as i32;
    let depth: i32 = HEIGHT_BELOW as i32;
    let mut y: i32 = 0;
    while y < depth
        invariant
            side == CHUNK_SIZE,
            depth == HEIGHT_BELOW,
            0 <= y <= depth,
            points@.len() == y * LAYER_CELLS,
            forall|i: int|
                0 <= i < points@.len()
                    ==> #[trigger] points@[i] == cave_point(chunk_x as int, chunk_z as int, i),
        decreases depth - y,
    {
        let mut z: i32 = 0;
        while z < side
            invariant
                side == CHUNK_SIZE,
                depth == HEIGHT_BELOW,
                0 <= y < depth,
                0 <= z <= side,
                points@.len() == (y * CHUNK_SIZE + z) * CHUNK_SIZE,
                forall|i: int|
                    0 <= i < points@.len()
                        ==> #[trigger] points@[i] == cave_point(chunk_x as int, chunk_z as int, i),
            decreases side - z,
        {
            let mut x: i32 = 0;
            while x < side
                invariant
                    side == CHUNK_SIZE,
                    depth == HEIGHT_BELOW,
                    0 <= y < depth,
                    0 <= z < side,
                    0 <= x <= side,
                    points@.len() == (y * CHUNK_SIZE + z) * CHUNK_SIZE + x,
                    forall|i: int|
                        0 <= i < points@.len()
                            ==> #[trigger] points@[i]
                                == cave_point(chunk_x as int, chunk_z as int, i),
                decreases side - x,
            {
                proof {
                    let at = (y * CHUNK_SIZE + z) * CHUNK_SIZE + x;
                    assert(at % (CHUNK_SIZE as int) == x);
                    assert(at / (LAYER_CELLS as int) == y);
                    assert((at / (CHUNK_SIZE as int)) % (CHUNK_SIZE as int) == z);
                }
                points.push(
                    (world_coord(chunk_x, x), (y - depth) as i64, world_coord(chunk_z, z)),
                );
                x += 1;
            }
            z += 1;
        }
        y += 1;
    }
    points
}

/// The samples a chunk is made from, as mathematical sequences.
pub struct TerrainField {
    /// Surface noise, `SURFACE_SIDE` rows of growing z, each of
    /// `SURFACE_SIDE` samples of growing x, starting one column before the
    /// chunk on both axes.
    pub surface: Seq<i32>,
    /// Cave noise, one sample for each cell below height zero, in the order
    /// of the cells of a chunk.
    pub cave: Seq<i32>,
}

impl TerrainField {
    pub open spec fn wf(self) -> bool {
        self.surface.len() == SURFACE_SAMPLES && self.cave.len() == CAVE_SAMPLES
    }

    /// Surface sample of column `(x, z)`, for `-1 <= x, z <= CHUNK_SIZE`.
    pub open spec fn surface_at(self, x: int, z: int) -> int {
        self.surface[(z + 1) * SURFACE_SIDE + (x + 1)] as int
    }

    /// Cave sample of cell `(x, y, z)`, for `y` below `HEIGHT_BELOW`.
    pub open spec fn cave_at(self, x: int, y: int, z: int) -> int {
        self.cave[(y * CHUNK_SIZE + z) * CHUNK_SIZE + x] as int
    }

    /// Sum of the five samples that are averaged for column `(x, z)`: its
    /// own and those of the four columns one step away along an axis.
    pub open spec fn blur_sum(self, x: int, z: int) -> int {
        self.surface_at(x, z) + self.surface_at(x + 1, z) + self.surface_at(x - 1, z)
            + self.surface_at(x, z + 1) + self.surface_at(x, z - 1)
    }

    /// Height of the surface in column `(x, z)`, in cells above height zero.
    pub open spec fn surface_height(self, x: int, z: int) -> int {
        height_of_sum(self.blur_sum(x, z))
    }

    /// What cell `(x, y, z)` of the chunk holds.
    pub open spec fn cell(self, x: int, y: int, z: int) -> Voxel {
        if y < HEIGHT_BELOW {
            if cave_is_solid(self.cave_at(x, y, z)) {
                Voxel::Solid
            } else {
                Voxel::Air
            }
        } else if y - HEIGHT_BELOW <= self.surface_height(x, z) {
            Voxel::Solid
        } else {
            Voxel::Air
        }
    }

    /// The cells of the chunk, in their order.
    pub open spec fn cells(self) -> Seq<Voxel> {
        Seq::new(
            CHUNK_CELLS as nat,
            |i: int| self.cell(cell_x(i), cell_y(i), cell_z(i)),
        )
    }
}

/// Surface height for a sum of five samples. The mean of the five, a value
/// `v` between -1 and 1, is mapped to `(v + 1) / 2 * HEIGHT_ABOVE`, rounded
/// down and held within `0 ..= HEIGHT_ABOVE - 1`.
pub open spec fn height_of_sum(sum: int) -> int {
    let raw = (sum + 5 * NOISE_ONE) * HEIGHT_ABOVE / (10 * NOISE_ONE);
    if raw < 0 {
        0
    } else if raw > HEIGHT_ABOVE - 1 {
        HEIGHT_ABOVE - 1
    } else {
        raw
    }
}

/// The surface height lies within `0 ..= HEIGHT_ABOVE - 1` whatever the
/// samples are, and grows with them.
pub proof fn lemma_height_of_sum(low: int, high: int)
    requires
        low <= high,
    ensures
        0 <= height_of_sum(low) <= height_of_sum(high) < HEIGHT_ABOVE,
{
    let a = (low + 5 * NOISE_ONE) * HEIGHT_ABOVE;
    let b = (high + 5 * NOISE_ONE) * HEIGHT_ABOVE;
    assert(a <= b);
    assert(a / 655360 <= b / 655360);
}

/// A cell below height zero is solid where the cave noise exceeds 0.3.
pub open spec fn cave_is_solid(sample: int) -> bool {
    10 * sample > 3 * NOISE_ONE
}

/// The cells of a chunk depend on its samples alone: two chunks made from
/// the same samples hold the same cells, whenever and wherever they are
/// made.
pub proof fn lemma_same_samples_same_cells(
    first: TerrainField,
    second: TerrainField,
    a: Seq<Voxel>,
    b: Seq<Voxel>,
)
    requires
        first.surface == second.surface,
        first.cave == second.cave,
        a == first.cells(),
        b == second.cells(),
    ensures
        a == b,
{
}

/// The noise samples of one chunk.
pub struct TerrainSamples {
    surface: Vec<i32>,
    cave: Vec<i32>,
}

impl View for TerrainSamples {
    type V = TerrainField;

    closed spec fn view(&self) -> TerrainField {
        TerrainField { surface: self.surface@, cave: self.cave@ }
    }
}

impl TerrainSamples {
    /// Takes the two sample fields; `None` unless both have the length
    /// that a chunk needs.
    pub fn new(surface: Vec<i32>, cave: Vec<i32>) -> (samples: Option<TerrainSamples>)
        ensures
            samples is Some <==> surface@.len() == SURFACE_SAMPLES && cave@.len() == CAVE_SAMPLES,
            samples matches Some(s) ==> s@.surface == surface@ && s@.cave == cave@ && s@.wf(),
    {
        if surface.len() == SURFACE_SAMPLES && cave.len() == CAVE_SAMPLES {
            Some(TerrainSamples { surface, cave })
        } else {
            None
        }
    }

    /// Height of the surface in column `(x, z)` of the chunk.
    pub fn surface_height(&self, x: usize, z: usize) -> (h: usize)
        requires
            self@.wf(),
            x < CHUNK_SIZE,
            z < CHUNK_SIZE,
        ensures
            h == self@.surface_height(x as int, z as int),
            h < HEIGHT_ABOVE,
    {
        let row: usize = (z + 1) * SURFACE_SIDE;
        let center: i64 = self.surface[row + x + 1] as i64;
        let right: i64 = self.surface[row + x + 2] as i64;
        let left: i64 = self.surface[row + x] as i64;
        let front: i64 = self.surface[row + SURFACE_SIDE + x + 1] as i64;
        let back: i64 = self.surface[row - SURFACE_SIDE + x + 1] as i64;
        let sum: i64 = center + right + left + front + back;
        let span: i64 = HEIGHT_ABOVE as i64;
        assert(span == 64);
        let scaled: i64 = (sum + 5 * (NOISE_ONE as i64)) * span;
        if scaled <= 0 {
            0
        } else {
            let raw: i64 = scaled / (10 * (NOISE_ONE as i64));
            if raw > (HEIGHT_ABOVE as i64) - 1 {
                HEIGHT_ABOVE - 1
            } else {
                raw as usize
            }
        }
    }

    /// Whether the cell `(x, y, z)` below height zero is solid rock.
    pub fn cave_solid(&self, x: usize, y: usize, z: usize) -> (solid: bool)
        requires
            self@.wf(),
            x < CHUNK_SIZE,
            y < HEIGHT_BELOW,
            z < CHUNK_SIZE,
        ensures
            solid == cave_is_solid(self@.cave_at(x as int, y as int, z as int)),
    {
        let sample: i64 = self.cave[(y * CHUNK_SIZE + z) * CHUNK_SIZE + x] as i64;
        10 * sample > 3 * (NOISE_ONE as i64)
    }
}

} // verus!
