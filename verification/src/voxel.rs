//! The occupancy grid of one chunk.

use vstd::prelude::*;
use crate::constants::{CHUNK_CELLS, CHUNK_SIZE, HEIGHT_BELOW, LAYER_CELLS, TOTAL_HEIGHT};
use crate::terrain::TerrainSamples;

verus! {

/// What a cell holds.
#[derive(Copy, Clone, PartialEq, Eq, Debug, Structural)]
pub enum Voxel {
    Air,
    Solid,
}

/// Whether `(x, y, z)` names a cell of a chunk.
pub open spec fn in_chunk(x: int, y: int, z: int) -> bool {
    0 <= x < CHUNK_SIZE && 0 <= y < TOTAL_HEIGHT && 0 <= z < CHUNK_SIZE
}

/// Place of cell `(x, y, z)` in the row of cells: layers from the bottom up,
/// within a layer rows of growing z, within a row cells of growing x.
pub open spec fn cell_index(x: int, y: int, z: int) -> int {
    (y * CHUNK_SIZE + z) * CHUNK_SIZE + x
}

/// The x of the cell at place `i` of the row of cells.
pub open spec fn cell_x(i: int) -> int {
    i % (CHUNK_SIZE as int)
}

/// The y of the cell at place `i` of the row of cells.
pub open spec fn cell_y(i: int) -> int {
    i / (LAYER_CELLS as int)
}

/// The z of the cell at place `i` of the row of cells.
pub open spec fn cell_z(i: int) -> int {
    (i / (CHUNK_SIZE as int)) % (CHUNK_SIZE as int)
}

/// The cells of one chunk.
pub struct Chunk {
    data: Vec<Voxel>,
}

impl View for Chunk {
    type V = Seq<Voxel>;

    closed spec fn view(&self) -> Seq<Voxel> {
        self.data@
    }
}

impl Chunk {
    /// A chunk holds exactly `CHUNK_CELLS` cells.
    pub open spec fn wf(&self) -> bool {
        self@.len() == CHUNK_CELLS
    }

    /// The cell at `(x, y, z)`.
    pub open spec fn cell(&self, x: int, y: int, z: int) -> Voxel {
        self@[cell_index(x, y, z)]
    }

    /// Whether `(x, y, z)` is a cell of the chunk and holds `Solid`.
    pub open spec fn solid_at(&self, x: int, y: int, z: int) -> bool {
        in_chunk(x, y, z) && self.cell(x, y, z) == Voxel::Solid
    }

    /// A chunk of air.
    pub fn empty() -> (chunk: Chunk)
        ensures
            chunk.wf(),
            forall|i: int| 0 <= i < CHUNK_CELLS ==> chunk@[i] == Voxel::Air,
    {
        let mut data: Vec<Voxel> = Vec::with_capacity(CHUNK_CELLS);
        let mut i: usize = 0;
        while i < CHUNK_CELLS
            invariant
                i <= CHUNK_CELLS,
                data@.len() == i,
                forall|j: int| 0 <= j < i ==> data@[j] == Voxel::Air,
            decreases CHUNK_CELLS - i,
        {
            data.push(Voxel::Air);
            i += 1;
        }
        Chunk { data }
    }

    /// The chunk that the noise samples describe. Below height zero a cell
    /// is solid where the cave noise exceeds its threshold; from height zero
    /// up it is solid up to the surface height of its column. The result
    /// depends on the samples alone.
    pub fn new(samples: &TerrainSamples) -> (chunk: Chunk)
        requires
            samples@.wf(),
        ensures
            chunk.wf(),
            chunk@ == samples@.cells(),
    {
        let mut heights: Vec<usize> = Vec::with_capacity(LAYER_CELLS);
        let mut z: usize = 0;
        while z < CHUNK_SIZE
            invariant
                samples@.wf(),
                z <= CHUNK_SIZE,
                heights@.len() == z * CHUNK_SIZE,
                forall|j: int|
                    0 <= j < heights@.len() ==> heights@[j] == samples@.surface_height(
                        j % (CHUNK_SIZE as int),
                        j / (CHUNK_SIZE as int),
                    ),
            decreases CHUNK_SIZE - z,
        {
            let mut x: usize = 0;
            while x < CHUNK_SIZE
                invariant
                    samples@.wf(),
                    z < CHUNK_SIZE,
                    x <= CHUNK_SIZE,
                    heights@.len() == z * CHUNK_SIZE + x,
                    forall|j: int|
                        0 <= j < heights@.len() ==> heights@[j] == samples@.surface_height(
                            j % (CHUNK_SIZE as int),
                            j / (CHUNK_SIZE as int),
                        ),
                decreases CHUNK_SIZE - x,
            {
                heights.push(samples.surface_height(x, z));
                x += 1;
            }
            z += 1;
        }
        let mut data: Vec<Voxel> = Vec::with_capacity(CHUNK_CELLS);
        let mut y: usize = 0;
        while y < TOTAL_HEIGHT
            invariant
                samples@.wf(),
                y <= TOTAL_HEIGHT,
                heights@.len() == LAYER_CELLS,
                forall|j: int|
                    0 <= j < LAYER_CELLS ==> heights@[j] == samples@.surface_height(
                        j % (CHUNK_SIZE as int),
                        j / (CHUNK_SIZE as int),
                    ),
                data@.len() == y * LAYER_CELLS,
                forall|j: int| 0 <= j < data@.len() ==> data@[j] == samples@.cells()[j],
            decreases TOTAL_HEIGHT - y,
        {
            let mut z: usize = 0;
            while z < CHUNK_SIZE
                invariant
                    samples@.wf(),
                    y < TOTAL_HEIGHT,
                    z <= CHUNK_SIZE,
                    heights@.len() == LAYER_CELLS,
                    forall|j: int|
                        0 <= j < LAYER_CELLS ==> heights@[j] == samples@.surface_height(
                            j % (CHUNK_SIZE as int),
                            j / (CHUNK_SIZE as int),
                        ),
                    data@.len() == (y * CHUNK_SIZE + z) * CHUNK_SIZE,
                    forall|j: int| 0 <= j < data@.len() ==> data@[j] == samples@.cells()[j],
                decreases CHUNK_SIZE - z,
            {
                let mut x: usize = 0;
                while x < CHUNK_SIZE
                    invariant
                        samples@.wf(),
                        y < TOTAL_HEIGHT,
                        z < CHUNK_SIZE,
                        x <= CHUNK_SIZE,
                        heights@.len() == LAYER_CELLS,
                        forall|j: int|
                            0 <= j < LAYER_CELLS ==> heights@[j] == samples@.surface_height(
                                j % (CHUNK_SIZE as int),
                                j / (CHUNK_SIZE as int),
                            ),
                        data@.len() == (y * CHUNK_SIZE + z) * CHUNK_SIZE + x,
                        forall|j: int| 0 <= j < data@.len() ==> data@[j] == samples@.cells()[j],
                    decreases CHUNK_SIZE - x,
                {
                    let solid = if y < HEIGHT_BELOW {
                        samples.cave_solid(x, y, z)
                    } else {
                        y - HEIGHT_BELOW <= heights[z * CHUNK_SIZE + x]
                    };
                    let voxel = if solid {
                        Voxel::Solid
                    } else {
                        Voxel::Air
                    };
                    proof {
                        let j = (y * CHUNK_SIZE + z) * CHUNK_SIZE + x;
                        assert(j % (CHUNK_SIZE as int) == x);
                        assert(j / (LAYER_CELLS as int) == y);
                        assert((j / (CHUNK_SIZE as int)) % (CHUNK_SIZE as int) == z);
                        let c = z * CHUNK_SIZE + x;
                        assert(c % (CHUNK_SIZE as int) == x);
                        assert(c / (CHUNK_SIZE as int) == z);
                        assert(voxel == samples@.cell(x as int, y as int, z as int));
                    }
                    data.push(voxel);
                    x += 1;
                }
                z += 1;
            }
            y += 1;
        }
        assert(data@ =~= samples@.cells());
        Chunk { data }
    }

    /// A second chunk with the same cells.
    pub fn duplicate(&self) -> (copy: Chunk)
        ensures
            copy@ == self@,
    {
        let data = self.data.clone();
        assert(data@ =~= self.data@);
        Chunk { data }
    }

    /// Takes the cells of a chunk in their order; `None` unless there are
    /// exactly `CHUNK_CELLS` of them.
    pub fn from_cells(cells: Vec<Voxel>) -> (chunk: Option<Chunk>)
        ensures
            chunk is Some <==> cells@.len() == CHUNK_CELLS,
            chunk matches Some(c) ==> c@ == cells@ && c.wf(),
    {
        if cells.len() == CHUNK_CELLS {
            Some(Chunk { data: cells })
        } else {
            None
        }
    }

    /// Writes the cell at `(x, y, z)` and returns `true`; outside the chunk
    /// nothing changes and the result is `false`.
    pub fn set(&mut self, x: usize, y: usize, z: usize, voxel: Voxel) -> (done: bool)
        requires
            old(self).wf(),
        ensures
            final(self).wf(),
            done == in_chunk(x as int, y as int, z as int),
            final(self)@ == if done {
                old(self)@.update(cell_index(x as int, y as int, z as int), voxel)
            } else {
                old(self)@
            },
    {
        if x < CHUNK_SIZE && y < TOTAL_HEIGHT && z < CHUNK_SIZE {
            self.data.set((y * CHUNK_SIZE + z) * CHUNK_SIZE + x, voxel);
            true
        } else {
            false
        }
    }

    /// Reads the cell at `(x, y, z)`; `None` outside the chunk.
    pub fn get(&self, x: usize, y: usize, z: usize) -> (cell: Option<Voxel>)
        requires
            self.wf(),
        ensures
            cell == if in_chunk(x as int, y as int, z as int) {
                Some(self.cell(x as int, y as int, z as int))
            } else {
                None
            },
    {
        if x < CHUNK_SIZE && y < TOTAL_HEIGHT && z < CHUNK_SIZE {
            Some(self.data[(y * CHUNK_SIZE + z) * CHUNK_SIZE + x])
        } else {
            None
        }
    }
}

} // verus!
