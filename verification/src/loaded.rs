//! The chunks that are at hand when a chunk is meshed, found by column.

use std::collections::HashMap;
use vstd::prelude::*;
use crate::constants::{CHUNK_SIZE, TOTAL_HEIGHT};
use crate::voxel::{Chunk, Voxel};

verus! {

/// Whether `v` is a value of `i32`.
pub open spec fn fits_i32(v: int) -> bool {
    i32::MIN <= v <= i32::MAX
}

/// The number under which the column `(chunk_x, chunk_z)` is stored: the
/// two coordinates, each moved into `0 .. 2^32`, as the digits of a number
/// in base 2^32.
pub open spec fn column_code(chunk_x: int, chunk_z: int) -> int {
    (chunk_x + 0x8000_0000) * 0x1_0000_0000 + (chunk_z + 0x8000_0000)
}

/// Different columns have different codes.
pub proof fn lemma_column_code_injective(ax: int, az: int, bx: int, bz: int)
    requires
        fits_i32(ax),
        fits_i32(az),
        fits_i32(bx),
        fits_i32(bz),
        column_code(ax, az) == column_code(bx, bz),
    ensures
        ax == bx,
        az == bz,
{
}

/// The number under which the column `(chunk_x, chunk_z)` is stored.
pub fn column_key(chunk_x: i32, chunk_z: i32) -> (code: u64)
    ensures
        code == column_code(chunk_x as int, chunk_z as int),
{
    let hi: u64 = (chunk_x as i64 + 0x8000_0000) as u64;
    let lo: u64 = (chunk_z as i64 + 0x8000_0000) as u64;
    hi * 0x1_0000_0000 + lo
}

/// Whether the world cell `(wx, wy, wz)` is known to be solid: the chunk of
/// its column is at hand and the cell in it holds `Solid`. A cell of a
/// column that is not at hand, or above or below the world, counts as air.
pub open spec fn world_solid(chunks: Map<(int, int), Chunk>, wx: int, wy: int, wz: int) -> bool {
    let column = (wx / (CHUNK_SIZE as int), wz / (CHUNK_SIZE as int));
    chunks.contains_key(column) && chunks[column].solid_at(
        wx % (CHUNK_SIZE as int),
        wy,
        wz % (CHUNK_SIZE as int),
    )
}

/// Chunks by column.
pub struct LoadedChunks {
    chunks: HashMap<u64, Chunk>,
}

impl View for LoadedChunks {
    type V = Map<(int, int), Chunk>;

    closed spec fn view(&self) -> Map<(int, int), Chunk> {
        Map::new(
            |c: (int, int)|
                fits_i32(c.0) && fits_i32(c.1) && self.chunks@.contains_key(
                    column_code(c.0, c.1) as u64,
                ),
            |c: (int, int)| self.chunks@[column_code(c.0, c.1) as u64],
        )
    }
}

impl LoadedChunks {
    /// Every chunk held is well formed, and columns lie within `i32`.
    pub open spec fn wf(&self) -> bool {
        forall|c: (int, int)| #[trigger]
            self@.contains_key(c) ==> self@[c].wf() && fits_i32(c.0) && fits_i32(c.1)
    }

    /// No chunks.
    pub fn new() -> (loaded: LoadedChunks)
        ensures
            loaded.wf(),
            loaded@ == Map::<(int, int), Chunk>::empty(),
    {
        let loaded = LoadedChunks { chunks: HashMap::new() };
        assert(loaded@ =~= Map::<(int, int), Chunk>::empty());
        loaded
    }

    /// Puts `chunk` at column `(chunk_x, chunk_z)`, in place of what was
    /// there.
    pub fn insert(&mut self, chunk_x: i32, chunk_z: i32, chunk: Chunk)
        requires
            old(self).wf(),
            chunk.wf(),
        ensures
            final(self).wf(),
            final(self)@ == old(self)@.insert((chunk_x as int, chunk_z as int), chunk),
    {
        let code = column_key(chunk_x, chunk_z);
        self.chunks.insert(code, chunk);
        proof {
            let after = old(self)@.insert((chunk_x as int, chunk_z as int), chunk);
            assert forall|c: (int, int)| self@.contains_key(c) == after.contains_key(c) by {
                if fits_i32(c.0) && fits_i32(c.1) && column_code(c.0, c.1) == code {
                    lemma_column_code_injective(c.0, c.1, chunk_x as int, chunk_z as int);
                }
            }
            assert forall|c: (int, int)| self@.contains_key(c) implies self@[c] == after[c] by {
                if column_code(c.0, c.1) == code {
                    lemma_column_code_injective(c.0, c.1, chunk_x as int, chunk_z as int);
                }
            }
            assert(self@ =~= after);
        }
    }

    /// Takes the chunk of column `(chunk_x, chunk_z)` out, if there is one.
    pub fn remove(&mut self, chunk_x: i32, chunk_z: i32) -> (taken: Option<Chunk>)
        requires
            old(self).wf(),
        ensures
            final(self).wf(),
            final(self)@ == old(self)@.remove((chunk_x as int, chunk_z as int)),
            taken == if old(self)@.contains_key((chunk_x as int, chunk_z as int)) {
                Some(old(self)@[(chunk_x as int, chunk_z as int)])
            } else {
                None
            },
    {
        let code = column_key(chunk_x, chunk_z);
        let taken = self.chunks.remove(&code);
        proof {
            let after = old(self)@.remove((chunk_x as int, chunk_z as int));
            assert forall|c: (int, int)| self@.contains_key(c) == after.contains_key(c) by {
                if fits_i32(c.0) && fits_i32(c.1) && column_code(c.0, c.1) == code {
                    lemma_column_code_injective(c.0, c.1, chunk_x as int, chunk_z as int);
                }
            }
            assert(self@ =~= after);
        }
        taken
    }

    /// The chunk of column `(chunk_x, chunk_z)`, if it is at hand.
    pub fn get(&self, chunk_x: i32, chunk_z: i32) -> (found: Option<&Chunk>)
        ensures
            found == if self@.contains_key((chunk_x as int, chunk_z as int)) {
                Some(&self@[(chunk_x as int, chunk_z as int)])
            } else {
                None
            },
    {
        let code = column_key(chunk_x, chunk_z);
        self.chunks.get(&code)
    }

    /// Whether the world cell `(wx, wy, wz)` is known to be solid.
    pub fn is_solid(&self, wx: i64, wy: i64, wz: i64) -> (solid: bool)
        requires
            self.wf(),
        ensures
            solid == world_solid(self@, wx as int, wy as int, wz as int),
    {
        let size: i64 = CHUNK_SIZE as i64;
        let lx: i64 = wx % size;
        let lz: i64 = wz % size;
        let (cx, lx): (i64, i64) = if lx < 0 {
            (wx / size - 1, lx + size)
        } else {
            (wx / size, lx)
        };
        let (cz, lz): (i64, i64) = if lz < 0 {
            (wz / size - 1, lz + size)
        } else {
            (wz / size, lz)
        };
        assert(cx == (wx as int) / (CHUNK_SIZE as int) && lx == (wx as int) % (CHUNK_SIZE as int));
        assert(cz == (wz as int) / (CHUNK_SIZE as int) && lz == (wz as int) % (CHUNK_SIZE as int));
        if cx < i32::MIN as i64 || cx > i32::MAX as i64 || cz < i32::MIN as i64 || cz
            > i32::MAX as i64 || wy < 0 || wy >= TOTAL_HEIGHT as i64 {
            return false;
        }
        match self.get(cx as i32, cz as i32) {
            Some(chunk) => {
                match chunk.get(lx as usize, wy as usize, lz as usize) {
                    Some(Voxel::Solid) => true,
                    _ => false,
                }
            },
            None => false,
        }
    }
}

} // verus!
