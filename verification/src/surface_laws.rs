//! What holds of every surface that the mesher builds.

use vstd::prelude::*;
use crate::constants::{CHUNK_SIZE, TOTAL_HEIGHT};
use crate::face::CubeFace;
use crate::loaded::world_solid;
use crate::face::face_at;
use crate::mesher::{lemma_slot_of_number, slot_at, slot_number, FaceSlot, MeshScope};
use crate::seq_facts::lemma_filter_keeps_distinct;
use crate::voxel::{Chunk, Voxel};

verus! {

/// Every face of the surface is a face of a solid cell of the layers drawn,
/// with nothing known to hide it.
pub proof fn lemma_faces_drawn_show(scope: MeshScope, k: int)
    requires
        scope.wf(),
        0 <= k < scope.visible().len(),
    ensures
        scope.shows(scope.visible()[k]),
        0 <= scope.visible()[k].x < CHUNK_SIZE,
        scope.y_start <= scope.visible()[k].y < scope.y_end,
        0 <= scope.visible()[k].z < CHUNK_SIZE,
{
    let slots = scope.slots();
    let slot = scope.visible()[k];
    slots.lemma_filter_pred(scope.shown(), k);
    assert(scope.visible().contains(slot));
    slots.lemma_filter_contains_rev(scope.shown(), slot);
    let i = choose|i: int| 0 <= i < slots.len() && slots[i] == slot;
    assert(i / 2400 < scope.y_end - scope.y_start);
}

/// Faces with different numbers are different faces.
pub proof fn lemma_slot_at_injective(y_start: int, i: int, j: int)
    requires
        0 <= i,
        0 <= j,
        slot_at(y_start, i) == slot_at(y_start, j),
    ensures
        i == j,
{
    assert(face_at(i % 6) == face_at(j % 6));
    assert(i % 6 == j % 6);
    let a = i / 6;
    let b = j / 6;
    assert(a % 20 == b % 20);
    assert(i / 120 == a / 20 && j / 120 == b / 20);
    assert((a / 20) % 20 == (b / 20) % 20);
    assert(i / 2400 == a / 400 && j / 2400 == b / 400);
    assert(a / 400 == (a / 20) / 20 && b / 400 == (b / 20) / 20);
}

/// No face is drawn twice.
pub proof fn lemma_no_face_twice(scope: MeshScope)
    requires
        scope.wf(),
    ensures
        scope.visible().no_duplicates(),
{
    let slots = scope.slots();
    assert forall|i: int, j: int| 0 <= i < slots.len() && 0 <= j < slots.len() && i != j
        implies slots[i] != slots[j] by {
        if slots[i] == slots[j] {
            lemma_slot_at_injective(scope.y_start, i, j);
        }
    }
    lemma_filter_keeps_distinct(slots, scope.shown());
}

/// No face that shows is left out: every face of a cell of the layers
/// drawn that shows is among the faces of the surface.
pub proof fn lemma_every_showing_face_is_drawn(scope: MeshScope, x: int, y: int, z: int, f: int)
    requires
        scope.wf(),
        0 <= x < CHUNK_SIZE,
        scope.y_start <= y < scope.y_end,
        0 <= z < CHUNK_SIZE,
        0 <= f < 6,
        scope.shows(FaceSlot { x, y, z, face: face_at(f) }),
    ensures
        scope.visible().contains(FaceSlot { x, y, z, face: face_at(f) }),
{
    let n = slot_number(scope.y_start, x, y, z, f);
    lemma_slot_of_number(scope.y_start, x, y, z, f);
    assert((y - scope.y_start + 1) * 2400 <= (scope.y_end - scope.y_start) * 2400);
    scope.slots().lemma_filter_contains(scope.shown(), n);
}

/// Whether a solid cell lies behind each of the six faces of the cell
/// `(x, y, z)`, by the rule that the mesher goes by.
pub open spec fn enclosed(scope: MeshScope, x: int, y: int, z: int) -> bool {
    forall|face: CubeFace| !#[trigger] scope.open_face(FaceSlot { x, y, z, face })
}

/// A cell with a solid cell behind each of its six faces gives the surface
/// no face.
pub proof fn lemma_enclosed_cell_has_no_face(scope: MeshScope, x: int, y: int, z: int, k: int)
    requires
        scope.wf(),
        enclosed(scope, x, y, z),
        0 <= k < scope.visible().len(),
    ensures
        !(scope.visible()[k].x == x && scope.visible()[k].y == y && scope.visible()[k].z == z),
{
    let slot = scope.visible()[k];
    lemma_faces_drawn_show(scope, k);
    if slot.x == x && slot.y == y && slot.z == z {
        assert(slot == FaceSlot { x, y, z, face: slot.face });
        assert(!scope.open_face(FaceSlot { x, y, z, face: slot.face }));
    }
}

/// Layers that hold no solid cell have an empty surface: no position, no
/// normal and no index.
pub proof fn lemma_air_has_no_surface(scope: MeshScope)
    requires
        scope.wf(),
        forall|x: int, y: int, z: int|
            0 <= x < CHUNK_SIZE && scope.y_start <= y < scope.y_end && 0 <= z < CHUNK_SIZE
                ==> #[trigger] scope.chunk.cell(x, y, z) == Voxel::Air,
    ensures
        scope.visible().len() == 0,
        scope.mesh().positions.len() == 0,
        scope.mesh().normals.len() == 0,
        scope.mesh().indices.len() == 0,
{
    if scope.visible().len() > 0 {
        lemma_faces_drawn_show(scope, 0);
        let slot = scope.visible()[0];
        assert(scope.chunk.cell(slot.x, slot.y, slot.z) == Voxel::Air);
    }
}

/// The cell `(x, y, z)` of the grid that two chunks make when `east` is put
/// next to `west` along x: `x` runs over `0 .. 2 * CHUNK_SIZE`.
pub open spec fn joined_along_x(west: Chunk, east: Chunk, x: int, y: int, z: int) -> Voxel {
    if x < CHUNK_SIZE {
        west.cell(x, y, z)
    } else {
        east.cell(x - CHUNK_SIZE, y, z)
    }
}

/// The mesher's rule on the joined grid of `scope.chunk` and the chunk
/// `east` next to it along x: behind a face inside the joined grid the cell
/// itself decides; outside the layers drawn there is air; across a side of
/// the joined grid the chunks around decide.
pub open spec fn open_face_joined_along_x(scope: MeshScope, east: Chunk, slot: FaceSlot) -> bool {
    let n = crate::face::face_normal(slot.face);
    let (nx, ny, nz) = (slot.x + n.0, slot.y + n.1, slot.z + n.2);
    if ny < scope.y_start || ny >= scope.y_end {
        true
    } else if 0 <= nx < 2 * CHUNK_SIZE && 0 <= nz < CHUNK_SIZE {
        joined_along_x(scope.chunk, east, nx, ny, nz) == Voxel::Air
    } else {
        !world_solid(
            scope.around,
            scope.chunk_x * CHUNK_SIZE + nx,
            ny,
            scope.chunk_z * CHUNK_SIZE + nz,
        )
    }
}

/// Two chunks side by side along x, both at hand: each chunk meshed on its
/// own, with the other looked up across the shared side, draws exactly the
/// faces that the two draw when they are joined into one grid and meshed
/// together. So no face on the shared side is drawn twice or left out.
pub proof fn lemma_shared_side_along_x(west: MeshScope, east: MeshScope, slot: FaceSlot)
    requires
        west.wf(),
        east.wf(),
        west.around == east.around,
        west.y_start == east.y_start,
        west.y_end == east.y_end,
        east.chunk_x == west.chunk_x + 1,
        east.chunk_z == west.chunk_z,
        west.around.contains_key((west.chunk_x, west.chunk_z)),
        west.around.contains_key((east.chunk_x, east.chunk_z)),
        west.around[(west.chunk_x, west.chunk_z)] == west.chunk,
        west.around[(east.chunk_x, east.chunk_z)] == east.chunk,
        0 <= slot.x < CHUNK_SIZE,
        0 <= slot.z < CHUNK_SIZE,
        west.y_start <= slot.y < west.y_end,
    ensures
        west.open_face(slot) == open_face_joined_along_x(west, east.chunk, slot),
        east.open_face(slot) == open_face_joined_along_x(
            west,
            east.chunk,
            FaceSlot { x: slot.x + CHUNK_SIZE, y: slot.y, z: slot.z, face: slot.face },
        ),
{
    let n = crate::face::face_normal(slot.face);
    let (nx, ny, nz) = (slot.x + n.0, slot.y + n.1, slot.z + n.2);
    let cx = west.chunk_x;
    let cz = west.chunk_z;
    if west.y_start <= ny < west.y_end && 0 <= nz < CHUNK_SIZE {
        if nx == CHUNK_SIZE {
            assert((cx * 20 + nx) / 20 == cx + 1 && (cx * 20 + nx) % 20 == 0);
            assert((cz * 20 + nz) / 20 == cz && (cz * 20 + nz) % 20 == nz);
        }
        if nx == -1 {
            assert(((cx + 1) * 20 + nx) / 20 == cx && ((cx + 1) * 20 + nx) % 20 == 19);
            assert((cz * 20 + nz) / 20 == cz && (cz * 20 + nz) % 20 == nz);
        }
    }
}

/// The cell `(x, y, z)` of the grid that two chunks make when `north` is
/// put next to `south` along z: `z` runs over `0 .. 2 * CHUNK_SIZE`.
pub open spec fn joined_along_z(south: Chunk, north: Chunk, x: int, y: int, z: int) -> Voxel {
    if z < CHUNK_SIZE {
        south.cell(x, y, z)
    } else {
        north.cell(x, y, z - CHUNK_SIZE)
    }
}

/// The mesher's rule on the joined grid of `scope.chunk` and the chunk
/// `north` next to it along z.
pub open spec fn open_face_joined_along_z(scope: MeshScope, north: Chunk, slot: FaceSlot) -> bool {
    let n = crate::face::face_normal(slot.face);
    let (nx, ny, nz) = (slot.x + n.0, slot.y + n.1, slot.z + n.2);
    if ny < scope.y_start || ny >= scope.y_end {
        true
    } else if 0 <= nx < CHUNK_SIZE && 0 <= nz < 2 * CHUNK_SIZE {
        joined_along_z(scope.chunk, north, nx, ny, nz) == Voxel::Air
    } else {
        !world_solid(
            scope.around,
            scope.chunk_x * CHUNK_SIZE + nx,
            ny,
            scope.chunk_z * CHUNK_SIZE + nz,
        )
    }
}

/// Two chunks side by side along z, both at hand: each chunk meshed on its
/// own draws exactly the faces that the two draw when they are joined into
/// one grid and meshed together.
pub proof fn lemma_shared_side_along_z(south: MeshScope, north: MeshScope, slot: FaceSlot)
    requires
        south.wf(),
        north.wf(),
        south.around == north.around,
        south.y_start == north.y_start,
        south.y_end == north.y_end,
        north.chunk_x == south.chunk_x,
        north.chunk_z == south.chunk_z + 1,
        south.around.contains_key((south.chunk_x, south.chunk_z)),
        south.around.contains_key((north.chunk_x, north.chunk_z)),
        south.around[(south.chunk_x, south.chunk_z)] == south.chunk,
        south.around[(north.chunk_x, north.chunk_z)] == north.chunk,
        0 <= slot.x < CHUNK_SIZE,
        0 <= slot.z < CHUNK_SIZE,
        south.y_start <= slot.y < south.y_end,
    ensures
        south.open_face(slot) == open_face_joined_along_z(south, north.chunk, slot),
        north.open_face(slot) == open_face_joined_along_z(
            south,
            north.chunk,
            FaceSlot { x: slot.x, y: slot.y, z: slot.z + CHUNK_SIZE, face: slot.face },
        ),
{
    let n = crate::face::face_normal(slot.face);
    let (nx, ny, nz) = (slot.x + n.0, slot.y + n.1, slot.z + n.2);
    let cx = south.chunk_x;
    let cz = south.chunk_z;
    if south.y_start <= ny < south.y_end && 0 <= nx < CHUNK_SIZE {
        if nz == CHUNK_SIZE {
            assert((cz * 20 + nz) / 20 == cz + 1 && (cz * 20 + nz) % 20 == 0);
            assert((cx * 20 + nx) / 20 == cx && (cx * 20 + nx) % 20 == nx);
        }
        if nz == -1 {
            assert(((cz + 1) * 20 + nz) / 20 == cz && ((cz + 1) * 20 + nz) % 20 == 19);
            assert((cx * 20 + nx) / 20 == cx && (cx * 20 + nx) % 20 == nx);
        }
    }
}

} // verus!
