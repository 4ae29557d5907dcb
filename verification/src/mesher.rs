//! From the cells of a chunk to a triangle surface.
//!
//! Every solid cell shows those of its six faces behind which no solid cell
//! is known. Each face shown is drawn as four corners and two triangles.

use vstd::prelude::*;
use crate::constants::{CHUNK_SIZE, TOTAL_HEIGHT, VERTICAL_CHUNK_HEIGHT};
use crate::face::{
    face_at, face_corner, face_index, face_normal, face_vertices, point_view, CubeFace, Point,
};
use crate::loaded::{world_solid, LoadedChunks};
use crate::voxel::{in_chunk, Chunk, Voxel};

verus! {

/// Faces of one row of cells along x.
pub const ROW_FACES: usize = 120;

/// Faces of one horizontal layer of cells.
pub const LAYER_FACES: usize = 2400;

/// One face of one cell of a chunk.
pub struct FaceSlot {
    pub x: int,
    pub y: int,
    pub z: int,
    pub face: CubeFace,
}

/// The face with number `i` among the faces of the layers from `y_start`
/// up: layers from the bottom up, in a layer rows of growing z, in a row
/// cells of growing x, and the six faces of a cell in their order.
pub open spec fn slot_at(y_start: int, i: int) -> FaceSlot {
    FaceSlot {
        x: (i / 6) % (CHUNK_SIZE as int),
        y: y_start + i / (LAYER_FACES as int),
        z: (i / (ROW_FACES as int)) % (CHUNK_SIZE as int),
        face: face_at(i % 6),
    }
}

/// A surface as mathematical sequences: corner positions, one normal for
/// each position, and corner numbers, three for each triangle.
pub struct MeshView {
    pub positions: Seq<(int, int, int)>,
    pub normals: Seq<(int, int, int)>,
    pub indices: Seq<int>,
}

impl MeshView {
    /// As many normals as positions, whole triangles, and every index names
    /// a position.
    pub open spec fn wf(self) -> bool {
        &&& self.positions.len() == self.normals.len()
        &&& self.indices.len() % 3 == 0
        &&& forall|i: int| 0 <= i < self.indices.len()
            ==> 0 <= #[trigger] self.indices[i] < self.positions.len()
    }
}

/// Corner `k` of the face `slot`, moved down by `y_shift`.
pub open spec fn slot_corner(slot: FaceSlot, y_shift: int, k: int) -> (int, int, int) {
    face_corner(slot.face, slot.x, slot.y - y_shift, slot.z, k)
}

/// The surface that draws `faces` in their order, every position moved down
/// by `y_shift`. Face number `k` owns the positions `4k .. 4k + 4` and the
/// indices `6k .. 6k + 6`.
pub open spec fn quads(faces: Seq<FaceSlot>, y_shift: int) -> MeshView {
    MeshView {
        positions: Seq::new(
            4 * faces.len(),
            |i: int| slot_corner(faces[i / 4], y_shift, i % 4),
        ),
        normals: Seq::new(4 * faces.len(), |i: int| face_normal(faces[i / 4].face)),
        indices: Seq::new(
            6 * faces.len(),
            |i: int| 4 * (i / 6) + face_index(faces[i / 6].face, i % 6),
        ),
    }
}

/// A surface of quads is well formed.
pub proof fn lemma_quads_wf(faces: Seq<FaceSlot>, y_shift: int)
    ensures
        quads(faces, y_shift).wf(),
{
    let m = quads(faces, y_shift);
    assert forall|i: int| 0 <= i < m.indices.len() implies 0 <= #[trigger] m.indices[i]
        < m.positions.len() by {
        let k = i / 6;
        assert(0 <= k < faces.len());
        assert(0 <= face_index(faces[k].face, i % 6) < 4);
    }
}

/// What is meshed: a chunk, the chunks known around it, where the chunk
/// lies, and the layers `y_start .. y_end` of it that are drawn.
pub struct MeshScope {
    pub chunk: Chunk,
    pub around: Map<(int, int), Chunk>,
    pub chunk_x: int,
    pub chunk_z: int,
    pub y_start: int,
    pub y_end: int,
}

impl MeshScope {
    pub open spec fn wf(self) -> bool {
        self.chunk.wf() && 0 <= self.y_start <= self.y_end <= TOTAL_HEIGHT
    }

    /// Whether nothing is known to hide the face. Behind a face lies the
    /// cell one step along the face's outward direction. Outside the layers
    /// drawn there is air. Inside the chunk the cell itself decides. Across
    /// a side of the chunk the chunks around decide, and a cell of a chunk
    /// that is not among them is air.
    pub open spec fn open_face(self, slot: FaceSlot) -> bool {
        let n = face_normal(slot.face);
        let (nx, ny, nz) = (slot.x + n.0, slot.y + n.1, slot.z + n.2);
        if ny < self.y_start || ny >= self.y_end {
            true
        } else if 0 <= nx < CHUNK_SIZE && 0 <= nz < CHUNK_SIZE {
            self.chunk.cell(nx, ny, nz) == Voxel::Air
        } else {
            !world_solid(
                self.around,
                self.chunk_x * CHUNK_SIZE + nx,
                ny,
                self.chunk_z * CHUNK_SIZE + nz,
            )
        }
    }

    /// Whether the face is drawn: its cell is solid and nothing hides it.
    pub open spec fn shows(self, slot: FaceSlot) -> bool {
        self.chunk.cell(slot.x, slot.y, slot.z) == Voxel::Solid && self.open_face(slot)
    }

    /// `shows` as a function.
    pub open spec fn shown(self) -> spec_fn(FaceSlot) -> bool {
        |slot: FaceSlot| self.shows(slot)
    }

    /// All faces of all cells of the layers drawn, in their order.
    pub open spec fn slots(self) -> Seq<FaceSlot> {
        Seq::new(
            ((self.y_end - self.y_start) * LAYER_FACES) as nat,
            |i: int| slot_at(self.y_start, i),
        )
    }

    /// The faces drawn, in their order.
    pub open spec fn visible(self) -> Seq<FaceSlot> {
        self.slots().filter(self.shown())
    }

    /// The faces drawn among the first `n` faces.
    pub open spec fn visible_among(self, n: int) -> Seq<FaceSlot> {
        self.slots().take(n).filter(self.shown())
    }

    /// The surface: the quads of the faces drawn, with heights counted from
    /// the lowest layer drawn.
    pub open spec fn mesh(self) -> MeshView {
        quads(self.visible(), self.y_start)
    }

    /// One more face looked at: it joins the faces drawn if it shows.
    proof fn lemma_visible_step(self, n: int)
        requires
            0 <= n < self.slots().len(),
        ensures
            self.visible_among(n + 1) == if self.shows(slot_at(self.y_start, n)) {
                self.visible_among(n).push(slot_at(self.y_start, n))
            } else {
                self.visible_among(n)
            },
            self.visible_among(n).len() <= n,
    {
        let s = self.slots();
        s.lemma_take_succ_push(n);
        s.take(n).lemma_filter_push(s[n], self.shown());
        s.take(n).lemma_filter_len(self.shown());
    }

    /// A cell of air adds no face.
    proof fn lemma_visible_skip_cell(self, n: int)
        requires
            0 <= n,
            n + 6 <= self.slots().len(),
            n % 6 == 0,
            self.chunk.cell(
                slot_at(self.y_start, n).x,
                slot_at(self.y_start, n).y,
                slot_at(self.y_start, n).z,
            ) != Voxel::Solid,
        ensures
            self.visible_among(n + 6) == self.visible_among(n),
    {
        assert forall|k: int| 0 <= k < 6 implies #[trigger] self.visible_among(n + k + 1)
            == self.visible_among(n + k) by {
            lemma_faces_of_one_cell(self.y_start, n, k);
            self.lemma_visible_step(n + k);
        }
        assert(self.visible_among(n + 0 + 1) == self.visible_among(n + 0));
        assert(self.visible_among(n + 1 + 1) == self.visible_among(n + 1));
        assert(self.visible_among(n + 2 + 1) == self.visible_among(n + 2));
        assert(self.visible_among(n + 3 + 1) == self.visible_among(n + 3));
        assert(self.visible_among(n + 4 + 1) == self.visible_among(n + 4));
        assert(self.visible_among(n + 5 + 1) == self.visible_among(n + 5));
    }
}

/// The six faces numbered from a multiple of six belong to one cell.
proof fn lemma_faces_of_one_cell(y_start: int, n: int, k: int)
    requires
        0 <= n,
        n % 6 == 0,
        0 <= k < 6,
    ensures
        slot_at(y_start, n + k).x == slot_at(y_start, n).x,
        slot_at(y_start, n + k).y == slot_at(y_start, n).y,
        slot_at(y_start, n + k).z == slot_at(y_start, n).z,
        slot_at(y_start, n + k).face == face_at(k),
{
    let c = n / 6;
    assert(n == 6 * c);
    assert((n + k) / 6 == c);
    assert((n + k) % 6 == k);
    assert((n + k) / 120 == c / 20 && n / 120 == c / 20);
    assert((n + k) / 2400 == c / 400 && n / 2400 == c / 400);
}

/// The number of the face `f` of the cell `(x, y, z)`.
pub open spec fn slot_number(y_start: int, x: int, y: int, z: int, f: int) -> int {
    (((y - y_start) * CHUNK_SIZE + z) * CHUNK_SIZE + x) * 6 + f
}

/// `slot_at` finds the face back from its number.
pub proof fn lemma_slot_of_number(y_start: int, x: int, y: int, z: int, f: int)
    requires
        0 <= x < CHUNK_SIZE,
        0 <= z < CHUNK_SIZE,
        y_start <= y,
        0 <= f < 6,
    ensures
        slot_at(y_start, slot_number(y_start, x, y, z, f))
            == (FaceSlot { x, y, z, face: face_at(f) }),
        0 <= slot_number(y_start, x, y, z, f) < (y - y_start + 1) * LAYER_FACES,
{
    let c = ((y - y_start) * 20 + z) * 20 + x;
    let n = c * 6 + f;
    assert(n / 6 == c && n % 6 == f);
    assert(c % 20 == x);
    assert(n / 120 == c / 20);
    assert(c / 20 == (y - y_start) * 20 + z);
    assert((c / 20) % 20 == z);
    assert(n / 2400 == c / 400);
    assert(c / 400 == y - y_start);
}

/// Drawing one more face appends its four corners, its normal four times,
/// and its six indices counted from the number of corners so far.
proof fn lemma_quads_push(faces: Seq<FaceSlot>, slot: FaceSlot, y_shift: int)
    ensures
        quads(faces.push(slot), y_shift).positions == quads(faces, y_shift).positions + Seq::new(
            4,
            |k: int| face_corner(slot.face, slot.x, slot.y - y_shift, slot.z, k),
        ),
        quads(faces.push(slot), y_shift).normals == quads(faces, y_shift).normals + Seq::new(
            4,
            |k: int| face_normal(slot.face),
        ),
        quads(faces.push(slot), y_shift).indices == quads(faces, y_shift).indices + Seq::new(
            6,
            |j: int| 4 * faces.len() + face_index(slot.face, j),
        ),
{
    let after = quads(faces.push(slot), y_shift);
    let before = quads(faces, y_shift);
    assert(after.positions =~= before.positions + Seq::new(
        4,
        |k: int| face_corner(slot.face, slot.x, slot.y - y_shift, slot.z, k),
    ));
    assert(after.normals =~= before.normals + Seq::new(4, |k: int| face_normal(slot.face)));
    assert(after.indices =~= before.indices + Seq::new(
        6,
        |j: int| 4 * faces.len() + face_index(slot.face, j),
    ));
}

/// A triangle surface: corner positions, one normal for each position, and
/// corner numbers, three for each triangle.
pub struct SurfaceMesh {
    positions: Vec<Point>,
    normals: Vec<Point>,
    indices: Vec<u32>,
}

impl View for SurfaceMesh {
    type V = MeshView;

    closed spec fn view(&self) -> MeshView {
        MeshView {
            positions: self.positions@.map_values(|p: Point| point_view(p)),
            normals: self.normals@.map_values(|p: Point| point_view(p)),
            indices: self.indices@.map_values(|i: u32| i as int),
        }
    }
}

impl SurfaceMesh {
    /// The corner positions.
    pub fn positions(&self) -> (positions: &Vec<Point>)
        ensures
            positions@.len() == self@.positions.len(),
            forall|i: int|
                0 <= i < positions@.len() ==> point_view(#[trigger] positions@[i])
                    == self@.positions[i],
    {
        &self.positions
    }

    /// The normals, one for each position.
    pub fn normals(&self) -> (normals: &Vec<Point>)
        ensures
            normals@.len() == self@.normals.len(),
            forall|i: int|
                0 <= i < normals@.len() ==> point_view(#[trigger] normals@[i]) == self@.normals[i],
    {
        &self.normals
    }

    /// The corner numbers of the triangles, three for each.
    pub fn indices(&self) -> (indices: &Vec<u32>)
        ensures
            indices@.len() == self@.indices.len(),
            forall|i: int|
                0 <= i < indices@.len() ==> (#[trigger] indices@[i]) as int == self@.indices[i],
    {
        &self.indices
    }

    /// A surface without faces.
    fn empty() -> (mesh: SurfaceMesh)
        ensures
            mesh@ == quads(Seq::<FaceSlot>::empty(), 0),
            mesh@.positions.len() == 0,
    {
        let mesh = SurfaceMesh { positions: Vec::new(), normals: Vec::new(), indices: Vec::new() };
        assert(mesh@.positions =~= quads(Seq::<FaceSlot>::empty(), 0).positions);
        assert(mesh@.normals =~= quads(Seq::<FaceSlot>::empty(), 0).normals);
        assert(mesh@.indices =~= quads(Seq::<FaceSlot>::empty(), 0).indices);
        mesh
    }

    /// Appends the face `face` of the cell at `(x, y, z)`.
    fn add_face(
        &mut self,
        face: CubeFace,
        x: usize,
        y: usize,
        z: usize,
        Ghost(faces): Ghost<Seq<FaceSlot>>,
        Ghost(y_shift): Ghost<int>,
    )
        requires
            x < CHUNK_SIZE,
            y < TOTAL_HEIGHT,
            z < CHUNK_SIZE,
            old(self)@ == quads(faces, y_shift),
            4 * faces.len() + 4 <= u32::MAX,
        ensures
            final(self)@ == quads(
                faces.push(FaceSlot { x: x as int, y: y + y_shift, z: z as int, face }),
                y_shift,
            ),
    {
        let ghost slot = FaceSlot { x: x as int, y: y + y_shift, z: z as int, face };
        let offset: u32 = self.positions.len() as u32;
        let mut fv = face_vertices(face, x, y, z, offset);
        self.positions.append(&mut fv.positions);
        self.normals.append(&mut fv.normals);
        self.indices.append(&mut fv.indices);
        proof {
            lemma_quads_push(faces, slot, y_shift);
            let after = quads(faces.push(slot), y_shift);
            assert(self@.positions =~= after.positions);
            assert(self@.normals =~= after.normals);
            assert(self@.indices =~= after.indices);
        }
    }
}

/// Whether the face `face` of the cell `(x, y, z)` of the chunk at
/// `(chunk_x, chunk_z)` has air behind it, going by the chunks at hand
/// alone: the cell behind the face is looked up in the chunk of its column.
/// Where that chunk is not at hand, and above and below the world, there is
/// air.
pub fn neighbor_is_air(
    loaded_chunks: &LoadedChunks,
    chunk_x: i32,
    chunk_z: i32,
    x: isize,
    y: isize,
    z: isize,
    face: CubeFace,
) -> (air: bool)
    requires
        loaded_chunks.wf(),
        in_chunk(x as int, y as int, z as int),
    ensures
        air == !world_solid(
            loaded_chunks@,
            chunk_x * CHUNK_SIZE + x + face_normal(face).0,
            y + face_normal(face).1,
            chunk_z * CHUNK_SIZE + z + face_normal(face).2,
        ),
{
    let n: Point = face.normal();
    let side: i64 = CHUNK_SIZE as i64;
    assert(side == 20);
    let wx: i64 = (chunk_x as i64) * side + (x as i64) + (n.0 as i64);
    let wy: i64 = (y as i64) + (n.1 as i64);
    let wz: i64 = (chunk_z as i64) * side + (z as i64) + (n.2 as i64);
    !loaded_chunks.is_solid(wx, wy, wz)
}

/// The chunks that an optional lookup knows: none where there is no lookup.
pub open spec fn known_chunks(around: Option<&LoadedChunks>) -> Map<(int, int), Chunk> {
    match around {
        Some(loaded) => loaded@,
        None => Map::empty(),
    }
}

/// What `build_mesh` meshes.
pub open spec fn scope_of(
    chunk: &Chunk,
    around: Option<&LoadedChunks>,
    chunk_x: i32,
    chunk_z: i32,
    y_start: usize,
    y_end: usize,
) -> MeshScope {
    MeshScope {
        chunk: *chunk,
        around: known_chunks(around),
        chunk_x: chunk_x as int,
        chunk_z: chunk_z as int,
        y_start: y_start as int,
        y_end: y_end as int,
    }
}

/// Whether nothing is known to hide the face `face` of the cell `(x, y, z)`.
fn face_is_open(
    chunk: &Chunk,
    around: Option<&LoadedChunks>,
    chunk_x: i32,
    chunk_z: i32,
    y_start: usize,
    y_end: usize,
    x: usize,
    y: usize,
    z: usize,
    face: CubeFace,
) -> (open: bool)
    requires
        chunk.wf(),
        around matches Some(loaded) ==> loaded.wf(),
        y_start <= y < y_end <= TOTAL_HEIGHT,
        x < CHUNK_SIZE,
        z < CHUNK_SIZE,
    ensures
        open == scope_of(chunk, around, chunk_x, chunk_z, y_start, y_end).open_face(
            FaceSlot { x: x as int, y: y as int, z: z as int, face },
        ),
{
    let n: Point = face.normal();
    let nx: i64 = x as i64 + n.0 as i64;
    let ny: i64 = y as i64 + n.1 as i64;
    let nz: i64 = z as i64 + n.2 as i64;
    let side: i64 = CHUNK_SIZE as i64;
    if ny < y_start as i64 || ny >= y_end as i64 {
        true
    } else if 0 <= nx && nx < side && 0 <= nz && nz < side {
        match chunk.get(nx as usize, ny as usize, nz as usize) {
            Some(Voxel::Air) => true,
            _ => false,
        }
    } else {
        match around {
            Some(loaded) => neighbor_is_air(
                loaded,
                chunk_x,
                chunk_z,
                x as isize,
                y as isize,
                z as isize,
                face,
            ),
            None => true,
        }
    }
}

/// The surface of the layers `y_start .. y_end` of `chunk`, which lies at
/// `(chunk_x, chunk_z)`. A face of a solid cell is drawn where no solid
/// cell is known behind it: layers outside the range count as air, and
/// across a side of the chunk the chunks of `around` are asked, where there
/// are any. Heights in the surface are counted from `y_start`.
pub fn build_mesh(
    chunk: &Chunk,
    around: Option<&LoadedChunks>,
    chunk_x: i32,
    chunk_z: i32,
    y_start: usize,
    y_end: usize,
) -> (mesh: SurfaceMesh)
    requires
        chunk.wf(),
        around matches Some(loaded) ==> loaded.wf(),
        y_start <= y_end <= TOTAL_HEIGHT,
    ensures
        mesh@ == scope_of(chunk, around, chunk_x, chunk_z, y_start, y_end).mesh(),
        mesh@.wf(),
{
    let ghost scope = scope_of(chunk, around, chunk_x, chunk_z, y_start, y_end);
    let ghost shift = y_start as int;
    let mut mesh = SurfaceMesh::empty();
    let ghost mut drawn: Seq<FaceSlot> = Seq::empty();
    let faces = CubeFace::all();
    proof {
        let none = Seq::<FaceSlot>::empty();
        assert(quads(none, 0).positions =~= quads(none, shift).positions);
        assert(quads(none, 0).normals =~= quads(none, shift).normals);
        assert(quads(none, 0).indices =~= quads(none, shift).indices);
    }
    assert(scope.slots().take(0) =~= Seq::<FaceSlot>::empty());
    assert(scope.visible_among(0) == Seq::<FaceSlot>::empty()) by {
        reveal_with_fuel(Seq::filter, 1);
    }
    let mut y: usize = y_start;
    while y < y_end
        invariant
            chunk.wf(),
            around matches Some(loaded) ==> loaded.wf(),
            y_start <= y <= y_end <= TOTAL_HEIGHT,
            scope == scope_of(chunk, around, chunk_x, chunk_z, y_start, y_end),
            shift == y_start,
            forall|i: int| 0 <= i < 6 ==> faces@[i] == face_at(i),
            drawn == scope.visible_among(slot_number(shift, 0, y as int, 0, 0)),
            mesh@ == quads(drawn, shift),
        decreases y_end - y,
    {
        let mut z: usize = 0;
        while z < CHUNK_SIZE
            invariant
                chunk.wf(),
                around matches Some(loaded) ==> loaded.wf(),
                y_start <= y < y_end <= TOTAL_HEIGHT,
                z <= CHUNK_SIZE,
                scope == scope_of(chunk, around, chunk_x, chunk_z, y_start, y_end),
                shift == y_start,
                forall|i: int| 0 <= i < 6 ==> faces@[i] == face_at(i),
                drawn == scope.visible_among(slot_number(shift, 0, y as int, z as int, 0)),
                mesh@ == quads(drawn, shift),
            decreases CHUNK_SIZE - z,
        {
            let mut x: usize = 0;
            while x < CHUNK_SIZE
                invariant
                    chunk.wf(),
                    around matches Some(loaded) ==> loaded.wf(),
                    y_start <= y < y_end <= TOTAL_HEIGHT,
                    z < CHUNK_SIZE,
                    x <= CHUNK_SIZE,
                    scope == scope_of(chunk, around, chunk_x, chunk_z, y_start, y_end),
                    shift == y_start,
                    forall|i: int| 0 <= i < 6 ==> faces@[i] == face_at(i),
                    drawn == scope.visible_among(
                        slot_number(shift, x as int, y as int, z as int, 0),
                    ),
                    mesh@ == quads(drawn, shift),
                decreases CHUNK_SIZE - x,
            {
                let ghost first = slot_number(shift, x as int, y as int, z as int, 0);
                proof {
                    lemma_slot_of_number(shift, x as int, y as int, z as int, 0);
                    lemma_slot_of_number(shift, x as int, y as int, z as int, 5);
                    assert((y - shift + 1) * LAYER_FACES <= (y_end - shift) * LAYER_FACES);
                }
                let solid = match chunk.get(x, y, z) {
                    Some(Voxel::Solid) => true,
                    _ => false,
                };
                if solid {
                    let mut f: usize = 0;
                    while f < 6
                        invariant
                            chunk.wf(),
                            around matches Some(loaded) ==> loaded.wf(),
                            y_start <= y < y_end <= TOTAL_HEIGHT,
                            z < CHUNK_SIZE,
                            x < CHUNK_SIZE,
                            f <= 6,
                            scope == scope_of(chunk, around, chunk_x, chunk_z, y_start, y_end),
                            shift == y_start,
                            forall|i: int| 0 <= i < 6 ==> faces@[i] == face_at(i),
                            first == slot_number(shift, x as int, y as int, z as int, 0),
                            first + 6 <= scope.slots().len(),
                            chunk.cell(x as int, y as int, z as int) == Voxel::Solid,
                            drawn == scope.visible_among(first + f),
                            mesh@ == quads(drawn, shift),
                        decreases 6 - f,
                    {
                        let face = faces[f];
                        let ghost slot = FaceSlot { x: x as int, y: y as int, z: z as int, face };
                        proof {
                            lemma_slot_of_number(shift, x as int, y as int, z as int, f as int);
                            scope.lemma_visible_step(first + f);
                        }
                        if face_is_open(
                            chunk,
                            around,
                            chunk_x,
                            chunk_z,
                            y_start,
                            y_end,
                            x,
                            y,
                            z,
                            face,
                        ) {
                            mesh.add_face(face, x, y - y_start, z, Ghost(drawn), Ghost(shift));
                            proof {
                                drawn = drawn.push(slot);
                            }
                        }
                        f += 1;
                    }
                } else {
                    proof {
                        scope.lemma_visible_skip_cell(first);
                    }
                }
                x += 1;
            }
            z += 1;
        }
        y += 1;
    }
    proof {
        assert(scope.slots().take(scope.slots().len() as int) =~= scope.slots());
        lemma_quads_wf(drawn, shift);
    }
    mesh
}

/// The surface of a whole chunk taken alone: beyond every side of the chunk
/// there is air.
pub fn build_chunk_mesh(chunk: &Chunk) -> (mesh: SurfaceMesh)
    requires
        chunk.wf(),
    ensures
        mesh@ == scope_of(chunk, None, 0, 0, 0, TOTAL_HEIGHT).mesh(),
        mesh@.wf(),
{
    build_mesh(chunk, None, 0, 0, 0, TOTAL_HEIGHT)
}

/// First layer of the vertical layer that starts at `y_offset`.
pub open spec fn layer_start(y_offset: usize) -> usize {
    if y_offset <= TOTAL_HEIGHT {
        y_offset
    } else {
        TOTAL_HEIGHT
    }
}

/// End of the vertical layer that starts at `y_offset`:
/// `VERTICAL_CHUNK_HEIGHT` layers further up, or the top of the chunk.
pub open spec fn layer_end(y_offset: usize) -> usize {
    if y_offset + VERTICAL_CHUNK_HEIGHT <= TOTAL_HEIGHT {
        (y_offset + VERTICAL_CHUNK_HEIGHT) as usize
    } else {
        TOTAL_HEIGHT
    }
}

/// The surface of one vertical layer of a chunk taken alone: the layers
/// from `y_offset` up, `VERTICAL_CHUNK_HEIGHT` of them or as many as the
/// chunk has left. Heights in the surface are counted from `y_offset`.
pub fn build_vertical_chunk_mesh(chunk: &Chunk, y_offset: usize) -> (mesh: SurfaceMesh)
    requires
        chunk.wf(),
    ensures
        mesh@ == scope_of(chunk, None, 0, 0, layer_start(y_offset), layer_end(y_offset)).mesh(),
        mesh@.wf(),
{
    build_vertical_chunk_mesh_among(chunk, None, 0, 0, y_offset)
}

/// The surface of a whole chunk that lies at `(chunk_x, chunk_z)`: across
/// a side of the chunk the chunks of `around` are asked, where there are
/// any.
pub fn build_chunk_mesh_among(
    chunk: &Chunk,
    around: Option<&LoadedChunks>,
    chunk_x: i32,
    chunk_z: i32,
) -> (mesh: SurfaceMesh)
    requires
        chunk.wf(),
        around matches Some(loaded) ==> loaded.wf(),
    ensures
        mesh@ == scope_of(chunk, around, chunk_x, chunk_z, 0, TOTAL_HEIGHT).mesh(),
        mesh@.wf(),
{
    build_mesh(chunk, around, chunk_x, chunk_z, 0, TOTAL_HEIGHT)
}

/// The surface of one vertical layer of a chunk that lies at
/// `(chunk_x, chunk_z)`: the layers from `y_offset` up, as in
/// `build_vertical_chunk_mesh`, and across a side of the chunk the chunks
/// of `around` are asked, where there are any.
pub fn build_vertical_chunk_mesh_among(
    chunk: &Chunk,
    around: Option<&LoadedChunks>,
    chunk_x: i32,
    chunk_z: i32,
    y_offset: usize,
) -> (mesh: SurfaceMesh)
    requires
        chunk.wf(),
        around matches Some(loaded) ==> loaded.wf(),
    ensures
        mesh@ == scope_of(
            chunk,
            around,
            chunk_x,
            chunk_z,
            layer_start(y_offset),
            layer_end(y_offset),
        ).mesh(),
        mesh@.wf(),
{
    let start: usize = if y_offset <= TOTAL_HEIGHT {
        y_offset
    } else {
        TOTAL_HEIGHT
    };
    let end: usize = if start <= TOTAL_HEIGHT - VERTICAL_CHUNK_HEIGHT {
        start + VERTICAL_CHUNK_HEIGHT
    } else {
        TOTAL_HEIGHT
    };
    build_mesh(chunk, around, chunk_x, chunk_z, start, end)
}

} // verus!
