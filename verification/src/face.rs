//! The six faces of a cell: where each lies, which way it points, and the
//! two triangles that draw it.

use vstd::prelude::*;

verus! {

/// A point or a direction on the grid.
pub type Point = (i32, i32, i32);

/// A face of a cell, named by the side of the cell that it closes.
#[derive(Copy, Clone, PartialEq, Eq, Debug, Structural)]
pub enum CubeFace {
    /// Towards growing y.
    Top,
    /// Towards falling y.
    Bottom,
    /// Towards falling x.
    Left,
    /// Towards growing x.
    Right,
    /// Towards growing z.
    Front,
    /// Towards falling z.
    Back,
}

/// The face with number `i`, in the order in which a cell's faces are drawn.
pub open spec fn face_at(i: int) -> CubeFace {
    if i == 0 {
        CubeFace::Top
    } else if i == 1 {
        CubeFace::Bottom
    } else if i == 2 {
        CubeFace::Left
    } else if i == 3 {
        CubeFace::Right
    } else if i == 4 {
        CubeFace::Front
    } else {
        CubeFace::Back
    }
}

/// The outward direction of a face, which is also the step from a cell to
/// the neighbour that can hide the face.
pub open spec fn face_normal(face: CubeFace) -> (int, int, int) {
    match face {
        CubeFace::Top => (0, 1, 0),
        CubeFace::Bottom => (0, -1, 0),
        CubeFace::Left => (-1, 0, 0),
        CubeFace::Right => (1, 0, 0),
        CubeFace::Front => (0, 0, 1),
        CubeFace::Back => (0, 0, -1),
    }
}

/// Corner `k`, for `k` in `0 .. 4`, of face `face` of the unit cell whose
/// lowest corner is `(x, y, z)`.
pub open spec fn face_corner(face: CubeFace, x: int, y: int, z: int, k: int) -> (int, int, int) {
    match face {
        CubeFace::Top => if k == 0 {
            (x, y + 1, z)
        } else if k == 1 {
            (x + 1, y + 1, z)
        } else if k == 2 {
            (x + 1, y + 1, z + 1)
        } else {
            (x, y + 1, z + 1)
        },
        CubeFace::Bottom => if k == 0 {
            (x, y, z)
        } else if k == 1 {
            (x + 1, y, z)
        } else if k == 2 {
            (x + 1, y, z + 1)
        } else {
            (x, y, z + 1)
        },
        CubeFace::Left => if k == 0 {
            (x, y, z)
        } else if k == 1 {
            (x, y + 1, z)
        } else if k == 2 {
            (x, y + 1, z + 1)
        } else {
            (x, y, z + 1)
        },
        CubeFace::Right => if k == 0 {
            (x + 1, y, z)
        } else if k == 1 {
            (x + 1, y + 1, z)
        } else if k == 2 {
            (x + 1, y + 1, z + 1)
        } else {
            (x + 1, y, z + 1)
        },
        CubeFace::Front => if k == 0 {
            (x, y, z + 1)
        } else if k == 1 {
            (x + 1, y, z + 1)
        } else if k == 2 {
            (x + 1, y + 1, z + 1)
        } else {
            (x, y + 1, z + 1)
        },
        CubeFace::Back => if k == 0 {
            (x, y, z)
        } else if k == 1 {
            (x + 1, y, z)
        } else if k == 2 {
            (x + 1, y + 1, z)
        } else {
            (x, y + 1, z)
        },
    }
}

/// Whether the corners of a face, taken in the order 0, 1, 2, 3, run
/// counter-clockwise for an eye that looks at the face from outside.
pub open spec fn corners_run_outward(face: CubeFace) -> bool {
    match face {
        CubeFace::Top => false,
        CubeFace::Bottom => true,
        CubeFace::Left => false,
        CubeFace::Right => true,
        CubeFace::Front => true,
        CubeFace::Back => false,
    }
}

/// Entry `j`, for `j` in `0 .. 6`, of the index list of a face: which of its
/// four corners the two triangles use. The triangles are 0-1-2 and 0-2-3
/// where the corners run counter-clockwise seen from outside, and 0-2-1 and
/// 0-3-2 where they run the other way.
pub open spec fn face_index(face: CubeFace, j: int) -> int {
    if corners_run_outward(face) {
        if j == 0 {
            0
        } else if j == 1 {
            1
        } else if j == 2 {
            2
        } else if j == 3 {
            0
        } else if j == 4 {
            2
        } else {
            3
        }
    } else {
        if j == 0 {
            0
        } else if j == 1 {
            2
        } else if j == 2 {
            1
        } else if j == 3 {
            0
        } else if j == 4 {
            3
        } else {
            2
        }
    }
}

/// The difference `a - b` of two points.
pub open spec fn minus(a: (int, int, int), b: (int, int, int)) -> (int, int, int) {
    (a.0 - b.0, a.1 - b.1, a.2 - b.2)
}

/// The cross product of two directions.
pub open spec fn cross(a: (int, int, int), b: (int, int, int)) -> (int, int, int) {
    (a.1 * b.2 - a.2 * b.1, a.2 * b.0 - a.0 * b.2, a.0 * b.1 - a.1 * b.0)
}

/// A point as a triple of mathematical integers.
pub open spec fn point_view(p: Point) -> (int, int, int) {
    (p.0 as int, p.1 as int, p.2 as int)
}

/// Both triangles of every face wind counter-clockwise about the face's
/// outward direction: with corners `a`, `b`, `c` in index order, the cross
/// product of `b - a` and `c - a` is the outward direction itself.
pub proof fn lemma_winding_is_outward(face: CubeFace, x: int, y: int, z: int, triangle: int)
    requires
        triangle == 0 || triangle == 1,
    ensures
        ({
            let a = face_corner(face, x, y, z, face_index(face, 3 * triangle));
            let b = face_corner(face, x, y, z, face_index(face, 3 * triangle + 1));
            let c = face_corner(face, x, y, z, face_index(face, 3 * triangle + 2));
            cross(minus(b, a), minus(c, a)) == face_normal(face)
        }),
{
    let a = face_corner(face, x, y, z, face_index(face, 3 * triangle));
    let b = face_corner(face, x, y, z, face_index(face, 3 * triangle + 1));
    let c = face_corner(face, x, y, z, face_index(face, 3 * triangle + 2));
    let u = minus(b, a);
    let v = minus(c, a);
    lemma_unit_product(u.1, v.2);
    lemma_unit_product(u.2, v.1);
    lemma_unit_product(u.2, v.0);
    lemma_unit_product(u.0, v.2);
    lemma_unit_product(u.0, v.1);
    lemma_unit_product(u.1, v.0);
}

/// The product of a number with 0, 1 or -1.
proof fn lemma_unit_product(a: int, b: int)
    requires
        -1 <= a <= 1,
    ensures
        a * b == if a == 0 {
            0
        } else if a == 1 {
            b
        } else {
            -b
        },
{
    assert(a == 0 || a == 1 || a == -1);
    assert(0 * b == 0 && 1 * b == b && (-1) * b == -b) by (nonlinear_arith);
}

impl CubeFace {
    /// The six faces, in the order in which a cell's faces are drawn.
    pub fn all() -> (faces: [CubeFace; 6])
        ensures
            forall|i: int| 0 <= i < 6 ==> faces@[i] == face_at(i),
    {
        [
            CubeFace::Top,
            CubeFace::Bottom,
            CubeFace::Left,
            CubeFace::Right,
            CubeFace::Front,
            CubeFace::Back,
        ]
    }

    /// The outward direction of the face.
    pub fn normal(self) -> (n: Point)
        ensures
            point_view(n) == face_normal(self),
    {
        match self {
            CubeFace::Top => (0, 1, 0),
            CubeFace::Bottom => (0, -1, 0),
            CubeFace::Left => (-1, 0, 0),
            CubeFace::Right => (1, 0, 0),
            CubeFace::Front => (0, 0, 1),
            CubeFace::Back => (0, 0, -1),
        }
    }
}

/// The four corners, four normals and six indices of one face.
pub struct FaceVertices {
    pub positions: Vec<Point>,
    pub normals: Vec<Point>,
    pub indices: Vec<u32>,
}

/// The geometry of face `face` of the cell whose lowest corner is
/// `(x, y, z)`: its four corners, the outward direction once for each
/// corner, and the six corner numbers of its two triangles, each counted
/// from `vertex_offset`.
pub fn face_vertices(face: CubeFace, x: usize, y: usize, z: usize, vertex_offset: u32) -> (fv:
    FaceVertices)
    requires
        x < i32::MAX,
        y < i32::MAX,
        z < i32::MAX,
        vertex_offset <= u32::MAX - 3,
    ensures
        fv.positions@.len() == 4,
        fv.normals@.len() == 4,
        fv.indices@.len() == 6,
        forall|k: int|
            0 <= k < 4 ==> point_view(#[trigger] fv.positions@[k]) == face_corner(
                face,
                x as int,
                y as int,
                z as int,
                k,
            ),
        forall|k: int| 0 <= k < 4 ==> point_view(#[trigger] fv.normals@[k]) == face_normal(face),
        forall|j: int|
            0 <= j < 6 ==> (#[trigger] fv.indices@[j]) as int
                == vertex_offset + face_index(face, j),
{
    let x0: i32 = x as i32;
    let y0: i32 = y as i32;
    let z0: i32 = z as i32;
    let x1: i32 = x0 + 1;
    let y1: i32 = y0 + 1;
    let z1: i32 = z0 + 1;
    let positions: Vec<Point> = match face {
        CubeFace::Top => vec![(x0, y1, z0), (x1, y1, z0), (x1, y1, z1), (x0, y1, z1)],
        CubeFace::Bottom => vec![(x0, y0, z0), (x1, y0, z0), (x1, y0, z1), (x0, y0, z1)],
        CubeFace::Left => vec![(x0, y0, z0), (x0, y1, z0), (x0, y1, z1), (x0, y0, z1)],
        CubeFace::Right => vec![(x1, y0, z0), (x1, y1, z0), (x1, y1, z1), (x1, y0, z1)],
        CubeFace::Front => vec![(x0, y0, z1), (x1, y0, z1), (x1, y1, z1), (x0, y1, z1)],
        CubeFace::Back => vec![(x0, y0, z0), (x1, y0, z0), (x1, y1, z0), (x0, y1, z0)],
    };
    let n: Point = face.normal();
    let normals: Vec<Point> = vec![n, n, n, n];
    let o: u32 = vertex_offset;
    let indices: Vec<u32> = match face {
        CubeFace::Bottom | CubeFace::Right | CubeFace::Front => vec![
            o,
            o + 1,
            o + 2,
            o,
            o + 2,
            o + 3,
        ],
        CubeFace::Top | CubeFace::Left | CubeFace::Back => vec![o, o + 2, o + 1, o, o + 3, o + 2],
    };
    FaceVertices { positions, normals, indices }
}

} // verus!
