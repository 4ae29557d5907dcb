use voxel_world::face::{face_vertices, CubeFace, Point};

fn minus(a: Point, b: Point) -> Point {
    (a.0 - b.0, a.1 - b.1, a.2 - b.2)
}

fn cross(a: Point, b: Point) -> Point {
    (a.1 * b.2 - a.2 * b.1, a.2 * b.0 - a.0 * b.2, a.0 * b.1 - a.1 * b.0)
}

#[test]
fn faces_come_in_their_order() {
    assert_eq!(
        CubeFace::all(),
        [
            CubeFace::Top,
            CubeFace::Bottom,
            CubeFace::Left,
            CubeFace::Right,
            CubeFace::Front,
            CubeFace::Back
        ]
    );
}

#[test]
fn normals_point_outward() {
    assert_eq!(CubeFace::Top.normal(), (0, 1, 0));
    assert_eq!(CubeFace::Bottom.normal(), (0, -1, 0));
    assert_eq!(CubeFace::Left.normal(), (-1, 0, 0));
    assert_eq!(CubeFace::Right.normal(), (1, 0, 0));
    assert_eq!(CubeFace::Front.normal(), (0, 0, 1));
    assert_eq!(CubeFace::Back.normal(), (0, 0, -1));
}

#[test]
fn top_face_of_a_cell() {
    let fv = face_vertices(CubeFace::Top, 1, 2, 3, 8);
    assert_eq!(fv.positions, vec![(1, 3, 3), (2, 3, 3), (2, 3, 4), (1, 3, 4)]);
    assert_eq!(fv.normals, vec![(0, 1, 0); 4]);
    assert_eq!(fv.indices, vec![8, 10, 9, 8, 11, 10]);
}

#[test]
fn bottom_face_of_a_cell() {
    let fv = face_vertices(CubeFace::Bottom, 1, 2, 3, 0);
    assert_eq!(fv.positions, vec![(1, 2, 3), (2, 2, 3), (2, 2, 4), (1, 2, 4)]);
    assert_eq!(fv.normals, vec![(0, -1, 0); 4]);
    assert_eq!(fv.indices, vec![0, 1, 2, 0, 2, 3]);
}

#[test]
fn left_face_of_a_cell() {
    let fv = face_vertices(CubeFace::Left, 1, 2, 3, 4);
    assert_eq!(fv.positions, vec![(1, 2, 3), (1, 3, 3), (1, 3, 4), (1, 2, 4)]);
    assert_eq!(fv.normals, vec![(-1, 0, 0); 4]);
    assert_eq!(fv.indices, vec![4, 6, 5, 4, 7, 6]);
}

#[test]
fn right_face_of_a_cell() {
    let fv = face_vertices(CubeFace::Right, 1, 2, 3, 4);
    assert_eq!(fv.positions, vec![(2, 2, 3), (2, 3, 3), (2, 3, 4), (2, 2, 4)]);
    assert_eq!(fv.normals, vec![(1, 0, 0); 4]);
    assert_eq!(fv.indices, vec![4, 5, 6, 4, 6, 7]);
}

#[test]
fn front_face_of_a_cell() {
    let fv = face_vertices(CubeFace::Front, 1, 2, 3, 100);
    assert_eq!(fv.positions, vec![(1, 2, 4), (2, 2, 4), (2, 3, 4), (1, 3, 4)]);
    assert_eq!(fv.normals, vec![(0, 0, 1); 4]);
    assert_eq!(fv.indices, vec![100, 101, 102, 100, 102, 103]);
}

#[test]
fn back_face_of_a_cell() {
    let fv = face_vertices(CubeFace::Back, 1, 2, 3, 100);
    assert_eq!(fv.positions, vec![(1, 2, 3), (2, 2, 3), (2, 3, 3), (1, 3, 3)]);
    assert_eq!(fv.normals, vec![(0, 0, -1); 4]);
    assert_eq!(fv.indices, vec![100, 102, 101, 100, 103, 102]);
}

#[test]
fn every_triangle_winds_about_the_outward_normal() {
    for face in CubeFace::all() {
        let fv = face_vertices(face, 4, 5, 6, 0);
        for t in 0..2 {
            let a = fv.positions[fv.indices[3 * t] as usize];
            let b = fv.positions[fv.indices[3 * t + 1] as usize];
            let c = fv.positions[fv.indices[3 * t + 2] as usize];
            assert_eq!(cross(minus(b, a), minus(c, a)), face.normal(), "{:?}", face);
        }
    }
}

#[test]
fn the_two_triangles_cover_the_four_corners() {
    for face in CubeFace::all() {
        let fv = face_vertices(face, 0, 0, 0, 0);
        let mut used = [false; 4];
        for i in fv.indices.iter() {
            used[*i as usize] = true;
        }
        assert_eq!(used, [true; 4]);
    }
}
