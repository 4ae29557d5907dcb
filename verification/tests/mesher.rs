use voxel_world::constants::{CHUNK_SIZE, TOTAL_HEIGHT};
use voxel_world::face::{CubeFace, Point};
use voxel_world::loaded::LoadedChunks;
use voxel_world::mesher::{
    build_chunk_mesh, build_chunk_mesh_among, build_mesh, build_vertical_chunk_mesh,
    build_vertical_chunk_mesh_among, neighbor_is_air, SurfaceMesh,
};
use voxel_world::voxel::{Chunk, Voxel};

fn chunk_with(cells: &[(usize, usize, usize)]) -> Chunk {
    let mut chunk = Chunk::empty();
    for &(x, y, z) in cells {
        assert!(chunk.set(x, y, z, Voxel::Solid));
    }
    chunk
}

fn faces(mesh: &SurfaceMesh) -> usize {
    assert_eq!(mesh.positions().len() % 4, 0);
    assert_eq!(mesh.normals().len(), mesh.positions().len());
    assert_eq!(mesh.indices().len(), mesh.positions().len() / 4 * 6);
    for i in mesh.indices().iter() {
        assert!((*i as usize) < mesh.positions().len());
    }
    mesh.positions().len() / 4
}

fn faces_with_normal(mesh: &SurfaceMesh, normal: Point) -> usize {
    mesh.normals().iter().filter(|n| **n == normal).count() / 4
}

#[test]
fn air_has_no_surface() {
    let mesh = build_chunk_mesh(&Chunk::empty());
    assert_eq!(mesh.positions().len(), 0);
    assert_eq!(mesh.normals().len(), 0);
    assert_eq!(mesh.indices().len(), 0);
}

#[test]
fn a_lone_cell_shows_six_faces() {
    let mesh = build_chunk_mesh(&chunk_with(&[(5, 40, 7)]));
    assert_eq!(faces(&mesh), 6);
    assert_eq!(
        mesh.positions()[0..8],
        [
            (5, 41, 7),
            (6, 41, 7),
            (6, 41, 8),
            (5, 41, 8),
            (5, 40, 7),
            (6, 40, 7),
            (6, 40, 8),
            (5, 40, 8)
        ]
    );
    assert_eq!(mesh.normals()[0..4], [(0, 1, 0); 4]);
    assert_eq!(mesh.normals()[4..8], [(0, -1, 0); 4]);
    assert_eq!(mesh.normals()[8..12], [(-1, 0, 0); 4]);
    assert_eq!(mesh.normals()[12..16], [(1, 0, 0); 4]);
    assert_eq!(mesh.normals()[16..20], [(0, 0, 1); 4]);
    assert_eq!(mesh.normals()[20..24], [(0, 0, -1); 4]);
    assert_eq!(mesh.indices()[0..12], [0, 2, 1, 0, 3, 2, 4, 5, 6, 4, 6, 7]);
    assert_eq!(mesh.indices()[30..36], [20, 22, 21, 20, 23, 22]);
}

#[test]
fn cells_are_meshed_in_grid_order() {
    let mesh = build_chunk_mesh(&chunk_with(&[(9, 50, 9), (2, 50, 9), (9, 50, 2), (9, 3, 9)]));
    assert_eq!(faces(&mesh), 24);
    assert_eq!(mesh.positions()[0], (9, 4, 9));
    assert_eq!(mesh.positions()[24], (9, 51, 2));
    assert_eq!(mesh.positions()[48], (2, 51, 9));
    assert_eq!(mesh.positions()[72], (9, 51, 9));
}

#[test]
fn the_side_between_two_cells_is_not_drawn() {
    let mesh = build_chunk_mesh(&chunk_with(&[(5, 40, 7), (6, 40, 7)]));
    assert_eq!(faces(&mesh), 10);
    assert_eq!(faces_with_normal(&mesh, (1, 0, 0)), 1);
    assert_eq!(faces_with_normal(&mesh, (-1, 0, 0)), 1);
    assert_eq!(faces_with_normal(&mesh, (0, 1, 0)), 2);
}

#[test]
fn an_enclosed_cell_gives_no_face() {
    let mut cells = Vec::new();
    for y in 40..43 {
        for z in 4..7 {
            for x in 4..7 {
                cells.push((x, y, z));
            }
        }
    }
    let mesh = build_chunk_mesh(&chunk_with(&cells));
    assert_eq!(faces(&mesh), 54);
    // No quad lies on the cell in the middle, (5, 41, 5).
    for quad in mesh.positions().chunks(4) {
        let inside = quad.iter().all(|p| {
            (5..=6).contains(&p.0) && (41..=42).contains(&p.1) && (5..=6).contains(&p.2)
        });
        assert!(!inside);
    }
    // With the middle taken out, the six cells around it show one face more each.
    let hollow: Vec<_> = cells.iter().copied().filter(|c| *c != (5, 41, 5)).collect();
    assert_eq!(faces(&build_chunk_mesh(&chunk_with(&hollow))), 60);
}

#[test]
fn the_sides_of_a_chunk_alone_are_open() {
    let corners = [(0, 0, 0), (19, 0, 0), (0, 95, 19), (19, 95, 19)];
    assert_eq!(faces(&build_chunk_mesh(&chunk_with(&corners))), 24);
}

#[test]
fn a_full_chunk_shows_its_hull_only() {
    let chunk = Chunk::from_cells(vec![Voxel::Solid; CHUNK_SIZE * CHUNK_SIZE * TOTAL_HEIGHT])
        .unwrap();
    let mesh = build_chunk_mesh(&chunk);
    assert_eq!(faces(&mesh), 2 * 400 + 4 * 20 * 96);
    assert_eq!(faces_with_normal(&mesh, (0, 1, 0)), 400);
    assert_eq!(faces_with_normal(&mesh, (0, -1, 0)), 400);
    assert_eq!(faces_with_normal(&mesh, (1, 0, 0)), 20 * 96);
}

#[test]
fn a_solid_neighbour_chunk_hides_the_side() {
    let chunk = chunk_with(&[(0, 40, 7)]);
    let mut around = LoadedChunks::new();
    around.insert(-3, 2, chunk_with(&[(19, 40, 7)]));
    let mesh = build_chunk_mesh_among(&chunk, Some(&around), -2, 2);
    assert_eq!(faces(&mesh), 5);
    assert_eq!(faces_with_normal(&mesh, (-1, 0, 0)), 0);
}

#[test]
fn an_air_cell_in_the_neighbour_chunk_leaves_the_side_open() {
    let chunk = chunk_with(&[(0, 40, 7)]);
    let mut around = LoadedChunks::new();
    around.insert(-3, 2, chunk_with(&[(19, 41, 7), (19, 40, 6), (0, 40, 7)]));
    let mesh = build_chunk_mesh_among(&chunk, Some(&around), -2, 2);
    assert_eq!(faces(&mesh), 6);
}

#[test]
fn a_missing_neighbour_chunk_counts_as_air() {
    let chunk = chunk_with(&[(0, 40, 7), (19, 40, 7), (5, 40, 0), (5, 40, 19)]);
    let around = LoadedChunks::new();
    assert_eq!(faces(&build_chunk_mesh_among(&chunk, Some(&around), 0, 0)), 24);
    assert_eq!(faces(&build_chunk_mesh_among(&chunk, None, 0, 0)), 24);
    let mut elsewhere = LoadedChunks::new();
    elsewhere.insert(2, 0, chunk_with(&[(19, 40, 7), (0, 40, 7)]));
    assert_eq!(faces(&build_chunk_mesh_among(&chunk, Some(&elsewhere), 0, 0)), 24);
}

#[test]
fn each_side_asks_the_chunk_across_it() {
    let chunk = chunk_with(&[(0, 40, 7), (19, 40, 7), (5, 40, 0), (5, 40, 19)]);
    let mut around = LoadedChunks::new();
    around.insert(-1, 0, chunk_with(&[(19, 40, 7)]));
    around.insert(1, 0, chunk_with(&[(0, 40, 7)]));
    around.insert(0, -1, chunk_with(&[(5, 40, 19)]));
    around.insert(0, 1, chunk_with(&[(5, 40, 0)]));
    let mesh = build_chunk_mesh_among(&chunk, Some(&around), 0, 0);
    assert_eq!(faces(&mesh), 20);
    assert_eq!(faces_with_normal(&mesh, (-1, 0, 0)), 3);
    assert_eq!(faces_with_normal(&mesh, (1, 0, 0)), 3);
    assert_eq!(faces_with_normal(&mesh, (0, 0, -1)), 3);
    assert_eq!(faces_with_normal(&mesh, (0, 0, 1)), 3);
}

#[test]
fn two_chunks_side_by_side_mesh_like_one_grid() {
    // Joined: two cells next to each other show ten faces.
    let joined = build_chunk_mesh(&chunk_with(&[(9, 40, 3), (10, 40, 3)]));
    assert_eq!(faces(&joined), 10);
    // Apart: the same two cells on both sides of a chunk border.
    let west = chunk_with(&[(19, 40, 3)]);
    let east = chunk_with(&[(0, 40, 3)]);
    let mut around = LoadedChunks::new();
    around.insert(4, -1, west.duplicate());
    around.insert(5, -1, east.duplicate());
    let west_mesh = build_chunk_mesh_among(&west, Some(&around), 4, -1);
    let east_mesh = build_chunk_mesh_among(&east, Some(&around), 5, -1);
    assert_eq!(faces(&west_mesh), 5);
    assert_eq!(faces(&east_mesh), 5);
    assert_eq!(faces_with_normal(&west_mesh, (1, 0, 0)), 0);
    assert_eq!(faces_with_normal(&east_mesh, (-1, 0, 0)), 0);
    for normal in [(0, 1, 0), (0, -1, 0), (-1, 0, 0), (1, 0, 0), (0, 0, 1), (0, 0, -1)] {
        assert_eq!(
            faces_with_normal(&west_mesh, normal) + faces_with_normal(&east_mesh, normal),
            faces_with_normal(&joined, normal)
        );
    }
}

#[test]
fn two_chunks_front_to_back_mesh_like_one_grid() {
    let south = chunk_with(&[(3, 10, 19), (4, 10, 19)]);
    let north = chunk_with(&[(3, 10, 0)]);
    let mut around = LoadedChunks::new();
    around.insert(0, 0, south.duplicate());
    around.insert(0, 1, north.duplicate());
    let south_mesh = build_chunk_mesh_among(&south, Some(&around), 0, 0);
    let north_mesh = build_chunk_mesh_among(&north, Some(&around), 0, 1);
    assert_eq!(faces(&south_mesh), 9);
    assert_eq!(faces(&north_mesh), 5);
    assert_eq!(faces_with_normal(&south_mesh, (0, 0, 1)), 1);
    assert_eq!(faces_with_normal(&north_mesh, (0, 0, -1)), 0);
}

#[test]
fn a_vertical_layer_counts_heights_from_its_base() {
    let chunk = chunk_with(&[(5, 40, 7)]);
    let mesh = build_vertical_chunk_mesh(&chunk, 32);
    assert_eq!(faces(&mesh), 6);
    assert_eq!(mesh.positions()[0..4], [(5, 9, 7), (6, 9, 7), (6, 9, 8), (5, 9, 8)]);
    assert_eq!(mesh.positions()[4], (5, 8, 7));
    assert_eq!(faces(&build_vertical_chunk_mesh(&chunk, 0)), 0);
    assert_eq!(faces(&build_vertical_chunk_mesh(&chunk, 64)), 0);
}

#[test]
fn a_vertical_layer_does_not_ask_the_layer_above_or_below() {
    let chunk = chunk_with(&[(5, 31, 5), (5, 32, 5)]);
    assert_eq!(faces(&build_chunk_mesh(&chunk)), 10);
    let lower = build_vertical_chunk_mesh(&chunk, 0);
    let upper = build_vertical_chunk_mesh(&chunk, 32);
    assert_eq!(faces(&lower), 6);
    assert_eq!(faces(&upper), 6);
    assert_eq!(faces_with_normal(&lower, (0, 1, 0)), 1);
    assert_eq!(faces_with_normal(&upper, (0, -1, 0)), 1);
    assert_eq!(upper.positions()[4], (5, 0, 5));
}

#[test]
fn a_vertical_layer_ends_at_the_top_of_the_chunk() {
    let chunk = chunk_with(&[(1, 79, 1), (1, 80, 1), (1, 95, 1)]);
    let mesh = build_vertical_chunk_mesh(&chunk, 80);
    assert_eq!(faces(&mesh), 12);
    assert_eq!(mesh.positions()[0], (1, 1, 1));
    assert_eq!(faces(&build_vertical_chunk_mesh(&chunk, 96)), 0);
    assert_eq!(faces(&build_vertical_chunk_mesh(&chunk, 97)), 0);
    assert_eq!(faces(&build_vertical_chunk_mesh(&chunk, usize::MAX)), 0);
}

#[test]
fn a_vertical_layer_asks_the_chunks_around() {
    let chunk = chunk_with(&[(19, 40, 7)]);
    let mut around = LoadedChunks::new();
    around.insert(1, 0, chunk_with(&[(0, 40, 7)]));
    assert_eq!(faces(&build_vertical_chunk_mesh_among(&chunk, Some(&around), 0, 0, 32)), 5);
    assert_eq!(faces(&build_vertical_chunk_mesh_among(&chunk, Some(&around), 0, 0, 64)), 0);
    assert_eq!(faces(&build_vertical_chunk_mesh_among(&chunk, Some(&around), 7, 0, 32)), 6);
}

#[test]
fn any_range_of_layers_can_be_meshed() {
    let chunk = chunk_with(&[(1, 10, 1), (1, 11, 1), (1, 12, 1)]);
    assert_eq!(faces(&build_mesh(&chunk, None, 0, 0, 11, 12)), 6);
    assert_eq!(faces(&build_mesh(&chunk, None, 0, 0, 10, 13)), 14);
    assert_eq!(faces(&build_mesh(&chunk, None, 0, 0, 11, 11)), 0);
    assert_eq!(build_mesh(&chunk, None, 0, 0, 11, 12).positions()[0], (1, 1, 1));
}

#[test]
fn neighbor_is_air_reads_the_chunks_at_hand() {
    let mut loaded = LoadedChunks::new();
    loaded.insert(0, 0, chunk_with(&[(5, 40, 7), (6, 40, 7)]));
    loaded.insert(1, 0, chunk_with(&[(0, 40, 7)]));
    assert!(!neighbor_is_air(&loaded, 0, 0, 5, 40, 7, CubeFace::Right));
    assert!(!neighbor_is_air(&loaded, 0, 0, 6, 40, 7, CubeFace::Left));
    assert!(neighbor_is_air(&loaded, 0, 0, 5, 40, 7, CubeFace::Left));
    assert!(neighbor_is_air(&loaded, 0, 0, 5, 40, 7, CubeFace::Top));
    assert!(neighbor_is_air(&loaded, 0, 0, 5, 40, 7, CubeFace::Front));
    assert!(!neighbor_is_air(&loaded, 0, 0, 19, 40, 7, CubeFace::Right));
    assert!(neighbor_is_air(&loaded, 0, 0, 19, 41, 7, CubeFace::Right));
    assert!(neighbor_is_air(&loaded, 0, 0, 0, 40, 7, CubeFace::Left));
    assert!(neighbor_is_air(&loaded, 3, 3, 5, 40, 7, CubeFace::Right));
}

#[test]
fn neighbor_is_air_above_and_below_the_world() {
    let full = Chunk::from_cells(vec![Voxel::Solid; CHUNK_SIZE * CHUNK_SIZE * TOTAL_HEIGHT])
        .unwrap();
    let mut loaded = LoadedChunks::new();
    loaded.insert(-1, -1, full);
    assert!(neighbor_is_air(&loaded, -1, -1, 3, 95, 3, CubeFace::Top));
    assert!(neighbor_is_air(&loaded, -1, -1, 3, 0, 3, CubeFace::Bottom));
    assert!(!neighbor_is_air(&loaded, -1, -1, 3, 94, 3, CubeFace::Top));
    assert!(!neighbor_is_air(&loaded, -1, -1, 3, 1, 3, CubeFace::Bottom));
    assert!(neighbor_is_air(&loaded, -1, -1, 19, 1, 3, CubeFace::Right));
    assert!(!neighbor_is_air(&loaded, -2, -1, 19, 1, 3, CubeFace::Right));
    assert!(!neighbor_is_air(&loaded, -1, -2, 4, 1, 19, CubeFace::Front));
}
