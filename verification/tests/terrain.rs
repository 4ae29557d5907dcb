use voxel_world::constants::{CHUNK_SIZE, HEIGHT_BELOW, TOTAL_HEIGHT};
use voxel_world::mesher::build_vertical_chunk_mesh;
use voxel_world::terrain::{
    cave_sample_points, surface_sample_points, world_coord, TerrainSamples, WorldSeed,
    CAVE_SAMPLES, NOISE_ONE, SURFACE_SAMPLES, SURFACE_SIDE,
};
use voxel_world::voxel::{Chunk, Voxel};

fn flat(surface: i32, cave: i32) -> TerrainSamples {
    TerrainSamples::new(vec![surface; SURFACE_SAMPLES], vec![cave; CAVE_SAMPLES]).unwrap()
}

fn surface_index(x: i32, z: i32) -> usize {
    ((z + 1) as usize) * SURFACE_SIDE + (x + 1) as usize
}

#[test]
fn world_seed_default_is_12345() {
    assert_eq!(WorldSeed::default(), WorldSeed(12345));
}

#[test]
fn surface_seed_is_the_low_half() {
    assert_eq!(WorldSeed(12345).surface_seed(), 12345);
    assert_eq!(WorldSeed(0x1_0000_0005).surface_seed(), 5);
    assert_eq!(WorldSeed(u64::MAX).surface_seed(), u32::MAX);
}

#[test]
fn cave_seed_is_one_more_and_wraps() {
    assert_eq!(WorldSeed(12345).cave_seed(), 12346);
    assert_eq!(WorldSeed(0xFFFF_FFFF).cave_seed(), 0);
    assert_eq!(WorldSeed(u64::MAX).cave_seed(), 0);
}

#[test]
fn world_coord_left_of_zero() {
    assert_eq!(world_coord(0, 0), 0);
    assert_eq!(world_coord(0, -1), -1);
    assert_eq!(world_coord(-1, 0), -20);
    assert_eq!(world_coord(-1, 19), -1);
    assert_eq!(world_coord(3, 7), 67);
    assert_eq!(world_coord(i32::MIN, -1), -42_949_672_961);
    assert_eq!(world_coord(i32::MAX, 20), 42_949_672_960);
}

#[test]
fn surface_points_cover_the_chunk_and_its_rim() {
    let points = surface_sample_points(-1, 2);
    assert_eq!(points.len(), SURFACE_SAMPLES);
    assert_eq!(points[0], (-21, 39));
    assert_eq!(points[1], (-20, 39));
    assert_eq!(points[21], (0, 39));
    assert_eq!(points[22], (-21, 40));
    assert_eq!(points[surface_index(0, 0)], (-20, 40));
    assert_eq!(points[SURFACE_SAMPLES - 1], (0, 60));
}

#[test]
fn cave_points_follow_the_cells() {
    let points = cave_sample_points(2, -3);
    assert_eq!(points.len(), CAVE_SAMPLES);
    assert_eq!(points[0], (40, -32, -60));
    assert_eq!(points[1], (41, -32, -60));
    assert_eq!(points[CHUNK_SIZE], (40, -32, -59));
    assert_eq!(points[CHUNK_SIZE * CHUNK_SIZE], (40, -31, -60));
    assert_eq!(points[(5 * CHUNK_SIZE + 7) * CHUNK_SIZE + 9], (49, -27, -53));
    assert_eq!(points[CAVE_SAMPLES - 1], (59, -1, -41));
}

#[test]
fn samples_need_exact_lengths() {
    assert!(TerrainSamples::new(vec![0; SURFACE_SAMPLES], vec![0; CAVE_SAMPLES]).is_some());
    assert!(TerrainSamples::new(vec![0; SURFACE_SAMPLES - 1], vec![0; CAVE_SAMPLES]).is_none());
    assert!(TerrainSamples::new(vec![0; SURFACE_SAMPLES], vec![0; CAVE_SAMPLES + 1]).is_none());
    assert!(TerrainSamples::new(Vec::new(), Vec::new()).is_none());
}

#[test]
fn surface_height_maps_minus_one_to_one_onto_the_heights() {
    assert_eq!(flat(0, 0).surface_height(4, 4), 32);
    assert_eq!(flat(NOISE_ONE / 2, 0).surface_height(4, 4), 48);
    assert_eq!(flat(-NOISE_ONE / 2, 0).surface_height(4, 4), 16);
    assert_eq!(flat(-NOISE_ONE, 0).surface_height(0, 0), 0);
    assert_eq!(flat(NOISE_ONE, 0).surface_height(19, 19), 63);
}

#[test]
fn surface_height_holds_wild_samples_within_the_heights() {
    assert_eq!(flat(i32::MAX, 0).surface_height(3, 3), 63);
    assert_eq!(flat(i32::MIN, 0).surface_height(3, 3), 0);
}

#[test]
fn surface_height_averages_five_samples() {
    let mut surface = vec![0; SURFACE_SAMPLES];
    surface[surface_index(6, 6)] = NOISE_ONE;
    let samples = TerrainSamples::new(surface, vec![0; CAVE_SAMPLES]).unwrap();
    // (65536 + 5 * 65536) * 64 / (10 * 65536) = 38.4
    assert_eq!(samples.surface_height(6, 6), 38);
    assert_eq!(samples.surface_height(5, 6), 38);
    assert_eq!(samples.surface_height(7, 6), 38);
    assert_eq!(samples.surface_height(6, 5), 38);
    assert_eq!(samples.surface_height(6, 7), 38);
    assert_eq!(samples.surface_height(5, 5), 32);
    assert_eq!(samples.surface_height(7, 7), 32);
    assert_eq!(samples.surface_height(8, 6), 32);
}

#[test]
fn surface_height_reads_the_rim_beyond_the_chunk() {
    let mut surface = vec![0; SURFACE_SAMPLES];
    surface[surface_index(-1, 0)] = NOISE_ONE;
    surface[surface_index(19, 20)] = NOISE_ONE;
    let samples = TerrainSamples::new(surface, vec![0; CAVE_SAMPLES]).unwrap();
    assert_eq!(samples.surface_height(0, 0), 38);
    assert_eq!(samples.surface_height(1, 0), 32);
    assert_eq!(samples.surface_height(19, 19), 38);
    assert_eq!(samples.surface_height(18, 19), 32);
}

#[test]
fn cave_threshold_is_three_tenths() {
    // 0.3 * 65536 = 19660.8
    assert!(!flat(0, 19660).cave_solid(0, 0, 0));
    assert!(flat(0, 19661).cave_solid(0, 0, 0));
    assert!(!flat(0, 0).cave_solid(3, 31, 3));
    assert!(!flat(0, -NOISE_ONE).cave_solid(3, 31, 3));
    assert!(flat(0, NOISE_ONE).cave_solid(19, 31, 19));
}

#[test]
fn chunk_is_solid_up_to_the_surface() {
    let chunk = Chunk::new(&flat(0, 0));
    // Surface height 32: world heights 0 ..= 32 are layers 32 ..= 64.
    for y in 0..TOTAL_HEIGHT {
        let expected = if (HEIGHT_BELOW..=HEIGHT_BELOW + 32).contains(&y) {
            Voxel::Solid
        } else {
            Voxel::Air
        };
        assert_eq!(chunk.get(0, y, 0), Some(expected), "layer {}", y);
        assert_eq!(chunk.get(19, y, 7), Some(expected), "layer {}", y);
    }
}

#[test]
fn chunk_carves_caves_below_zero_only() {
    let mut cave = vec![0; CAVE_SAMPLES];
    cave[(3 * CHUNK_SIZE + 4) * CHUNK_SIZE + 5] = NOISE_ONE;
    let samples = TerrainSamples::new(vec![-NOISE_ONE; SURFACE_SAMPLES], cave).unwrap();
    let chunk = Chunk::new(&samples);
    assert_eq!(chunk.get(5, 3, 4), Some(Voxel::Solid));
    assert_eq!(chunk.get(4, 3, 5), Some(Voxel::Air));
    assert_eq!(chunk.get(5, 4, 4), Some(Voxel::Air));
    // Surface height 0: only the layer at world height 0 is solid above.
    assert_eq!(chunk.get(5, HEIGHT_BELOW, 4), Some(Voxel::Solid));
    assert_eq!(chunk.get(5, HEIGHT_BELOW + 1, 4), Some(Voxel::Air));
    assert_eq!(chunk.get(5, HEIGHT_BELOW - 1, 4), Some(Voxel::Air));
}

#[test]
fn same_samples_give_the_same_chunk() {
    let mut surface = vec![0; SURFACE_SAMPLES];
    let mut cave = vec![0; CAVE_SAMPLES];
    for (i, s) in surface.iter_mut().enumerate() {
        *s = ((i as i32 * 7919) % 131072) - 65536;
    }
    for (i, s) in cave.iter_mut().enumerate() {
        *s = ((i as i32 * 104729) % 131072) - 65536;
    }
    let first = Chunk::new(&TerrainSamples::new(surface.clone(), cave.clone()).unwrap());
    let second = Chunk::new(&TerrainSamples::new(surface, cave).unwrap());
    let mut solid = 0;
    for y in 0..TOTAL_HEIGHT {
        for z in 0..CHUNK_SIZE {
            for x in 0..CHUNK_SIZE {
                assert_eq!(first.get(x, y, z), second.get(x, y, z));
                if first.get(x, y, z) == Some(Voxel::Solid) {
                    solid += 1;
                }
            }
        }
    }
    assert!(solid > 0);
}

#[test]
fn cave_noise_below_threshold_leaves_air_and_no_surface() {
    let chunk = Chunk::new(&flat(0, 19660));
    for y in 0..HEIGHT_BELOW {
        for z in 0..CHUNK_SIZE {
            for x in 0..CHUNK_SIZE {
                assert_eq!(chunk.get(x, y, z), Some(Voxel::Air));
            }
        }
    }
    let mesh = build_vertical_chunk_mesh(&chunk, 0);
    assert_eq!(mesh.positions().len(), 0);
    assert_eq!(mesh.normals().len(), 0);
    assert_eq!(mesh.indices().len(), 0);
}

#[test]
fn duplicate_keeps_the_cells() {
    let mut chunk = Chunk::empty();
    chunk.set(1, 2, 3, Voxel::Solid);
    let copy = chunk.duplicate();
    assert_eq!(copy.get(1, 2, 3), Some(Voxel::Solid));
    assert_eq!(copy.get(3, 2, 1), Some(Voxel::Air));
}
