use voxel_world::loaded::{column_key, LoadedChunks};
use voxel_world::voxel::{Chunk, Voxel};

fn chunk_with(x: usize, y: usize, z: usize) -> Chunk {
    let mut chunk = Chunk::empty();
    assert!(chunk.set(x, y, z, Voxel::Solid));
    chunk
}

#[test]
fn column_keys_tell_columns_apart() {
    assert_eq!(column_key(i32::MIN, i32::MIN), 0);
    assert_eq!(column_key(i32::MAX, i32::MAX), u64::MAX);
    assert_eq!(column_key(0, 0), 0x8000_0000_8000_0000);
    assert_eq!(column_key(0, 1), 0x8000_0000_8000_0001);
    assert_eq!(column_key(1, 0), 0x8000_0001_8000_0000);
    assert_eq!(column_key(-1, 0), 0x7FFF_FFFF_8000_0000);
    assert_ne!(column_key(1, -1), column_key(-1, 1));
}

#[test]
fn chunks_are_found_by_column() {
    let mut loaded = LoadedChunks::new();
    assert!(loaded.get(0, 0).is_none());
    loaded.insert(2, -5, chunk_with(1, 1, 1));
    loaded.insert(-5, 2, chunk_with(2, 2, 2));
    assert_eq!(loaded.get(2, -5).unwrap().get(1, 1, 1), Some(Voxel::Solid));
    assert_eq!(loaded.get(-5, 2).unwrap().get(2, 2, 2), Some(Voxel::Solid));
    assert_eq!(loaded.get(-5, 2).unwrap().get(1, 1, 1), Some(Voxel::Air));
    assert!(loaded.get(2, 2).is_none());
}

#[test]
fn insert_replaces_and_remove_takes_out() {
    let mut loaded = LoadedChunks::new();
    loaded.insert(0, 0, chunk_with(1, 1, 1));
    loaded.insert(0, 0, chunk_with(2, 2, 2));
    assert_eq!(loaded.get(0, 0).unwrap().get(1, 1, 1), Some(Voxel::Air));
    assert_eq!(loaded.get(0, 0).unwrap().get(2, 2, 2), Some(Voxel::Solid));
    let taken = loaded.remove(0, 0).unwrap();
    assert_eq!(taken.get(2, 2, 2), Some(Voxel::Solid));
    assert!(loaded.get(0, 0).is_none());
    assert!(loaded.remove(0, 0).is_none());
}

#[test]
fn world_cells_are_found_left_of_zero_as_right_of_it() {
    let mut loaded = LoadedChunks::new();
    loaded.insert(-1, -1, chunk_with(19, 0, 19));
    loaded.insert(0, 0, chunk_with(0, 95, 0));
    loaded.insert(-2, 3, chunk_with(0, 40, 7));
    assert!(loaded.is_solid(-1, 0, -1));
    assert!(!loaded.is_solid(-2, 0, -1));
    assert!(!loaded.is_solid(-1, 1, -1));
    assert!(loaded.is_solid(0, 95, 0));
    assert!(!loaded.is_solid(0, 96, 0));
    assert!(!loaded.is_solid(0, -1, 0));
    assert!(loaded.is_solid(-40, 40, 67));
    assert!(!loaded.is_solid(-41, 40, 67));
    assert!(!loaded.is_solid(20, 95, 0));
    assert!(!loaded.is_solid(i64::MIN, 0, i64::MAX));
    assert!(!loaded.is_solid(0, i64::MAX, 0));
}
