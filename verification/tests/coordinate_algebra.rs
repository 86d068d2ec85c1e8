use voxel_world::coords::{BlockPos, ChunkPos, CHUNK_SIZE};
use voxel_world::coords::{Xonly, Yonly, Zonly, XYonly, YZonly, XZonly};

fn check_roundtrip(x: i64, y: i64, z: i64) {
    let b = BlockPos::new(x, y, z);
    let (c, l) = b.as_chunk_block_pos();
    assert!(l.is_chunk_local());
    assert_eq!(c.x * CHUNK_SIZE as i64 + l.x, b.x);
    assert_eq!(c.y * CHUNK_SIZE as i64 + l.y, b.y);
    assert_eq!(c.z * CHUNK_SIZE as i64 + l.z, b.z);
}

#[test]
fn coordinate_roundtrip_holds_over_sample() {
    // a spread of values including negatives and chunk boundaries,
    // plus a deterministic pseudo-random walk
    let interesting: [i64; 12] = [0, 1, -1, 31, 32, 33, -31, -32, -33, 1000000007, -987654321, 4611686018427387904];
    for &x in interesting.iter() {
        for &y in interesting.iter() {
            check_roundtrip(x, y, x.wrapping_sub(y));
        }
    }
    let mut state: i64 = 0x12345678;
    for _ in 0..1000 {
        state = state.wrapping_mul(6364136223846793005).wrapping_add(1442695040888963407);
        let x = state >> 8;
        state = state.wrapping_mul(6364136223846793005).wrapping_add(1442695040888963407);
        let y = state >> 20;
        state = state.wrapping_mul(6364136223846793005).wrapping_add(1442695040888963407);
        let z = state >> 2;
        check_roundtrip(x, y, z);
    }
}

#[test]
fn floor_division_on_negatives() {
    assert_eq!(BlockPos::new(-1, -1, -1).as_chunk_pos(), ChunkPos::new(-1, -1, -1));
    assert_eq!(BlockPos::new(-32, -32, -32).as_chunk_pos(), ChunkPos::new(-1, -1, -1));
    assert_eq!(BlockPos::new(-33, -33, -33).as_chunk_pos(), ChunkPos::new(-2, -2, -2));
    assert_eq!(BlockPos::new(31, 31, 31).as_chunk_pos(), ChunkPos::new(0, 0, 0));
    assert_eq!(BlockPos::new(32, 32, 32).as_chunk_pos(), ChunkPos::new(1, 1, 1));
    assert_eq!(BlockPos::new(-1, 0, 31).as_chunk_local(), BlockPos::new(31, 0, 31));
    assert_eq!(BlockPos::new(-32, 33, -63).as_chunk_local(), BlockPos::new(0, 1, 1));
}

#[test]
fn is_chunk_local_bounds() {
    assert!(BlockPos::new(0, 0, 0).is_chunk_local());
    assert!(BlockPos::new(31, 31, 31).is_chunk_local());
    assert!(!BlockPos::new(32, 0, 0).is_chunk_local());
    assert!(!BlockPos::new(0, -1, 0).is_chunk_local());
}

#[test]
fn chunk_to_block_corner() {
    assert_eq!(ChunkPos::new(2, -1, 0).into_block_pos(), BlockPos::new(64, -32, 0));
}

#[test]
fn axis_masks_zero_other_components() {
    let v = ChunkPos::new(3, -4, 5);
    assert_eq!(v.xonly(), ChunkPos::new(3, 0, 0));
    assert_eq!(v.yonly(), ChunkPos::new(0, -4, 0));
    assert_eq!(v.zonly(), ChunkPos::new(0, 0, 5));
    assert_eq!(v.xyonly(), ChunkPos::new(3, -4, 0));
    assert_eq!(v.yzonly(), ChunkPos::new(0, -4, 5));
    assert_eq!(v.xzonly(), ChunkPos::new(3, 0, 5));
}
