use voxel_world::block::{Block, BlockFace, TextureIndex};
use voxel_world::chunk::{Chunk, NeighborPlane, VisitedBlockMap};
use voxel_world::coords::{BlockPos, ChunkPos};

fn plane_filled(cell: Option<bool>) -> NeighborPlane {
    let mut plane = NeighborPlane::new_absent();
    for u in -1..=32 {
        for v in -1..=32 {
            plane.set(u, v, cell);
        }
    }
    plane
}

#[test]
fn air_chunk_meshes_to_nothing() {
    let mut c = Chunk::new_test_air(ChunkPos::new(0, 0, 0));
    let mut vm = VisitedBlockMap::new();
    let exposed = plane_filled(Some(true));
    for fi in 0..6 {
        let face = BlockFace::from_index(fi);
        for layer in 0..32 {
            c.mesh_update_inner(face, layer, &mut vm, &exposed);
        }
    }
    assert!(c.get_chunk_mesh().is_empty());
}

#[test]
fn occluded_layer_meshes_to_nothing() {
    let mut c = Chunk::new_uniform(ChunkPos::new(0, 0, 0), Block::Stone);
    let mut vm = VisitedBlockMap::new();
    let occluded = plane_filled(Some(false));
    for fi in 0..6 {
        let face = BlockFace::from_index(fi);
        for layer in 0..32 {
            c.mesh_update_inner(face, layer, &mut vm, &occluded);
        }
    }
    assert!(c.get_chunk_mesh().is_empty());
}

#[test]
fn unknown_neighbors_mesh_to_nothing() {
    // never mesh into the unknown: an absent neighbour plane skips every cell
    let mut c = Chunk::new_uniform(ChunkPos::new(0, 0, 0), Block::Stone);
    let mut vm = VisitedBlockMap::new();
    let absent = NeighborPlane::new_absent();
    c.mesh_update_inner(BlockFace::XPos, 31, &mut vm, &absent);
    assert!(c.get_chunk_mesh().is_empty());
}

#[test]
fn uniform_exposed_layer_merges_to_one_quad() {
    let mut c = Chunk::new_uniform(ChunkPos::new(0, 0, 0), Block::Stone);
    let mut vm = VisitedBlockMap::new();
    let exposed = plane_filled(Some(true));
    c.mesh_update_inner(BlockFace::YPos, 31, &mut vm, &exposed);
    let quads = c.get_chunk_mesh();
    assert_eq!(quads.len(), 1);
    let q = quads[0];
    assert_eq!(q.tl.texture_index, TextureIndex::Stone.as_i32());
    // the single quad spans the whole face at world height 32
    assert_eq!(q.tl.position, BlockPos::new(0, 32, 32));
    assert_eq!(q.br.position, BlockPos::new(32, 32, 0));
    assert_eq!(q.tl.normal, BlockPos::new(0, 1, 0));
}

#[test]
fn two_block_types_do_not_merge() {
    let mut c = Chunk::new_uniform(ChunkPos::new(0, 0, 0), Block::Stone);
    // a single grass block in the exposed top layer splits the rectangle
    c.set_block(BlockPos::new(0, 31, 0), Block::Grass);
    let mut vm = VisitedBlockMap::new();
    let exposed = plane_filled(Some(true));
    c.mesh_update_inner(BlockFace::YPos, 31, &mut vm, &exposed);
    let quads = c.get_chunk_mesh();
    assert!(quads.len() > 1);
}

#[test]
fn remesh_is_idempotent() {
    let mut c = Chunk::new_test(ChunkPos::new(0, 0, 0));
    let mut vm = VisitedBlockMap::new();
    let exposed = plane_filled(Some(true));
    c.mesh_update_inner(BlockFace::ZNeg, 0, &mut vm, &exposed);
    let first = c.get_chunk_mesh();
    c.mesh_update_inner(BlockFace::ZNeg, 0, &mut vm, &exposed);
    let second = c.get_chunk_mesh();
    assert_eq!(first, second);
    // and a third pass with a fresh scratch map changes nothing either
    let mut vm2 = VisitedBlockMap::new();
    c.mesh_update_inner(BlockFace::ZNeg, 0, &mut vm2, &exposed);
    assert_eq!(c.get_chunk_mesh(), first);
}

#[test]
fn plane_is_authoritative_for_neighbors() {
    // the mesher trusts the neighbour-side plane it is handed: even though
    // the block beyond (9,10,10) inside the chunk is air, a plane claiming
    // full occlusion suppresses every face of the slice
    let mut c = Chunk::new_uniform(ChunkPos::new(0, 0, 0), Block::Stone);
    c.set_block(BlockPos::new(10, 10, 10), Block::Air);
    let mut vm = VisitedBlockMap::new();
    let occluded = plane_filled(Some(false));
    c.mesh_update_inner(BlockFace::XPos, 9, &mut vm, &occluded);
    assert!(c.get_chunk_mesh().is_empty());
}

#[test]
fn set_block_does_not_invalidate_mesh() {
    let mut c = Chunk::new_uniform(ChunkPos::new(0, 0, 0), Block::Stone);
    let mut vm = VisitedBlockMap::new();
    let exposed = plane_filled(Some(true));
    c.mesh_update_inner(BlockFace::YPos, 31, &mut vm, &exposed);
    let before = c.get_chunk_mesh();
    c.set_block(BlockPos::new(5, 31, 5), Block::Air);
    // the cache still holds the stale quads until a remesh is requested
    assert_eq!(c.get_chunk_mesh(), before);
    c.mesh_update_inner(BlockFace::YPos, 31, &mut vm, &exposed);
    assert!(c.get_chunk_mesh().len() > 1);
}

#[test]
fn chunk_block_accessors() {
    let mut c = Chunk::new_uniform(ChunkPos::new(1, 2, 3), Block::Dirt);
    assert_eq!(c.get_block(BlockPos::new(0, 0, 0)), Block::Dirt);
    c.set_block(BlockPos::new(4, 5, 6), Block::Grass);
    assert_eq!(c.get_block(BlockPos::new(4, 5, 6)), Block::Grass);
    assert_eq!(c.get_block(BlockPos::new(4, 5, 7)), Block::Dirt);
    assert_eq!(c.block_position, BlockPos::new(32, 64, 96));
}

#[test]
fn test_chunk_has_air_pockets() {
    let c = Chunk::new_test(ChunkPos::new(0, 0, 0));
    assert_eq!(c.get_block(BlockPos::new(5, 16, 24)), Block::Air);
    assert_eq!(c.get_block(BlockPos::new(0, 0, 0)), Block::Air);
    assert_eq!(c.get_block(BlockPos::new(13, 19, 0)), Block::Air);
    assert_eq!(c.get_block(BlockPos::new(1, 1, 1)), Block::Stone);
}

#[test]
fn visited_map_round_trips() {
    let mut vm = VisitedBlockMap::new();
    vm.set_face_coord(BlockFace::ZPos, 7);
    let p = vm.get_block_pos(3, 4);
    assert_eq!(p, BlockPos::new(3, 4, 7));
    assert!(!vm.is_visited(p));
    vm.set_visited(p, true);
    assert!(vm.is_visited(p));
    let q = vm.get_block_pos_offset(p, 2, 5);
    assert_eq!(q, BlockPos::new(5, 9, 7));
    vm.set_occlusion_level(3, 4, 2);
    let o = vm.get_occlusion_data(p);
    assert_eq!(o.bl, 2);
}

fn six_planes(cell: Option<bool>) -> [NeighborPlane; 6] {
    [
        plane_filled(cell),
        plane_filled(cell),
        plane_filled(cell),
        plane_filled(cell),
        plane_filled(cell),
        plane_filled(cell),
    ]
}

#[test]
fn full_remesh_of_air_chunk_is_empty() {
    let mut c = Chunk::new_test_air(ChunkPos::new(0, 0, 0));
    c.chunk_mesh_update(&six_planes(Some(true)));
    assert!(c.get_chunk_mesh().is_empty());
}

#[test]
fn full_remesh_under_occlusion_is_empty() {
    let mut c = Chunk::new_uniform(ChunkPos::new(0, 0, 0), Block::Stone);
    c.chunk_mesh_update(&six_planes(Some(false)));
    assert!(c.get_chunk_mesh().is_empty());
}

#[test]
fn full_remesh_fully_exposed_merges_each_slice() {
    // with every face's plane claiming a translucent neighbour, every one of
    // the 6 x 32 slices merges into a single full-layer quad
    let mut c = Chunk::new_uniform(ChunkPos::new(0, 0, 0), Block::Stone);
    c.chunk_mesh_update(&six_planes(Some(true)));
    assert_eq!(c.get_chunk_mesh().len(), 192);
}
