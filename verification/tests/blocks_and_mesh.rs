use voxel_world::block::{
    Air, Block, BlockFace, BlockType, Dirt, Grass, OcclusionCorners, RockyDirt, Stone, TestBlock,
    TextureIndex,
};
use voxel_world::coords::BlockPos;
use voxel_world::mesh::BlockFaceMesh;

#[test]
fn block_constructors_and_names() {
    assert_eq!(Air::new(), Block::Air);
    assert_eq!(Stone::new(), Block::Stone);
    assert_eq!(Dirt::new(), Block::Dirt);
    assert_eq!(Grass::new(), Block::Grass);
    assert_eq!(RockyDirt::new(), Block::RockyDirt);
    assert_eq!(TestBlock::new(), Block::TestBlock);
    assert_eq!(Block::Air.name(), "air");
    assert_eq!(Block::Stone.name(), "stone");
    assert_eq!(Block::RockyDirt.name(), "rocky dirt");
    assert_eq!(Block::TestBlock.name(), "test block");
}

#[test]
fn block_type_tags() {
    assert_eq!(Block::Air.block_type(), BlockType::Air);
    assert_eq!(Block::Grass.block_type(), BlockType::Grass);
    assert_eq!(Block::Stone.block_type(), BlockType::Stone);
}

#[test]
fn translucency_flags() {
    assert!(Block::Air.is_translucent());
    assert!(Block::TestBlock.is_translucent());
    assert!(!Block::Stone.is_translucent());
    assert!(!Block::Dirt.is_translucent());
    assert!(!Block::Grass.is_translucent());
    assert!(!Block::RockyDirt.is_translucent());
    assert!(Block::Air.is_air());
    assert!(!Block::Stone.is_air());
}

#[test]
fn texture_indices() {
    assert_eq!(Block::Stone.texture_index(), TextureIndex::Stone);
    assert_eq!(Block::Grass.texture_index(), TextureIndex::Grass);
    assert_eq!(TextureIndex::TestBlock.as_i32(), 0);
    assert_eq!(TextureIndex::Stone.as_i32(), 1);
    assert_eq!(TextureIndex::Dirt.as_i32(), 2);
    assert_eq!(TextureIndex::Grass.as_i32(), 3);
    assert_eq!(TextureIndex::num_textures(), 4);
    let paths = TextureIndex::resource_paths();
    assert_eq!(paths.len(), 4);
    assert_eq!(paths[1], "textures/stone.png");
}

#[test]
fn face_iteration_order() {
    let mut it = BlockFace::iter();
    let mut seen = Vec::new();
    while let Some(f) = it.next() {
        seen.push(f);
    }
    assert_eq!(
        seen,
        vec![
            BlockFace::XPos,
            BlockFace::XNeg,
            BlockFace::YPos,
            BlockFace::YNeg,
            BlockFace::ZPos,
            BlockFace::ZNeg,
        ]
    );
}

#[test]
fn face_offsets_and_parity() {
    assert_eq!(BlockFace::XPos.block_pos_offset(), BlockPos::new(1, 0, 0));
    assert_eq!(BlockFace::YNeg.block_pos_offset(), BlockPos::new(0, -1, 0));
    assert_eq!(BlockFace::ZNeg.block_pos_offset(), BlockPos::new(0, 0, -1));
    assert!(BlockFace::XPos.is_positive_face());
    assert!(!BlockFace::XPos.is_negative_face());
    assert!(BlockFace::ZNeg.is_negative_face());
    assert_eq!(BlockFace::XPos.index(), 0);
    assert_eq!(BlockFace::ZNeg.index(), 5);
}

#[test]
fn occlusion_corner_getters() {
    let o = OcclusionCorners { tl: 1, tr: 2, bl: 3, br: 0 };
    assert_eq!(o.pos_corner(), 2);
    assert_eq!(o.neg_corner(), 3);
    assert_eq!(o.xpos_yneg_corner(), 0);
    assert_eq!(o.xneg_ypos_corner(), 1);
}

#[test]
fn quad_index_pattern() {
    assert_eq!(BlockFaceMesh::indicies(), [0, 2, 1, 2, 0, 3]);
}

#[test]
fn unit_quad_from_cube_corners() {
    let o = OcclusionCorners { tl: 0, tr: 0, bl: 0, br: 0 };
    let q = BlockFaceMesh::from_cube_corners(
        BlockFace::XPos,
        TextureIndex::Stone,
        BlockPos::new(0, 0, 0),
        BlockPos::new(0, 0, 0),
        o,
    );
    // seen from +x: tl at (1,1,0), bl at (1,0,0), br at (1,0,1), tr at (1,1,1)
    assert_eq!(q.tl.position, BlockPos::new(1, 1, 0));
    assert_eq!(q.bl.position, BlockPos::new(1, 0, 0));
    assert_eq!(q.br.position, BlockPos::new(1, 0, 1));
    assert_eq!(q.tr.position, BlockPos::new(1, 1, 1));
    assert_eq!(q.tl.normal, BlockPos::new(1, 0, 0));
    assert_eq!(q.tl.texture_index, 1);
    assert_eq!(q.tl.occlusion_level, 0);
}

#[test]
fn merged_quad_spans_rectangle() {
    let o = OcclusionCorners { tl: 0, tr: 0, bl: 0, br: 0 };
    // a 32 x 32 rectangle on the top face of a chunk at the origin
    let q = BlockFaceMesh::from_cube_corners(
        BlockFace::YPos,
        TextureIndex::Grass,
        BlockPos::new(0, 31, 0),
        BlockPos::new(31, 31, 31),
        o,
    );
    assert_eq!(q.tl.position, BlockPos::new(0, 32, 32));
    assert_eq!(q.br.position, BlockPos::new(32, 32, 0));
}
