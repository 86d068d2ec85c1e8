//! Textured quads emitted by the mesher. All geometry here is integer block
//! geometry; the render sink turns it into floating-point vertex buffers.

use vstd::prelude::*;
use crate::coords::BlockPos;
use crate::block::{BlockFace, TextureIndex, OcclusionCorners};

verus! {

/// Coordinates this far from the origin stay clear of `i64` overflow when a
/// quad corner adds its unit offsets.
pub open spec fn coord_small(c: int) -> bool {
    -0x4000_0000_0000_0000 <= c <= 0x4000_0000_0000_0000
}

pub open spec fn pos_small(p: BlockPos) -> bool {
    coord_small(p.x as int) && coord_small(p.y as int) && coord_small(p.z as int)
}

/// All four occlusion levels are valid, i.e. in `[0, 3]`.
pub open spec fn occ_corners_ok(o: OcclusionCorners) -> bool {
    o.tl <= 3 && o.tr <= 3 && o.bl <= 3 && o.br <= 3
}

/// One corner of a block face quad: integer lattice position, outward unit
/// normal, atlas texture index and the occlusion level that shades it.
#[derive(Clone, Copy, PartialEq, Eq, Structural, Debug)]
pub struct BlockVertex {
    pub position: BlockPos,
    pub normal: BlockPos,
    pub texture_index: i32,
    pub occlusion_level: u8,
}

impl BlockVertex {
    /// Valid occlusion levels are 0 through 3; anything else is a caller error.
    pub fn new(position: BlockPos, normal: BlockPos, texture_index: TextureIndex, occlusion_level: u8) -> (r: BlockVertex)
        requires
            occlusion_level <= 3,
        ensures
            r.position == position,
            r.normal == normal,
            r.texture_index == texture_index.spec_as_i32(),
            r.occlusion_level == occlusion_level,
    {
        BlockVertex {
            position,
            normal,
            texture_index: texture_index.as_i32(),
            occlusion_level,
        }
    }
}

/// One rectangular face quad: four coplanar vertices. The front of the face
/// is the side from which the vertices run clockwise, so the fixed index
/// pattern of `indicies` culls the back side.
#[derive(Clone, Copy, PartialEq, Eq, Structural, Debug)]
pub struct BlockFaceMesh {
    pub tl: BlockVertex,
    pub bl: BlockVertex,
    pub br: BlockVertex,
    pub tr: BlockVertex,
}

/// Componentwise sum, used for spec-level corner geometry.
pub open spec fn pos_sum(a: BlockPos, b: BlockPos) -> BlockPos {
    BlockPos { x: (a.x + b.x) as i64, y: (a.y + b.y) as i64, z: (a.z + b.z) as i64 }
}

/// Unit offset from the top-left corner block to its quad corner vertex.
pub open spec fn tl_corner_off(face: BlockFace) -> BlockPos {
    match face {
        BlockFace::XPos => BlockPos { x: 1i64, y: 1i64, z: 0i64 },
        BlockFace::XNeg => BlockPos { x: 0i64, y: 1i64, z: 1i64 },
        BlockFace::YPos => BlockPos { x: 0i64, y: 1i64, z: 1i64 },
        BlockFace::YNeg => BlockPos { x: 0i64, y: 0i64, z: 0i64 },
        BlockFace::ZPos => BlockPos { x: 1i64, y: 1i64, z: 1i64 },
        BlockFace::ZNeg => BlockPos { x: 0i64, y: 1i64, z: 0i64 },
    }
}

/// Unit offset from the bottom-right corner block to its quad corner vertex.
pub open spec fn br_corner_off(face: BlockFace) -> BlockPos {
    match face {
        BlockFace::XPos => BlockPos { x: 1i64, y: 0i64, z: 1i64 },
        BlockFace::XNeg => BlockPos { x: 0i64, y: 0i64, z: 0i64 },
        BlockFace::YPos => BlockPos { x: 1i64, y: 1i64, z: 0i64 },
        BlockFace::YNeg => BlockPos { x: 1i64, y: 0i64, z: 1i64 },
        BlockFace::ZPos => BlockPos { x: 0i64, y: 0i64, z: 1i64 },
        BlockFace::ZNeg => BlockPos { x: 1i64, y: 0i64, z: 0i64 },
    }
}

/// Bottom-left corner vertex, mixed from the tl and br corner vertices
/// according to which two axes span the face.
pub open spec fn bl_corner(face: BlockFace, tl: BlockPos, br: BlockPos) -> BlockPos {
    match face {
        BlockFace::XPos | BlockFace::XNeg => BlockPos { x: tl.x, y: br.y, z: tl.z },
        BlockFace::YPos | BlockFace::YNeg => BlockPos { x: tl.x, y: tl.y, z: br.z },
        BlockFace::ZPos | BlockFace::ZNeg => BlockPos { x: tl.x, y: br.y, z: tl.z },
    }
}

/// Top-right corner vertex, mixed from the tl and br corner vertices.
pub open spec fn tr_corner(face: BlockFace, tl: BlockPos, br: BlockPos) -> BlockPos {
    match face {
        BlockFace::XPos | BlockFace::XNeg => BlockPos { x: tl.x, y: tl.y, z: br.z },
        BlockFace::YPos | BlockFace::YNeg => BlockPos { x: br.x, y: tl.y, z: tl.z },
        BlockFace::ZPos | BlockFace::ZNeg => BlockPos { x: br.x, y: tl.y, z: tl.z },
    }
}

/// The quad built from the top-left and bottom-right corner blocks of a
/// merged rectangle, as seen from outside the face.
pub open spec fn spec_from_corners(
    face: BlockFace,
    texture_index: TextureIndex,
    tl_corner_block: BlockPos,
    br_corner_block: BlockPos,
    occlusion_data: OcclusionCorners,
) -> BlockFaceMesh {
    let tl = pos_sum(tl_corner_block, tl_corner_off(face));
    let br = pos_sum(br_corner_block, br_corner_off(face));
    let bl = bl_corner(face, tl, br);
    let tr = tr_corner(face, tl, br);
    let normal = face.spec_block_pos_offset();
    BlockFaceMesh {
        tl: BlockVertex {
            position: tl,
            normal,
            texture_index: texture_index.spec_as_i32() as i32,
            occlusion_level: occlusion_data.tl,
        },
        bl: BlockVertex {
            position: bl,
            normal,
            texture_index: texture_index.spec_as_i32() as i32,
            occlusion_level: occlusion_data.bl,
        },
        br: BlockVertex {
            position: br,
            normal,
            texture_index: texture_index.spec_as_i32() as i32,
            occlusion_level: occlusion_data.br,
        },
        tr: BlockVertex {
            position: tr,
            normal,
            texture_index: texture_index.spec_as_i32() as i32,
            occlusion_level: occlusion_data.tr,
        },
    }
}

/// Remapping of a merged rectangle's cube corners and occlusion levels into
/// the tl/br corner blocks of the quad, per face orientation.
pub open spec fn spec_cube_corner_args(
    face: BlockFace,
    neg_corner_block: BlockPos,
    pos_corner_block: BlockPos,
    occlusion_data: OcclusionCorners,
) -> (BlockPos, BlockPos, OcclusionCorners) {
    let n = neg_corner_block;
    let p = pos_corner_block;
    let o = occlusion_data;
    match face {
        BlockFace::XPos => (
            BlockPos { x: p.x, y: p.y, z: n.z },
            BlockPos { x: p.x, y: n.y, z: p.z },
            OcclusionCorners { tl: o.br, tr: o.tr, bl: o.bl, br: o.tl },
        ),
        BlockFace::XNeg => (
            BlockPos { x: n.x, y: p.y, z: p.z },
            BlockPos { x: n.x, y: n.y, z: n.z },
            OcclusionCorners { tl: o.tr, tr: o.br, bl: o.tl, br: o.bl },
        ),
        BlockFace::YPos => (
            BlockPos { x: n.x, y: p.y, z: p.z },
            BlockPos { x: p.x, y: p.y, z: n.z },
            OcclusionCorners { tl: o.tl, tr: o.tr, bl: o.bl, br: o.br },
        ),
        BlockFace::YNeg => (
            BlockPos { x: n.x, y: n.y, z: n.z },
            BlockPos { x: p.x, y: n.y, z: p.z },
            OcclusionCorners { tl: o.bl, tr: o.br, bl: o.tl, br: o.tr },
        ),
        BlockFace::ZPos => (
            BlockPos { x: p.x, y: p.y, z: p.z },
            BlockPos { x: n.x, y: n.y, z: p.z },
            OcclusionCorners { tl: o.tr, tr: o.tl, bl: o.br, br: o.bl },
        ),
        BlockFace::ZNeg => (
            BlockPos { x: n.x, y: p.y, z: n.z },
            BlockPos { x: p.x, y: n.y, z: n.z },
            OcclusionCorners { tl: o.tl, tr: o.tr, bl: o.bl, br: o.br },
        ),
    }
}

/// The quad built from the negative and positive cube corner blocks of a
/// merged rectangle, occlusion levels given in cube-corner terms.
pub open spec fn spec_from_cube_corners(
    face: BlockFace,
    texture_index: TextureIndex,
    neg_corner_block: BlockPos,
    pos_corner_block: BlockPos,
    occlusion_data: OcclusionCorners,
) -> BlockFaceMesh {
    let (tl, br, occ) = spec_cube_corner_args(face, neg_corner_block, pos_corner_block, occlusion_data);
    spec_from_corners(face, texture_index, tl, br, occ)
}

impl BlockFaceMesh {
    /// Builds the quad between the given top-left and bottom-right corner
    /// blocks; occlusion levels are already in tl/bl/br/tr order.
    pub fn from_corners(
        face: BlockFace,
        texture_index: TextureIndex,
        tl_corner_block: BlockPos,
        br_corner_block: BlockPos,
        occlusion_data: OcclusionCorners,
    ) -> (r: BlockFaceMesh)
        requires
            pos_small(tl_corner_block),
            pos_small(br_corner_block),
            occ_corners_ok(occlusion_data),
        ensures
            r == spec_from_corners(face, texture_index, tl_corner_block, br_corner_block, occlusion_data),
    {
        let tl_off = match face {
            BlockFace::XPos => BlockPos { x: 1, y: 1, z: 0 },
            BlockFace::XNeg => BlockPos { x: 0, y: 1, z: 1 },
            BlockFace::YPos => BlockPos { x: 0, y: 1, z: 1 },
            BlockFace::YNeg => BlockPos { x: 0, y: 0, z: 0 },
            BlockFace::ZPos => BlockPos { x: 1, y: 1, z: 1 },
            BlockFace::ZNeg => BlockPos { x: 0, y: 1, z: 0 },
        };
        let br_off = match face {
            BlockFace::XPos => BlockPos { x: 1, y: 0, z: 1 },
            BlockFace::XNeg => BlockPos { x: 0, y: 0, z: 0 },
            BlockFace::YPos => BlockPos { x: 1, y: 1, z: 0 },
            BlockFace::YNeg => BlockPos { x: 1, y: 0, z: 1 },
            BlockFace::ZPos => BlockPos { x: 0, y: 0, z: 1 },
            BlockFace::ZNeg => BlockPos { x: 1, y: 0, z: 0 },
        };
        let tl = tl_corner_block.plus(tl_off);
        let br = br_corner_block.plus(br_off);
        let bl = match face {
            BlockFace::XPos | BlockFace::XNeg => BlockPos { x: tl.x, y: br.y, z: tl.z },
            BlockFace::YPos | BlockFace::YNeg => BlockPos { x: tl.x, y: tl.y, z: br.z },
            BlockFace::ZPos | BlockFace::ZNeg => BlockPos { x: tl.x, y: br.y, z: tl.z },
        };
        let tr = match face {
            BlockFace::XPos | BlockFace::XNeg => BlockPos { x: tl.x, y: tl.y, z: br.z },
            BlockFace::YPos | BlockFace::YNeg => BlockPos { x: br.x, y: tl.y, z: tl.z },
            BlockFace::ZPos | BlockFace::ZNeg => BlockPos { x: br.x, y: tl.y, z: tl.z },
        };
        let normal = face.block_pos_offset();
        BlockFaceMesh {
            tl: BlockVertex::new(tl, normal, texture_index, occlusion_data.tl),
            bl: BlockVertex::new(bl, normal, texture_index, occlusion_data.bl),
            br: BlockVertex::new(br, normal, texture_index, occlusion_data.br),
            tr: BlockVertex::new(tr, normal, texture_index, occlusion_data.tr),
        }
    }

    /// Builds the quad from the negative and positive cube corner blocks of a
    /// merged rectangle, remapping corners for the face's orientation.
    pub fn from_cube_corners(
        face: BlockFace,
        texture_index: TextureIndex,
        neg_corner_block: BlockPos,
        pos_corner_block: BlockPos,
        occlusion_data: OcclusionCorners,
    ) -> (r: BlockFaceMesh)
        requires
            pos_small(neg_corner_block),
            pos_small(pos_corner_block),
            occ_corners_ok(occlusion_data),
        ensures
            r == spec_from_cube_corners(face, texture_index, neg_corner_block, pos_corner_block, occlusion_data),
    {
        let n = neg_corner_block;
        let p = pos_corner_block;
        let o = occlusion_data;
        let (tl, br, occ) = match face {
            BlockFace::XPos => (
                BlockPos { x: p.x, y: p.y, z: n.z },
                BlockPos { x: p.x, y: n.y, z: p.z },
                OcclusionCorners { tl: o.xpos_yneg_corner(), tr: o.pos_corner(), bl: o.neg_corner(), br: o.xneg_ypos_corner() },
            ),
            BlockFace::XNeg => (
                BlockPos { x: n.x, y: p.y, z: p.z },
                BlockPos { x: n.x, y: n.y, z: n.z },
                OcclusionCorners { tl: o.pos_corner(), tr: o.xpos_yneg_corner(), bl: o.xneg_ypos_corner(), br: o.neg_corner() },
            ),
            BlockFace::YPos => (
                BlockPos { x: n.x, y: p.y, z: p.z },
                BlockPos { x: p.x, y: p.y, z: n.z },
                OcclusionCorners { tl: o.xneg_ypos_corner(), tr: o.pos_corner(), bl: o.neg_corner(), br: o.xpos_yneg_corner() },
            ),
            BlockFace::YNeg => (
                BlockPos { x: n.x, y: n.y, z: n.z },
                BlockPos { x: p.x, y: n.y, z: p.z },
                OcclusionCorners { tl: o.neg_corner(), tr: o.xpos_yneg_corner(), bl: o.xneg_ypos_corner(), br: o.pos_corner() },
            ),
            BlockFace::ZPos => (
                BlockPos { x: p.x, y: p.y, z: p.z },
                BlockPos { x: n.x, y: n.y, z: p.z },
                OcclusionCorners { tl: o.pos_corner(), tr: o.xneg_ypos_corner(), bl: o.xpos_yneg_corner(), br: o.neg_corner() },
            ),
            BlockFace::ZNeg => (
                BlockPos { x: n.x, y: p.y, z: n.z },
                BlockPos { x: p.x, y: n.y, z: n.z },
                OcclusionCorners { tl: o.xneg_ypos_corner(), tr: o.pos_corner(), bl: o.neg_corner(), br: o.xpos_yneg_corner() },
            ),
        };
        BlockFaceMesh::from_corners(face, texture_index, tl, br, occ)
    }

    /// Index pattern forming the quad's two triangles, for the index buffer.
    pub fn indicies() -> (r: [u32; 6])
        ensures
            r@ =~= seq![0u32, 2u32, 1u32, 2u32, 0u32, 3u32],
    {
        [0u32, 2u32, 1u32, 2u32, 0u32, 3u32]
    }
}

} // verus!
