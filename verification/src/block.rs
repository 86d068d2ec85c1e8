//! Block registry: the closed set of block variants with their names, type
//! tags, texture indices and translucency, and the six axis-aligned faces a
//! block exposes.

use vstd::prelude::*;
use crate::coords::BlockPos;

verus! {

/// One of the six axis-aligned faces of a cube, by outward normal direction.
#[derive(Clone, Copy, PartialEq, Eq, Structural, Debug)]
pub enum BlockFace {
    XPos,
    XNeg,
    YPos,
    YNeg,
    ZPos,
    ZNeg,
}

impl BlockFace {
    /// Dense index of this face, in `[0, 6)`; used to address per-face storage.
    pub open spec fn spec_index(self) -> int {
        match self {
            BlockFace::XPos => 0,
            BlockFace::XNeg => 1,
            BlockFace::YPos => 2,
            BlockFace::YNeg => 3,
            BlockFace::ZPos => 4,
            BlockFace::ZNeg => 5,
        }
    }

    pub fn index(&self) -> (r: usize)
        ensures
            r == self.spec_index(),
            r < 6,
    {
        match self {
            BlockFace::XPos => 0,
            BlockFace::XNeg => 1,
            BlockFace::YPos => 2,
            BlockFace::YNeg => 3,
            BlockFace::ZPos => 4,
            BlockFace::ZNeg => 5,
        }
    }

    /// Inverse of `index`.
    pub fn from_index(i: usize) -> (r: BlockFace)
        requires
            i < 6,
        ensures
            r.spec_index() == i,
            r == spec_face_of_index(i as int),
    {
        if i == 0 {
            BlockFace::XPos
        } else if i == 1 {
            BlockFace::XNeg
        } else if i == 2 {
            BlockFace::YPos
        } else if i == 3 {
            BlockFace::YNeg
        } else if i == 4 {
            BlockFace::ZPos
        } else {
            BlockFace::ZNeg
        }
    }

    /// Iterate over all six faces, `XPos` first.
    pub fn iter() -> (r: BlockFaceIter)
        ensures
            r.0 == Some(BlockFace::XPos),
    {
        BlockFaceIter(Some(BlockFace::XPos))
    }

    /// Unit offset towards the block a face looks at.
    pub open spec fn spec_block_pos_offset(self) -> BlockPos {
        match self {
            BlockFace::XPos => BlockPos { x: 1i64, y: 0i64, z: 0i64 },
            BlockFace::XNeg => BlockPos { x: -1i64, y: 0i64, z: 0i64 },
            BlockFace::YPos => BlockPos { x: 0i64, y: 1i64, z: 0i64 },
            BlockFace::YNeg => BlockPos { x: 0i64, y: -1i64, z: 0i64 },
            BlockFace::ZPos => BlockPos { x: 0i64, y: 0i64, z: 1i64 },
            BlockFace::ZNeg => BlockPos { x: 0i64, y: 0i64, z: -1i64 },
        }
    }

    pub fn block_pos_offset(&self) -> (r: BlockPos)
        ensures
            r == self.spec_block_pos_offset(),
    {
        match self {
            BlockFace::XPos => BlockPos { x: 1, y: 0, z: 0 },
            BlockFace::XNeg => BlockPos { x: -1, y: 0, z: 0 },
            BlockFace::YPos => BlockPos { x: 0, y: 1, z: 0 },
            BlockFace::YNeg => BlockPos { x: 0, y: -1, z: 0 },
            BlockFace::ZPos => BlockPos { x: 0, y: 0, z: 1 },
            BlockFace::ZNeg => BlockPos { x: 0, y: 0, z: -1 },
        }
    }

    pub open spec fn spec_is_positive_face(self) -> bool {
        self == BlockFace::XPos || self == BlockFace::YPos || self == BlockFace::ZPos
    }

    pub fn is_positive_face(&self) -> (r: bool)
        ensures
            r == self.spec_is_positive_face(),
    {
        matches!(self, BlockFace::XPos | BlockFace::YPos | BlockFace::ZPos)
    }

    pub fn is_negative_face(&self) -> (r: bool)
        ensures
            r == !self.spec_is_positive_face(),
    {
        matches!(self, BlockFace::XNeg | BlockFace::YNeg | BlockFace::ZNeg)
    }
}

/// The face with the given dense index, inverse of `BlockFace::spec_index`.
pub open spec fn spec_face_of_index(i: int) -> BlockFace {
    if i == 0 {
        BlockFace::XPos
    } else if i == 1 {
        BlockFace::XNeg
    } else if i == 2 {
        BlockFace::YPos
    } else if i == 3 {
        BlockFace::YNeg
    } else if i == 4 {
        BlockFace::ZPos
    } else {
        BlockFace::ZNeg
    }
}

/// Successor of a face in iteration order.
pub open spec fn face_succ(f: BlockFace) -> Option<BlockFace> {
    match f {
        BlockFace::XPos => Some(BlockFace::XNeg),
        BlockFace::XNeg => Some(BlockFace::YPos),
        BlockFace::YPos => Some(BlockFace::YNeg),
        BlockFace::YNeg => Some(BlockFace::ZPos),
        BlockFace::ZPos => Some(BlockFace::ZNeg),
        BlockFace::ZNeg => None,
    }
}

/// Yields the six faces in order, `XPos` through `ZNeg`.
pub struct BlockFaceIter(pub Option<BlockFace>);

impl BlockFaceIter {
    pub fn next(&mut self) -> (r: Option<BlockFace>)
        ensures
            r == old(self).0,
            final(self).0 == (match old(self).0 {
                None => None::<BlockFace>,
                Some(f) => face_succ(f),
            }),
    {
        let r = self.0;
        self.0 = match self.0 {
            None => None,
            Some(f) => match f {
                BlockFace::XPos => Some(BlockFace::XNeg),
                BlockFace::XNeg => Some(BlockFace::YPos),
                BlockFace::YPos => Some(BlockFace::YNeg),
                BlockFace::YNeg => Some(BlockFace::ZPos),
                BlockFace::ZPos => Some(BlockFace::ZNeg),
                BlockFace::ZNeg => None,
            },
        };
        r
    }
}

/// Index of a block texture in the texture atlas.
#[derive(Clone, Copy, PartialEq, Eq, Structural, Debug)]
pub enum TextureIndex {
    TestBlock,
    Stone,
    Dirt,
    Grass,
}

impl TextureIndex {
    /// Dense index of this texture in the atlas; the sampler takes a signed integer.
    pub open spec fn spec_as_i32(self) -> int {
        match self {
            TextureIndex::TestBlock => 0,
            TextureIndex::Stone => 1,
            TextureIndex::Dirt => 2,
            TextureIndex::Grass => 3,
        }
    }

    pub fn as_i32(&self) -> (r: i32)
        ensures
            r == self.spec_as_i32(),
            0 <= r < 4,
    {
        match self {
            TextureIndex::TestBlock => 0,
            TextureIndex::Stone => 1,
            TextureIndex::Dirt => 2,
            TextureIndex::Grass => 3,
        }
    }

    pub fn num_textures() -> (r: u32)
        ensures
            r == 4,
    {
        4
    }

    /// Atlas texture file paths, in atlas-index order.
    pub fn resource_paths() -> (r: Vec<&'static str>)
        ensures
            r@.len() == 4,
            r@[0]@ == "textures/test-block.png"@,
            r@[1]@ == "textures/stone.png"@,
            r@[2]@ == "textures/dirt.png"@,
            r@[3]@ == "textures/grass.png"@,
    {
        let mut r: Vec<&'static str> = Vec::new();
        r.push("textures/test-block.png");
        r.push("textures/stone.png");
        r.push("textures/dirt.png");
        r.push("textures/grass.png");
        r
    }
}

/// Discriminant tag of a block variant.
#[derive(Clone, Copy, PartialEq, Eq, Structural, Debug)]
pub enum BlockType {
    Air,
    TestBlock,
    Dirt,
    Grass,
    RockyDirt,
    Stone,
}

/// A block value: the closed set of block variants. Immutable once
/// constructed; cells are overwritten wholesale, never mutated in place.
#[derive(Clone, Copy, PartialEq, Eq, Structural, Debug)]
pub enum Block {
    Air,
    TestBlock,
    Dirt,
    Grass,
    RockyDirt,
    Stone,
}

impl Block {
    pub open spec fn spec_block_type(self) -> BlockType {
        match self {
            Block::Air => BlockType::Air,
            Block::TestBlock => BlockType::TestBlock,
            Block::Dirt => BlockType::Dirt,
            Block::Grass => BlockType::Grass,
            Block::RockyDirt => BlockType::RockyDirt,
            Block::Stone => BlockType::Stone,
        }
    }

    pub fn block_type(&self) -> (r: BlockType)
        ensures
            r == self.spec_block_type(),
    {
        match self {
            Block::Air => BlockType::Air,
            Block::TestBlock => BlockType::TestBlock,
            Block::Dirt => BlockType::Dirt,
            Block::Grass => BlockType::Grass,
            Block::RockyDirt => BlockType::RockyDirt,
            Block::Stone => BlockType::Stone,
        }
    }

    pub open spec fn spec_name(self) -> Seq<char> {
        match self {
            Block::Air => "air"@,
            Block::TestBlock => "test block"@,
            Block::Dirt => "dirt"@,
            Block::Grass => "grass"@,
            Block::RockyDirt => "rocky dirt"@,
            Block::Stone => "stone"@,
        }
    }

    pub fn name(&self) -> (r: &'static str)
        ensures
            r@ == self.spec_name(),
    {
        match self {
            Block::Air => "air",
            Block::TestBlock => "test block",
            Block::Dirt => "dirt",
            Block::Grass => "grass",
            Block::RockyDirt => "rocky dirt",
            Block::Stone => "stone",
        }
    }

    pub open spec fn spec_is_air(self) -> bool {
        self == Block::Air
    }

    pub fn is_air(&self) -> (r: bool)
        ensures
            r == self.spec_is_air(),
    {
        matches!(self, Block::Air)
    }

    /// Air has no texture; the test block is kept visible everywhere on purpose.
    pub open spec fn spec_is_translucent(self) -> bool {
        self == Block::Air || self == Block::TestBlock
    }

    pub fn is_translucent(&self) -> (r: bool)
        ensures
            r == self.spec_is_translucent(),
    {
        matches!(self, Block::Air | Block::TestBlock)
    }

    pub open spec fn spec_texture_index(self) -> TextureIndex {
        match self {
            Block::Air => TextureIndex::TestBlock,  // unreachable: air is excluded below
            Block::TestBlock => TextureIndex::TestBlock,
            Block::Dirt => TextureIndex::Dirt,
            Block::Grass => TextureIndex::Grass,
            Block::RockyDirt => TextureIndex::Dirt,
            Block::Stone => TextureIndex::Stone,
        }
    }

    /// Texture of the block; air has none, so asking for it is a caller error.
    pub fn texture_index(&self) -> (r: TextureIndex)
        requires
            !self.spec_is_air(),
        ensures
            r == self.spec_texture_index(),
    {
        match self {
            Block::Air => TextureIndex::TestBlock,
            Block::TestBlock => TextureIndex::TestBlock,
            Block::Dirt => TextureIndex::Dirt,
            Block::Grass => TextureIndex::Grass,
            Block::RockyDirt => TextureIndex::Dirt,
            Block::Stone => TextureIndex::Stone,
        }
    }
}

/// The air block: translucent, intangible filler of empty space.
pub struct Air {}

impl Air {
    pub fn new() -> (r: Block)
        ensures
            r == Block::Air,
    {
        Block::Air
    }
}

/// Plain stone.
pub struct Stone {}

impl Stone {
    pub fn new() -> (r: Block)
        ensures
            r == Block::Stone,
    {
        Block::Stone
    }
}

/// Plain dirt.
pub struct Dirt {}

impl Dirt {
    pub fn new() -> (r: Block)
        ensures
            r == Block::Dirt,
    {
        Block::Dirt
    }
}

/// Grass-topped soil.
pub struct Grass {}

impl Grass {
    pub fn new() -> (r: Block)
        ensures
            r == Block::Grass,
    {
        Block::Grass
    }
}

/// Dirt mixed with rock, found between soil and stone.
pub struct RockyDirt {}

impl RockyDirt {
    pub fn new() -> (r: Block)
        ensures
            r == Block::RockyDirt,
    {
        Block::RockyDirt
    }
}

/// Debugging block, rendered visible from everywhere.
pub struct TestBlock {}

impl TestBlock {
    pub fn new() -> (r: Block)
        ensures
            r == Block::TestBlock,
    {
        Block::TestBlock
    }
}

/// Ambient-occlusion levels at the four corners of one block face,
/// each in `[0, 3]`.
#[derive(Clone, Copy, PartialEq, Eq, Structural, Debug)]
pub struct OcclusionCorners {
    pub tl: u8,
    pub tr: u8,
    pub bl: u8,
    pub br: u8,
}

impl OcclusionCorners {
    /// Corner towards the positive ends of both in-layer axes.
    pub fn pos_corner(&self) -> (r: u8)
        ensures
            r == self.tr,
    {
        self.tr
    }

    /// Corner towards the negative ends of both in-layer axes.
    pub fn neg_corner(&self) -> (r: u8)
        ensures
            r == self.bl,
    {
        self.bl
    }

    pub fn xpos_yneg_corner(&self) -> (r: u8)
        ensures
            r == self.br,
    {
        self.br
    }

    pub fn xneg_ypos_corner(&self) -> (r: u8)
        ensures
            r == self.tl,
    {
        self.tl
    }
}

} // verus!
