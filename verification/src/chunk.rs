//! Chunk storage and the greedy mesher: a dense cube of blocks per chunk, a
//! reusable per-slice scratch map, and the three-pass algorithm that merges
//! visible same-type block faces into maximal rectangular quads.

use vstd::prelude::*;
use vstd::pervasive::VecAdditionalExecFns;
use vstd::arithmetic::div_mod::{
    lemma_fundamental_div_mod, lemma_fundamental_div_mod_converse, lemma_mod_bound,
};
use vstd::seq_lib::lemma_flatten_concat;
use crate::coords::{BlockPos, ChunkPos, CHUNK_SIZE};
use crate::block::{Block, BlockFace, OcclusionCorners, spec_face_of_index};
use crate::mesh::{BlockFaceMesh, spec_from_cube_corners, pos_sum};

verus! {

/// Cells of one `CHUNK_SIZE x CHUNK_SIZE` layer, row-major by in-layer axes.
pub open spec fn cell_idx(u: int, v: int) -> int {
    u * 32 + v
}

/// Vertices of the `(CHUNK_SIZE+1) x (CHUNK_SIZE+1)` occlusion lattice.
pub open spec fn vert_idx(x: int, y: int) -> int {
    x * 33 + y
}

/// Cells of the neighbour-side plane, in-layer coordinates `-1..=CHUNK_SIZE`.
pub open spec fn plane_cell_idx(u: int, v: int) -> int {
    (u + 1) * 34 + (v + 1)
}

/// Cells of the dense block cube.
pub open spec fn block_cell_idx(x: int, y: int, z: int) -> int {
    x * 1024 + y * 32 + z
}

proof fn lemma_cell_idx_decompose(u: int, v: int)
    requires
        0 <= u < 32,
        0 <= v < 32,
    ensures
        cell_idx(u, v) / 32 == u,
        cell_idx(u, v) % 32 == v,
        0 <= cell_idx(u, v) < 1024,
{
    lemma_fundamental_div_mod_converse(cell_idx(u, v), 32, u, v);
}

/// Chunk coordinates this far from the origin keep every derived block
/// coordinate comfortably clear of `i64` overflow.
pub open spec fn chunk_pos_in_range(p: ChunkPos) -> bool {
    &&& -0x0100_0000_0000_0000 <= p.x <= 0x0100_0000_0000_0000
    &&& -0x0100_0000_0000_0000 <= p.y <= 0x0100_0000_0000_0000
    &&& -0x0100_0000_0000_0000 <= p.z <= 0x0100_0000_0000_0000
}

/// In-layer coordinates `(a, b)` of one layer at depth `c3` along the face's
/// normal axis, as a 3-D chunk-local position.
pub open spec fn spec_layer_pos(face: BlockFace, c3: int, a: int, b: int) -> BlockPos {
    match face {
        BlockFace::XPos | BlockFace::XNeg => BlockPos { x: c3 as i64, y: a as i64, z: b as i64 },
        BlockFace::YPos | BlockFace::YNeg => BlockPos { x: a as i64, y: c3 as i64, z: b as i64 },
        BlockFace::ZPos | BlockFace::ZNeg => BlockPos { x: a as i64, y: b as i64, z: c3 as i64 },
    }
}

/// The two in-layer components of a 3-D position, for the given face.
pub open spec fn proj_u(face: BlockFace, p: BlockPos) -> int {
    match face {
        BlockFace::XPos | BlockFace::XNeg => p.y as int,
        BlockFace::YPos | BlockFace::YNeg => p.x as int,
        BlockFace::ZPos | BlockFace::ZNeg => p.x as int,
    }
}

pub open spec fn proj_v(face: BlockFace, p: BlockPos) -> int {
    match face {
        BlockFace::XPos | BlockFace::XNeg => p.z as int,
        BlockFace::YPos | BlockFace::YNeg => p.z as int,
        BlockFace::ZPos | BlockFace::ZNeg => p.y as int,
    }
}

/// What the mesher knows about the blocks one step beyond a layer, on the
/// neighbour side of the face: `None` where the owning chunk is not loaded,
/// otherwise `Some(is_translucent)` of the block there. Covers in-layer
/// coordinates `-1..=CHUNK_SIZE` so the occlusion pass can look diagonally
/// past the layer's edge.
pub struct NeighborPlane {
    pub cells: Vec<Option<bool>>,
}

impl NeighborPlane {
    pub open spec fn wf(self) -> bool {
        self.cells@.len() == 1156
    }

    pub open spec fn spec_at(self, u: int, v: int) -> Option<bool> {
        self.cells@[plane_cell_idx(u, v)]
    }

    /// A plane with every cell unknown: no neighbour data at all.
    pub fn new_absent() -> (r: NeighborPlane)
        ensures
            r.wf(),
            forall|u: int, v: int| -1 <= u <= 32 && -1 <= v <= 32 ==> r.spec_at(u, v) is None,
    {
        let mut cells: Vec<Option<bool>> = Vec::new();
        let mut i: usize = 0;
        while i < 1156
            invariant
                cells@.len() == i,
                i <= 1156,
                forall|k: int| 0 <= k < i ==> cells@[k] is None,
            decreases 1156 - i,
        {
            cells.push(None);
            i += 1;
        }
        NeighborPlane { cells }
    }

    pub fn get(&self, u: i64, v: i64) -> (r: Option<bool>)
        requires
            self.wf(),
            -1 <= u <= 32,
            -1 <= v <= 32,
        ensures
            r == self.spec_at(u as int, v as int),
    {
        let idx: usize = ((u + 1) * 34 + (v + 1)) as usize;
        self.cells[idx]
    }

    pub fn set(&mut self, u: i64, v: i64, cell: Option<bool>)
        requires
            old(self).wf(),
            -1 <= u <= 32,
            -1 <= v <= 32,
        ensures
            final(self).wf(),
            final(self).cells@ == old(self).cells@.update(plane_cell_idx(u as int, v as int), cell),
            final(self).spec_at(u as int, v as int) == cell,
            forall|a: int, b: int|
                -1 <= a <= 32 && -1 <= b <= 32 && !(a == u && b == v)
                    ==> final(self).spec_at(a, b) == old(self).spec_at(a, b),
    {
        let idx: usize = ((u + 1) * 34 + (v + 1)) as usize;
        self.cells.set(idx, cell);
    }
}

/// Scratch state for one mesh pass over one layer: which cells are already
/// accounted for, and the occlusion level of every lattice vertex. Reset by
/// the passes themselves, not reallocated, between slices.
pub struct VisitedBlockMap {
    pub visited_blocks: Vec<bool>,
    pub vertex_occlusion: Vec<u8>,
    pub face: BlockFace,
    pub coord3: i64,
}

impl VisitedBlockMap {
    pub open spec fn wf(self) -> bool {
        &&& self.visited_blocks@.len() == 1024
        &&& self.vertex_occlusion@.len() == 1089
        &&& 0 <= self.coord3 < 32
    }

    pub fn new() -> (r: VisitedBlockMap)
        ensures
            r.wf(),
            r.face == BlockFace::XPos,
            r.coord3 == 0,
            forall|k: int| 0 <= k < 1024 ==> !(#[trigger] r.visited_blocks@[k]),
            forall|k: int| 0 <= k < 1089 ==> #[trigger] r.vertex_occlusion@[k] == 0,
    {
        let mut visited_blocks: Vec<bool> = Vec::new();
        let mut i: usize = 0;
        while i < 1024
            invariant
                visited_blocks@.len() == i,
                i <= 1024,
                forall|k: int| 0 <= k < i ==> !(#[trigger] visited_blocks@[k]),
            decreases 1024 - i,
        {
            visited_blocks.push(false);
            i += 1;
        }
        let mut vertex_occlusion: Vec<u8> = Vec::new();
        let mut j: usize = 0;
        while j < 1089
            invariant
                vertex_occlusion@.len() == j,
                j <= 1089,
                forall|k: int| 0 <= k < j ==> #[trigger] vertex_occlusion@[k] == 0,
            decreases 1089 - j,
        {
            vertex_occlusion.push(0);
            j += 1;
        }
        VisitedBlockMap { visited_blocks, vertex_occlusion, face: BlockFace::XPos, coord3: 0 }
    }

    /// Selects which layer the map currently describes.
    pub fn set_face_coord(&mut self, face: BlockFace, coord3: i64)
        requires
            old(self).wf(),
            0 <= coord3 < 32,
        ensures
            final(self).wf(),
            final(self).face == face,
            final(self).coord3 == coord3,
            final(self).visited_blocks == old(self).visited_blocks,
            final(self).vertex_occlusion == old(self).vertex_occlusion,
    {
        self.face = face;
        self.coord3 = coord3;
    }

    /// In-layer grid index of a position in the current layer.
    pub fn get_index(&self, position: BlockPos) -> (r: (usize, usize))
        requires
            0 <= proj_u(self.face, position) < 32,
            0 <= proj_v(self.face, position) < 32,
        ensures
            r.0 == proj_u(self.face, position),
            r.1 == proj_v(self.face, position),
    {
        let (a, b) = match self.face {
            BlockFace::XPos | BlockFace::XNeg => (position.y, position.z),
            BlockFace::YPos | BlockFace::YNeg => (position.x, position.z),
            BlockFace::ZPos | BlockFace::ZNeg => (position.x, position.y),
        };
        (a as usize, b as usize)
    }

    /// 3-D chunk-local position of in-layer coordinates `(a, b)`.
    pub fn get_block_pos(&self, a: i64, b: i64) -> (r: BlockPos)
        ensures
            r == spec_layer_pos(self.face, self.coord3 as int, a as int, b as int),
    {
        match self.face {
            BlockFace::XPos | BlockFace::XNeg => BlockPos { x: self.coord3, y: a, z: b },
            BlockFace::YPos | BlockFace::YNeg => BlockPos { x: a, y: self.coord3, z: b },
            BlockFace::ZPos | BlockFace::ZNeg => BlockPos { x: a, y: b, z: self.coord3 },
        }
    }

    /// Position offset by `(a_offset, b_offset)` within the current layer.
    pub fn get_block_pos_offset(&self, block: BlockPos, a_offset: i64, b_offset: i64) -> (r: BlockPos)
        requires
            -0x1000_0000_0000 <= proj_u(self.face, block) + a_offset <= 0x1000_0000_0000,
            -0x1000_0000_0000 <= proj_v(self.face, block) + b_offset <= 0x1000_0000_0000,
        ensures
            r == spec_layer_pos(
                self.face,
                self.coord3 as int,
                proj_u(self.face, block) + a_offset,
                proj_v(self.face, block) + b_offset,
            ),
    {
        match self.face {
            BlockFace::XPos | BlockFace::XNeg => BlockPos {
                x: self.coord3,
                y: block.y + a_offset,
                z: block.z + b_offset,
            },
            BlockFace::YPos | BlockFace::YNeg => BlockPos {
                x: block.x + a_offset,
                y: self.coord3,
                z: block.z + b_offset,
            },
            BlockFace::ZPos | BlockFace::ZNeg => BlockPos {
                x: block.x + a_offset,
                y: block.y + b_offset,
                z: self.coord3,
            },
        }
    }

    pub fn is_visited(&self, position: BlockPos) -> (r: bool)
        requires
            self.wf(),
            0 <= proj_u(self.face, position) < 32,
            0 <= proj_v(self.face, position) < 32,
        ensures
            r == self.visited_blocks@[cell_idx(proj_u(self.face, position), proj_v(self.face, position))],
    {
        let (a, b) = self.get_index(position);
        proof {
            lemma_cell_idx_decompose(a as int, b as int);
        }
        self.visited_blocks[a * 32 + b]
    }

    pub fn set_visited(&mut self, position: BlockPos, visited: bool)
        requires
            old(self).wf(),
            0 <= proj_u(old(self).face, position) < 32,
            0 <= proj_v(old(self).face, position) < 32,
        ensures
            final(self).wf(),
            final(self).visited_blocks@ == old(self).visited_blocks@.update(
                cell_idx(proj_u(old(self).face, position), proj_v(old(self).face, position)),
                visited,
            ),
            final(self).vertex_occlusion == old(self).vertex_occlusion,
            final(self).face == old(self).face,
            final(self).coord3 == old(self).coord3,
    {
        let (a, b) = self.get_index(position);
        proof {
            lemma_cell_idx_decompose(a as int, b as int);
        }
        self.visited_blocks.set(a * 32 + b, visited);
    }

    /// Stores the occlusion level of lattice vertex `(x, y)`.
    pub fn set_occlusion_level(&mut self, x: i64, y: i64, occlusion_level: u8)
        requires
            old(self).wf(),
            0 <= x < 33,
            0 <= y < 33,
        ensures
            final(self).wf(),
            final(self).vertex_occlusion@ == old(self).vertex_occlusion@.update(
                vert_idx(x as int, y as int),
                occlusion_level,
            ),
            final(self).visited_blocks == old(self).visited_blocks,
            final(self).face == old(self).face,
            final(self).coord3 == old(self).coord3,
    {
        let idx: usize = (x * 33 + y) as usize;
        self.vertex_occlusion.set(idx, occlusion_level);
    }

    /// True iff the four lattice corners of the two cells carry pairwise
    /// equal occlusion levels.
    pub fn occlusion_level_matches(&self, block1: BlockPos, block2: BlockPos) -> (r: bool)
        requires
            self.wf(),
            0 <= proj_u(self.face, block1) < 32,
            0 <= proj_v(self.face, block1) < 32,
            0 <= proj_u(self.face, block2) < 32,
            0 <= proj_v(self.face, block2) < 32,
        ensures
            r == spec_occ_matches(
                self.vertex_occlusion@,
                proj_u(self.face, block1),
                proj_v(self.face, block1),
                proj_u(self.face, block2),
                proj_v(self.face, block2),
            ),
    {
        let (a1, b1) = self.get_index(block1);
        let (a2, b2) = self.get_index(block2);
        self.vertex_occlusion[a1 * 33 + b1] == self.vertex_occlusion[a2 * 33 + b2]
            && self.vertex_occlusion[(a1 + 1) * 33 + b1] == self.vertex_occlusion[(a2 + 1) * 33 + b2]
            && self.vertex_occlusion[a1 * 33 + b1 + 1] == self.vertex_occlusion[a2 * 33 + b2 + 1]
            && self.vertex_occlusion[(a1 + 1) * 33 + b1 + 1] == self.vertex_occlusion[(a2 + 1) * 33 + b2 + 1]
    }

    /// Occlusion levels at the four lattice corners of one cell.
    pub fn get_occlusion_data(&self, block: BlockPos) -> (r: OcclusionCorners)
        requires
            self.wf(),
            0 <= proj_u(self.face, block) < 32,
            0 <= proj_v(self.face, block) < 32,
        ensures
            r == spec_occ_corners(
                self.vertex_occlusion@,
                proj_u(self.face, block),
                proj_v(self.face, block),
            ),
    {
        let (a, b) = self.get_index(block);
        OcclusionCorners {
            tl: self.vertex_occlusion[a * 33 + b + 1],
            tr: self.vertex_occlusion[(a + 1) * 33 + b + 1],
            bl: self.vertex_occlusion[a * 33 + b],
            br: self.vertex_occlusion[(a + 1) * 33 + b],
        }
    }
}

/// Pairwise equality of the two cells' four corner occlusion levels.
pub open spec fn spec_occ_matches(occ: Seq<u8>, u1: int, v1: int, u2: int, v2: int) -> bool {
    &&& occ[vert_idx(u1, v1)] == occ[vert_idx(u2, v2)]
    &&& occ[vert_idx(u1 + 1, v1)] == occ[vert_idx(u2 + 1, v2)]
    &&& occ[vert_idx(u1, v1 + 1)] == occ[vert_idx(u2, v2 + 1)]
    &&& occ[vert_idx(u1 + 1, v1 + 1)] == occ[vert_idx(u2 + 1, v2 + 1)]
}

/// Corner occlusion levels of one cell, in tl/tr/bl/br order.
pub open spec fn spec_occ_corners(occ: Seq<u8>, u: int, v: int) -> OcclusionCorners {
    OcclusionCorners {
        tl: occ[vert_idx(u, v + 1)],
        tr: occ[vert_idx(u + 1, v + 1)],
        bl: occ[vert_idx(u, v)],
        br: occ[vert_idx(u + 1, v)],
    }
}

/// A loaded chunk: a dense `CHUNK_SIZE^3` cube of blocks at a fixed chunk
/// coordinate, plus the cached mesh of every face/layer slice.
pub struct Chunk {
    /// Coordinates of the chunk on the chunk grid.
    pub chunk_position: ChunkPos,
    /// Block-space position of the chunk's lowest corner (`chunk_position * CHUNK_SIZE`).
    pub block_position: BlockPos,
    /// Dense cube of blocks, indexed by `block_cell_idx`.
    pub blocks: Vec<Block>,
    /// Cached quads per face and layer, indexed by `face.index() * CHUNK_SIZE + layer`.
    pub chunk_mesh: Vec<Vec<BlockFaceMesh>>,
}

/// Slot of one face/layer pair in the mesh cache.
pub open spec fn layer_slot(face: BlockFace, layer: int) -> int {
    face.spec_index() * 32 + layer
}

impl Chunk {
    pub open spec fn wf(self) -> bool {
        &&& self.blocks@.len() == 32768
        &&& self.chunk_mesh@.len() == 192
        &&& chunk_pos_in_range(self.chunk_position)
        &&& self.block_position.x == self.chunk_position.x * 32
        &&& self.block_position.y == self.chunk_position.y * 32
        &&& self.block_position.z == self.chunk_position.z * 32
    }

    /// Block at a chunk-local position.
    pub open spec fn spec_block_at(self, p: BlockPos) -> Block {
        self.blocks@[block_cell_idx(p.x as int, p.y as int, p.z as int)]
    }

    /// A chunk whose cube holds `blocks` (row-major by `block_cell_idx`),
    /// with an empty mesh cache.
    pub fn new(position: ChunkPos, blocks: Vec<Block>) -> (r: Chunk)
        requires
            blocks@.len() == 32768,
            chunk_pos_in_range(position),
        ensures
            r.wf(),
            r.chunk_position == position,
            r.blocks == blocks,
            forall|s: int| 0 <= s < 192 ==> r.chunk_mesh@[s]@ == Seq::<BlockFaceMesh>::empty(),
    {
        let block_position = position.into_block_pos();
        let mut chunk_mesh: Vec<Vec<BlockFaceMesh>> = Vec::new();
        let mut i: usize = 0;
        while i < 192
            invariant
                chunk_mesh@.len() == i,
                i <= 192,
                forall|s: int| 0 <= s < i ==> chunk_mesh@[s]@ == Seq::<BlockFaceMesh>::empty(),
            decreases 192 - i,
        {
            let slot: Vec<BlockFaceMesh> = Vec::new();
            assert(slot@ == Seq::<BlockFaceMesh>::empty());
            chunk_mesh.push(slot);
            i += 1;
        }
        Chunk { chunk_position: position, block_position, blocks, chunk_mesh }
    }

    /// A chunk filled with one block everywhere.
    pub fn new_uniform(position: ChunkPos, block: Block) -> (r: Chunk)
        requires
            chunk_pos_in_range(position),
        ensures
            r.wf(),
            r.chunk_position == position,
            forall|p: BlockPos| p.spec_is_chunk_local() ==> r.spec_block_at(p) == block,
            forall|s: int| 0 <= s < 192 ==> r.chunk_mesh@[s]@ == Seq::<BlockFaceMesh>::empty(),
    {
        let mut blocks: Vec<Block> = Vec::new();
        let mut i: usize = 0;
        while i < 32768
            invariant
                blocks@.len() == i,
                i <= 32768,
                forall|k: int| 0 <= k < i ==> blocks@[k] == block,
            decreases 32768 - i,
        {
            blocks.push(block);
            i += 1;
        }
        let r = Chunk::new(position, blocks);
        proof {
            assert forall|p: BlockPos| p.spec_is_chunk_local() implies r.spec_block_at(p) == block by {
                assert(0 <= block_cell_idx(p.x as int, p.y as int, p.z as int) < 32768);
            }
        }
        r
    }

    /// A test chunk: solid stone with three air pockets.
    pub fn new_test(position: ChunkPos) -> (r: Chunk)
        requires
            chunk_pos_in_range(position),
        ensures
            r.wf(),
            r.chunk_position == position,
            forall|p: BlockPos| p.spec_is_chunk_local() ==> #[trigger] r.spec_block_at(p) == (
                if p == (BlockPos { x: 5i64, y: 16i64, z: 24i64 })
                    || p == (BlockPos { x: 0i64, y: 0i64, z: 0i64 })
                    || p == (BlockPos { x: 13i64, y: 19i64, z: 0i64 }) {
                    Block::Air
                } else {
                    Block::Stone
                }),
            forall|s: int| 0 <= s < 192 ==> r.chunk_mesh@[s]@ == Seq::<BlockFaceMesh>::empty(),
    {
        let mut c = Chunk::new_uniform(position, Block::Stone);
        c.set_block(BlockPos { x: 5, y: 16, z: 24 }, Block::Air);
        c.set_block(BlockPos { x: 0, y: 0, z: 0 }, Block::Air);
        c.set_block(BlockPos { x: 13, y: 19, z: 0 }, Block::Air);
        proof {
            assert forall|p: BlockPos| p.spec_is_chunk_local() implies #[trigger] c.spec_block_at(p)
                == (if p == (BlockPos { x: 5i64, y: 16i64, z: 24i64 })
                    || p == (BlockPos { x: 0i64, y: 0i64, z: 0i64 })
                    || p == (BlockPos { x: 13i64, y: 19i64, z: 0i64 }) {
                    Block::Air
                } else {
                    Block::Stone
                }) by {
                assert(0 <= block_cell_idx(p.x as int, p.y as int, p.z as int) < 32768);
                assert(block_cell_idx(5, 16, 24) == 5656);
                assert(block_cell_idx(0, 0, 0) == 0);
                assert(block_cell_idx(13, 19, 0) == 13920);
                if p != (BlockPos { x: 5i64, y: 16i64, z: 24i64 }) && p != (BlockPos {
                    x: 0i64,
                    y: 0i64,
                    z: 0i64,
                }) && p != (BlockPos { x: 13i64, y: 19i64, z: 0i64 }) {
                    assert(block_cell_idx(p.x as int, p.y as int, p.z as int) != 5656
                        && block_cell_idx(p.x as int, p.y as int, p.z as int) != 0
                        && block_cell_idx(p.x as int, p.y as int, p.z as int) != 13920);
                }
            }
        }
        c
    }

    /// A test chunk of nothing but air.
    pub fn new_test_air(position: ChunkPos) -> (r: Chunk)
        requires
            chunk_pos_in_range(position),
        ensures
            r.wf(),
            r.chunk_position == position,
            forall|p: BlockPos| p.spec_is_chunk_local() ==> r.spec_block_at(p) == Block::Air,
    {
        Chunk::new_uniform(position, Block::Air)
    }

    /// Block at a chunk-local position; positions outside the chunk are a
    /// caller error.
    pub fn get_block(&self, block: BlockPos) -> (r: Block)
        requires
            self.wf(),
            block.spec_is_chunk_local(),
        ensures
            r == self.spec_block_at(block),
    {
        let idx: usize = (block.x * 1024 + block.y * 32 + block.z) as usize;
        self.blocks[idx]
    }

    /// Replaces the block at a chunk-local position; positions outside the
    /// chunk are a caller error. The mesh cache is left as it was: callers
    /// must request remeshing of every slice whose visibility changed.
    pub fn set_block(&mut self, block_pos: BlockPos, block: Block)
        requires
            old(self).wf(),
            block_pos.spec_is_chunk_local(),
        ensures
            final(self).wf(),
            final(self).blocks@ == old(self).blocks@.update(
                block_cell_idx(block_pos.x as int, block_pos.y as int, block_pos.z as int),
                block,
            ),
            final(self).spec_block_at(block_pos) == block,
            final(self).chunk_position == old(self).chunk_position,
            final(self).block_position == old(self).block_position,
            final(self).chunk_mesh == old(self).chunk_mesh,
    {
        let idx: usize = (block_pos.x * 1024 + block_pos.y * 32 + block_pos.z) as usize;
        self.blocks.set(idx, block);
    }

    /// Every cached quad of the chunk, across all 6 faces and all layers.
    pub open spec fn spec_chunk_mesh_flat(self) -> Seq<BlockFaceMesh> {
        self.chunk_mesh@.map_values(|slot: Vec<BlockFaceMesh>| slot@).flatten()
    }

    pub fn get_chunk_mesh(&self) -> (r: Vec<BlockFaceMesh>)
        requires
            self.wf(),
        ensures
            r@ == self.spec_chunk_mesh_flat(),
    {
        let ghost slots = self.chunk_mesh@.map_values(|slot: Vec<BlockFaceMesh>| slot@);
        let mut r: Vec<BlockFaceMesh> = Vec::new();
        let mut i: usize = 0;
        while i < 192
            invariant
                self.wf(),
                i <= 192,
                slots == self.chunk_mesh@.map_values(|slot: Vec<BlockFaceMesh>| slot@),
                r@ == slots.take(i as int).flatten(),
            decreases 192 - i,
        {
            let slot = &self.chunk_mesh[i];
            let mut j: usize = 0;
            while j < slot.len()
                invariant
                    i < 192,
                    self.wf(),
                    j <= slot@.len(),
                    slot == &self.chunk_mesh[i as int],
                    slots == self.chunk_mesh@.map_values(|s: Vec<BlockFaceMesh>| s@),
                    r@ == slots.take(i as int).flatten() + slot@.take(j as int),
                decreases slot@.len() - j,
            {
                r.push(slot[j]);
                assert(slot@.take(j + 1) == slot@.take(j as int).push(slot@[j as int]));
                j += 1;
            }
            proof {
                assert(slot@.take(slot@.len() as int) == slot@);
                lemma_flatten_concat(slots.take(i as int), seq![slots[i as int]]);
                seq![slots[i as int]].lemma_flatten_one_element();
                assert(seq![slots[i as int]].flatten() == slots[i as int]);
                assert(slots.take(i as int) + seq![slots[i as int]] =~= slots.take(i + 1));
                assert(r@ =~= slots.take(i + 1).flatten());
            }
            i += 1;
        }
        proof {
            assert(slots.take(192) =~= slots);
        }
        r
    }
}

// ---------------------------------------------------------------------------
// Spec-level model of one layer's greedy mesh.
//
// `mesh_update_inner` promises that the cache slot of a face/layer pair ends
// up exactly equal to `spec_layer_mesh` of the chunk's blocks and the
// neighbour-side plane, so the mesh is a pure function of the block state.
// ---------------------------------------------------------------------------

/// Everything one layer's mesh depends on.
pub ghost struct MeshCtx {
    pub blocks: Seq<Block>,
    pub plane: Seq<Option<bool>>,
    pub face: BlockFace,
    pub c3: int,
}

pub open spec fn ctx_wf(ctx: MeshCtx) -> bool {
    &&& ctx.blocks.len() == 32768
    &&& ctx.plane.len() == 1156
    &&& 0 <= ctx.c3 < 32
}

pub open spec fn ctx_plane_at(ctx: MeshCtx, u: int, v: int) -> Option<bool> {
    ctx.plane[plane_cell_idx(u, v)]
}

/// Block of the cell at in-layer coordinates `(u, v)`.
pub open spec fn cell_block(ctx: MeshCtx, u: int, v: int) -> Block {
    let p = spec_layer_pos(ctx.face, ctx.c3, u, v);
    ctx.blocks[block_cell_idx(p.x as int, p.y as int, p.z as int)]
}

/// Visibility pass: a cell is written off before merging if its block is
/// air, or its neighbour is known and opaque (the face is fully occluded),
/// or the neighbour chunk is not loaded (never mesh into the unknown).
pub open spec fn vis0(ctx: MeshCtx, u: int, v: int) -> bool {
    cell_block(ctx, u, v).spec_is_air() || (match ctx_plane_at(ctx, u, v) {
        Some(t) => !t,
        None => true,
    })
}

/// The visited grid as the visibility pass leaves it.
pub open spec fn init_vis(ctx: MeshCtx) -> Seq<bool> {
    Seq::new(1024, |k: int| vis0(ctx, k / 32, k % 32))
}

/// Occlusion contribution of one neighbour-side cell: 1 iff a block is
/// present there and opaque.
pub open spec fn occluding(ctx: MeshCtx, u: int, v: int) -> int {
    if ctx_plane_at(ctx, u, v) == Some(false) {
        1
    } else {
        0
    }
}

/// Occlusion level of one lattice vertex: how many of its four diagonal
/// neighbour-side cells occlude, except that two diagonally opposite
/// occluders alone force level 3 (an L of blocks must not read as a gap).
pub open spec fn occ_level(ctx: MeshCtx, x: int, y: int) -> int {
    let tl = occluding(ctx, x - 1, y - 1);
    let tr = occluding(ctx, x, y - 1);
    let bl = occluding(ctx, x - 1, y);
    let br = occluding(ctx, x, y);
    if (tl == 1 && br == 1) || (tr == 1 && bl == 1) {
        3
    } else {
        tl + tr + bl + br
    }
}

proof fn lemma_occ_level_bounds(ctx: MeshCtx, x: int, y: int)
    ensures
        0 <= occ_level(ctx, x, y) <= 3,
{
}

/// The four corner vertices of two cells carry pairwise equal levels.
pub open spec fn occ_match(ctx: MeshCtx, u1: int, v1: int, u2: int, v2: int) -> bool {
    &&& occ_level(ctx, u1, v1) == occ_level(ctx, u2, v2)
    &&& occ_level(ctx, u1 + 1, v1) == occ_level(ctx, u2 + 1, v2)
    &&& occ_level(ctx, u1, v1 + 1) == occ_level(ctx, u2, v2 + 1)
    &&& occ_level(ctx, u1 + 1, v1 + 1) == occ_level(ctx, u2 + 1, v2 + 1)
}

/// Corner occlusion levels of one cell, tl/tr/bl/br as seen on the lattice.
pub open spec fn ctx_occ_corners(ctx: MeshCtx, u: int, v: int) -> OcclusionCorners {
    OcclusionCorners {
        tl: occ_level(ctx, u, v + 1) as u8,
        tr: occ_level(ctx, u + 1, v + 1) as u8,
        bl: occ_level(ctx, u, v) as u8,
        br: occ_level(ctx, u + 1, v) as u8,
    }
}

/// A cell may join the rectangle rooted at `(ru, rv)` iff it is unvisited,
/// of the same block type, and its corner occlusion levels match the root's.
pub open spec fn can_merge(ctx: MeshCtx, vis: Seq<bool>, ru: int, rv: int, u: int, v: int) -> bool {
    &&& !vis[cell_idx(u, v)]
    &&& cell_block(ctx, u, v).spec_block_type() == cell_block(ctx, ru, rv).spec_block_type()
    &&& occ_match(ctx, ru, rv, u, v)
}

/// Width of the rectangle rooted at `(ru, rv)`: grown one cell at a time
/// while the next cell along the first in-layer axis may join.
pub open spec fn grow_w(ctx: MeshCtx, vis: Seq<bool>, ru: int, rv: int, w: int) -> int
    decreases 32 - ru - w,
{
    if ru + w >= 32 {
        w
    } else if can_merge(ctx, vis, ru, rv, ru + w, rv) {
        grow_w(ctx, vis, ru, rv, w + 1)
    } else {
        w
    }
}

/// Every cell `(a, b)` with `ru <= a < end` may join the rectangle rooted at
/// `(ru, rv)`.
pub open spec fn row_cells_ok(ctx: MeshCtx, vis: Seq<bool>, ru: int, rv: int, end: int, b: int) -> bool {
    forall|a: int| ru <= a < end ==> can_merge(ctx, vis, ru, rv, a, b)
}

/// A whole row at height `h` may join the rectangle.
pub open spec fn row_ok(ctx: MeshCtx, vis: Seq<bool>, ru: int, rv: int, w: int, h: int) -> bool {
    &&& rv + h < 32
    &&& row_cells_ok(ctx, vis, ru, rv, ru + w, rv + h)
}

/// Height of the rectangle: grown a full row at a time while every cell of
/// the next row may join; the first failing row stops growth for good.
pub open spec fn grow_h(ctx: MeshCtx, vis: Seq<bool>, ru: int, rv: int, w: int, h: int) -> int
    decreases 32 - h,
{
    if h < 32 && row_ok(ctx, vis, ru, rv, w, h) {
        grow_h(ctx, vis, ru, rv, w, h + 1)
    } else {
        h
    }
}

/// The visited grid with one rectangle of cells marked.
pub open spec fn rect_marked(vis: Seq<bool>, ru: int, rv: int, w: int, h: int) -> Seq<bool> {
    Seq::new(1024, |k: int|
        if ru <= k / 32 < ru + w && rv <= k % 32 < rv + h {
            true
        } else {
            vis[k]
        })
}

/// The quad one merged rectangle emits: its two extreme cube corners in
/// world block space, the root cell's texture, the root cell's corner
/// occlusion levels.
pub open spec fn rect_quad(ctx: MeshCtx, base: BlockPos, ru: int, rv: int, w: int, h: int) -> BlockFaceMesh {
    spec_from_cube_corners(
        ctx.face,
        cell_block(ctx, ru, rv).spec_texture_index(),
        pos_sum(base, spec_layer_pos(ctx.face, ctx.c3, ru, rv)),
        pos_sum(base, spec_layer_pos(ctx.face, ctx.c3, ru + w - 1, rv + h - 1)),
        ctx_occ_corners(ctx, ru, rv),
    )
}

pub ghost struct GreedyState {
    pub vis: Seq<bool>,
    pub quads: Seq<BlockFaceMesh>,
}

/// One cell of the merge pass: a visited cell is skipped; an unvisited cell
/// roots a maximal rectangle (width first, then whole rows), whose cells are
/// marked and whose quad is emitted.
pub open spec fn greedy_step(ctx: MeshCtx, st: GreedyState, base: BlockPos, u: int, v: int) -> GreedyState {
    if st.vis[cell_idx(u, v)] {
        st
    } else {
        let w = grow_w(ctx, st.vis, u, v, 1);
        let h = grow_h(ctx, st.vis, u, v, w, 1);
        GreedyState {
            vis: rect_marked(st.vis, u, v, w, h),
            quads: st.quads.push(rect_quad(ctx, base, u, v, w, h)),
        }
    }
}

/// The merge pass from cell `(u, v)` onward, in raster order (`u` outer).
pub open spec fn greedy_from(ctx: MeshCtx, st: GreedyState, base: BlockPos, u: int, v: int) -> GreedyState
    decreases 32 - u, 32 - v,
{
    if u >= 32 {
        st
    } else if v >= 32 {
        greedy_from(ctx, st, base, u + 1, 0)
    } else {
        greedy_from(ctx, greedy_step(ctx, st, base, u, v), base, u, v + 1)
    }
}

/// The full greedy mesh of one layer: the quads the merge pass emits,
/// starting from the visibility pass's visited grid.
pub open spec fn spec_layer_mesh(ctx: MeshCtx, base: BlockPos) -> Seq<BlockFaceMesh> {
    greedy_from(
        ctx,
        GreedyState { vis: init_vis(ctx), quads: Seq::empty() },
        base,
        0,
        0,
    ).quads
}

/// Inverse direction of `lemma_cell_idx_decompose`: recovering a cell's
/// in-layer coordinates from its index.
proof fn lemma_cell_idx_inverse(k: int)
    requires
        0 <= k < 1024,
    ensures
        0 <= k / 32 < 32,
        0 <= k % 32 < 32,
        cell_idx(k / 32, k % 32) == k,
{
    lemma_fundamental_div_mod(k, 32);
    lemma_mod_bound(k, 32);
}

/// The occlusion lattice a `VisitedBlockMap` holds agrees with the model
/// everywhere.
pub open spec fn occ_synced(occ: Seq<u8>, ctx: MeshCtx) -> bool {
    forall|x: int, y: int|
        0 <= x < 33 && 0 <= y < 33 ==> occ[vert_idx(x, y)] == occ_level(ctx, x, y) as u8
}

/// Cell check against the live scratch state: unvisited, same type as the
/// root, corner occlusion levels equal to the root's.
pub open spec fn cur_can_merge(c: Chunk, vm: VisitedBlockMap, ru: int, rv: int, u: int, v: int) -> bool {
    &&& !vm.visited_blocks@[cell_idx(u, v)]
    &&& c.spec_block_at(spec_layer_pos(vm.face, vm.coord3 as int, u, v)).spec_block_type()
        == c.spec_block_at(spec_layer_pos(vm.face, vm.coord3 as int, ru, rv)).spec_block_type()
    &&& spec_occ_matches(vm.vertex_occlusion@, ru, rv, u, v)
}

impl Chunk {
    /// The model context of one face/layer slice of this chunk.
    pub open spec fn layer_ctx(self, plane: NeighborPlane, face: BlockFace, layer: int) -> MeshCtx {
        MeshCtx { blocks: self.blocks@, plane: plane.cells@, face, c3: layer }
    }

    /// Visibility pass: writes every cell of the visited grid.
    fn visibility_pass(&self, visit_map: &mut VisitedBlockMap, plane: &NeighborPlane)
        requires
            self.wf(),
            old(visit_map).wf(),
            plane.wf(),
        ensures
            final(visit_map).wf(),
            final(visit_map).face == old(visit_map).face,
            final(visit_map).coord3 == old(visit_map).coord3,
            final(visit_map).vertex_occlusion == old(visit_map).vertex_occlusion,
            final(visit_map).visited_blocks@ == init_vis(
                self.layer_ctx(*plane, old(visit_map).face, old(visit_map).coord3 as int),
            ),
    {
        let ghost ctx = self.layer_ctx(*plane, visit_map.face, visit_map.coord3 as int);
        let mut u: i64 = 0;
        while u < 32
            invariant
                0 <= u <= 32,
                self.wf(),
                plane.wf(),
                visit_map.wf(),
                visit_map.face == old(visit_map).face,
                visit_map.coord3 == old(visit_map).coord3,
                visit_map.vertex_occlusion == old(visit_map).vertex_occlusion,
                ctx == self.layer_ctx(*plane, visit_map.face, visit_map.coord3 as int),
                forall|a: int, b: int|
                    0 <= a < u && 0 <= b < 32
                        ==> visit_map.visited_blocks@[cell_idx(a, b)] == vis0(ctx, a, b),
            decreases 32 - u,
        {
            let mut v: i64 = 0;
            while v < 32
                invariant
                    0 <= u < 32,
                    0 <= v <= 32,
                    self.wf(),
                    plane.wf(),
                    visit_map.wf(),
                    visit_map.face == old(visit_map).face,
                    visit_map.coord3 == old(visit_map).coord3,
                    visit_map.vertex_occlusion == old(visit_map).vertex_occlusion,
                    ctx == self.layer_ctx(*plane, visit_map.face, visit_map.coord3 as int),
                    forall|a: int, b: int|
                        0 <= a < u && 0 <= b < 32
                            ==> visit_map.visited_blocks@[cell_idx(a, b)] == vis0(ctx, a, b),
                    forall|b: int|
                        0 <= b < v
                            ==> visit_map.visited_blocks@[cell_idx(u as int, b)] == vis0(ctx, u as int, b),
                decreases 32 - v,
            {
                let block_pos = visit_map.get_block_pos(u, v);
                let b = self.get_block(block_pos);
                if b.is_air() {
                    visit_map.set_visited(block_pos, true);
                } else {
                    match plane.get(u, v) {
                        Some(is_translucent) => visit_map.set_visited(block_pos, !is_translucent),
                        None => visit_map.set_visited(block_pos, true),
                    }
                }
                proof {
                    lemma_cell_idx_decompose(u as int, v as int);
                    assert(visit_map.visited_blocks@[cell_idx(u as int, v as int)] == vis0(ctx, u as int, v as int));
                }
                v += 1;
            }
            u += 1;
        }
        proof {
            assert forall|k: int| 0 <= k < 1024
                implies visit_map.visited_blocks@[k] == init_vis(ctx)[k] by {
                lemma_cell_idx_inverse(k);
            }
            assert(visit_map.visited_blocks@ =~= init_vis(ctx));
        }
    }

    /// Occlusion pass: writes the level of every lattice vertex.
    fn occlusion_pass(&self, visit_map: &mut VisitedBlockMap, plane: &NeighborPlane)
        requires
            self.wf(),
            old(visit_map).wf(),
            plane.wf(),
        ensures
            final(visit_map).wf(),
            final(visit_map).face == old(visit_map).face,
            final(visit_map).coord3 == old(visit_map).coord3,
            final(visit_map).visited_blocks == old(visit_map).visited_blocks,
            occ_synced(
                final(visit_map).vertex_occlusion@,
                self.layer_ctx(*plane, old(visit_map).face, old(visit_map).coord3 as int),
            ),
    {
        let ghost ctx = self.layer_ctx(*plane, visit_map.face, visit_map.coord3 as int);
        let mut x: i64 = 0;
        while x < 33
            invariant
                0 <= x <= 33,
                self.wf(),
                plane.wf(),
                visit_map.wf(),
                visit_map.face == old(visit_map).face,
                visit_map.coord3 == old(visit_map).coord3,
                visit_map.visited_blocks == old(visit_map).visited_blocks,
                ctx == self.layer_ctx(*plane, visit_map.face, visit_map.coord3 as int),
                forall|a: int, b: int|
                    0 <= a < x && 0 <= b < 33
                        ==> visit_map.vertex_occlusion@[vert_idx(a, b)] == occ_level(ctx, a, b) as u8,
            decreases 33 - x,
        {
            let mut y: i64 = 0;
            while y < 33
                invariant
                    0 <= x < 33,
                    0 <= y <= 33,
                    self.wf(),
                    plane.wf(),
                    visit_map.wf(),
                    visit_map.face == old(visit_map).face,
                    visit_map.coord3 == old(visit_map).coord3,
                    visit_map.visited_blocks == old(visit_map).visited_blocks,
                    ctx == self.layer_ctx(*plane, visit_map.face, visit_map.coord3 as int),
                    forall|a: int, b: int|
                        0 <= a < x && 0 <= b < 33
                            ==> visit_map.vertex_occlusion@[vert_idx(a, b)] == occ_level(ctx, a, b) as u8,
                    forall|b: int|
                        0 <= b < y
                            ==> visit_map.vertex_occlusion@[vert_idx(x as int, b)] == occ_level(ctx, x as int, b) as u8,
                decreases 33 - y,
            {
                let tl = occluded_weight(plane, x - 1, y - 1);
                let tr = occluded_weight(plane, x, y - 1);
                let bl = occluded_weight(plane, x - 1, y);
                let br = occluded_weight(plane, x, y);
                let occlusion_level: u8 = if (tl == 1 && br == 1) || (tr == 1 && bl == 1) {
                    3
                } else {
                    tl + tr + bl + br
                };
                proof {
                    assert(occlusion_level == occ_level(ctx, x as int, y as int) as u8);
                }
                visit_map.set_occlusion_level(x, y, occlusion_level);
                y += 1;
            }
            x += 1;
        }
    }

    /// Checks whether every cell of the row at height `h` may join the
    /// rectangle rooted at `(ru, rv)` of the given width.
    fn row_check(&self, visit_map: &VisitedBlockMap, ru: i64, rv: i64, width: i64, row: i64) -> (r: bool)
        requires
            self.wf(),
            visit_map.wf(),
            0 <= ru,
            1 <= width,
            ru + width <= 32,
            0 <= rv < 32,
            rv < row < 32,
        ensures
            r == (forall|a: int| ru <= a < ru + width
                ==> cur_can_merge(*self, *visit_map, ru as int, rv as int, a, row as int)),
    {
        let root_pos = visit_map.get_block_pos(ru, rv);
        let root_type = self.get_block(root_pos).block_type();
        let mut i: i64 = 0;
        while i < width
            invariant
                0 <= i <= width,
                self.wf(),
                visit_map.wf(),
                0 <= ru,
                1 <= width,
                ru + width <= 32,
                0 <= rv < 32,
                rv < row < 32,
                root_pos == spec_layer_pos(visit_map.face, visit_map.coord3 as int, ru as int, rv as int),
                root_type == self.spec_block_at(root_pos).spec_block_type(),
                forall|a: int| ru <= a < ru + i
                    ==> cur_can_merge(*self, *visit_map, ru as int, rv as int, a, row as int),
            decreases width - i,
        {
            let cand = visit_map.get_block_pos(ru + i, row);
            if visit_map.is_visited(cand) {
                proof {
                    assert(!cur_can_merge(*self, *visit_map, ru as int, rv as int, ru + i, row as int));
                }
                return false;
            }
            if !(self.get_block(cand).block_type() == root_type) {
                proof {
                    assert(!cur_can_merge(*self, *visit_map, ru as int, rv as int, ru + i, row as int));
                }
                return false;
            }
            if !visit_map.occlusion_level_matches(root_pos, cand) {
                proof {
                    assert(!cur_can_merge(*self, *visit_map, ru as int, rv as int, ru + i, row as int));
                }
                return false;
            }
            i += 1;
        }
        true
    }
}

/// Occlusion contribution of one neighbour-side cell, as the occlusion pass
/// reads it.
fn occluded_weight(plane: &NeighborPlane, u: i64, v: i64) -> (r: u8)
    requires
        plane.wf(),
        -1 <= u <= 32,
        -1 <= v <= 32,
    ensures
        forall|ctx: MeshCtx| ctx.plane == plane.cells@ ==> r == occluding(ctx, u as int, v as int),
        r <= 1,
{
    match plane.get(u, v) {
        Some(is_translucent) => if is_translucent {
            0
        } else {
            1
        },
        None => 0,
    }
}

/// The visited grid covers at least everything the visibility pass marked.
pub open spec fn vis_covered(ctx: MeshCtx, vis: Seq<bool>) -> bool {
    forall|a: int, b: int| 0 <= a < 32 && 0 <= b < 32 && #[trigger] vis0(ctx, a, b) ==> vis[cell_idx(a, b)]
}

/// Two cells' stored corner levels match exactly when the model's do.
proof fn lemma_occ_match_equiv(occ: Seq<u8>, ctx: MeshCtx, u1: int, v1: int, u2: int, v2: int)
    requires
        occ_synced(occ, ctx),
        0 <= u1 < 32,
        0 <= v1 < 32,
        0 <= u2 < 32,
        0 <= v2 < 32,
    ensures
        spec_occ_matches(occ, u1, v1, u2, v2) == occ_match(ctx, u1, v1, u2, v2),
{
    lemma_occ_level_bounds(ctx, u1, v1);
    lemma_occ_level_bounds(ctx, u1 + 1, v1);
    lemma_occ_level_bounds(ctx, u1, v1 + 1);
    lemma_occ_level_bounds(ctx, u1 + 1, v1 + 1);
    lemma_occ_level_bounds(ctx, u2, v2);
    lemma_occ_level_bounds(ctx, u2 + 1, v2);
    lemma_occ_level_bounds(ctx, u2, v2 + 1);
    lemma_occ_level_bounds(ctx, u2 + 1, v2 + 1);
}

impl Chunk {
    /// Grows the maximal rectangle rooted at the unvisited cell `(u, v)`,
    /// marks its cells visited, and returns its quad.
    #[verifier::rlimit(60)]
    #[verifier::spinoff_prover]
    fn merge_rect(
        &self,
        visit_map: &mut VisitedBlockMap,
        plane: &NeighborPlane,
        u: i64,
        v: i64,
        base_pos: BlockPos,
    ) -> (quad: BlockFaceMesh)
        requires
            self.wf(),
            plane.wf(),
            old(visit_map).wf(),
            0 <= u < 32,
            0 <= v < 32,
            occ_synced(
                old(visit_map).vertex_occlusion@,
                self.layer_ctx(*plane, old(visit_map).face, old(visit_map).coord3 as int),
            ),
            !old(visit_map).visited_blocks@[cell_idx(u as int, v as int)],
            !cell_block(
                self.layer_ctx(*plane, old(visit_map).face, old(visit_map).coord3 as int),
                u as int,
                v as int,
            ).spec_is_air(),
            base_pos == self.block_position,
        ensures
            final(visit_map).wf(),
            final(visit_map).face == old(visit_map).face,
            final(visit_map).coord3 == old(visit_map).coord3,
            final(visit_map).vertex_occlusion == old(visit_map).vertex_occlusion,
            ({
                let ctx = self.layer_ctx(*plane, old(visit_map).face, old(visit_map).coord3 as int);
                let vis = old(visit_map).visited_blocks@;
                let w = grow_w(ctx, vis, u as int, v as int, 1);
                let h = grow_h(ctx, vis, u as int, v as int, w, 1);
                &&& final(visit_map).visited_blocks@ == rect_marked(vis, u as int, v as int, w, h)
                &&& quad == rect_quad(ctx, base_pos, u as int, v as int, w, h)
            }),
    {
        let ghost ctx = self.layer_ctx(*plane, visit_map.face, visit_map.coord3 as int);
        let ghost vis = visit_map.visited_blocks@;
        let root_pos = visit_map.get_block_pos(u, v);
        let block = self.get_block(root_pos);
        let block_type = block.block_type();
        visit_map.set_visited(root_pos, true);

        let mut width: i64 = 1;
        loop
            invariant_except_break
                0 <= u < 32,
                0 <= v < 32,
                1 <= width,
                u + width <= 32,
                self.wf(),
                plane.wf(),
                visit_map.wf(),
                visit_map.face == old(visit_map).face,
                visit_map.coord3 == old(visit_map).coord3,
                visit_map.vertex_occlusion == old(visit_map).vertex_occlusion,
                ctx == self.layer_ctx(*plane, visit_map.face, visit_map.coord3 as int),
                occ_synced(visit_map.vertex_occlusion@, ctx),
                vis == old(visit_map).visited_blocks@,
                block == cell_block(ctx, u as int, v as int),
                block_type == block.spec_block_type(),
                root_pos == spec_layer_pos(visit_map.face, visit_map.coord3 as int, u as int, v as int),
                forall|a: int, b: int|
                    0 <= a < 32 && 0 <= b < 32
                        ==> visit_map.visited_blocks@[#[trigger] cell_idx(a, b)] == (
                            if b == v as int && u as int <= a < u + width {
                                true
                            } else {
                                vis[cell_idx(a, b)]
                            }),
                grow_w(ctx, vis, u as int, v as int, width as int)
                    == grow_w(ctx, vis, u as int, v as int, 1),
            ensures
                1 <= width,
                u + width <= 32,
                visit_map.wf(),
                visit_map.face == old(visit_map).face,
                visit_map.coord3 == old(visit_map).coord3,
                visit_map.vertex_occlusion == old(visit_map).vertex_occlusion,
                occ_synced(visit_map.vertex_occlusion@, ctx),
                forall|a: int, b: int|
                    0 <= a < 32 && 0 <= b < 32
                        ==> visit_map.visited_blocks@[#[trigger] cell_idx(a, b)] == (
                            if b == v as int && u as int <= a < u + width {
                                true
                            } else {
                                vis[cell_idx(a, b)]
                            }),
                width as int == grow_w(ctx, vis, u as int, v as int, 1),
            decreases 32 - width,
        {
            if u + width >= 32 {
                proof {
                    assert(grow_w(ctx, vis, u as int, v as int, width as int) == width);
                }
                break;
            }
            let cand = visit_map.get_block_pos(u + width, v);
            let cand_unvisited = !visit_map.is_visited(cand);
            let cand_same_type = self.get_block(cand).block_type() == block_type;
            let cand_occ = visit_map.occlusion_level_matches(root_pos, cand);
            proof {
                lemma_occ_match_equiv(
                    visit_map.vertex_occlusion@,
                    ctx,
                    u as int,
                    v as int,
                    u + width,
                    v as int,
                );
                assert(visit_map.visited_blocks@[cell_idx(u + width, v as int)]
                    == vis[cell_idx(u + width, v as int)]);
                assert((cand_unvisited && cand_same_type && cand_occ)
                    == can_merge(ctx, vis, u as int, v as int, u + width, v as int));
            }
            if cand_unvisited && cand_same_type && cand_occ {
                visit_map.set_visited(cand, true);
                width += 1;
            } else {
                proof {
                    assert(grow_w(ctx, vis, u as int, v as int, (width) as int) == width);
                }
                break;
            }
        }

        let mut height: i64 = 1;
        loop
            invariant_except_break
                0 <= u < 32,
                0 <= v < 32,
                1 <= width,
                u + width <= 32,
                1 <= height,
                v + height <= 32,
                self.wf(),
                plane.wf(),
                visit_map.wf(),
                visit_map.face == old(visit_map).face,
                visit_map.coord3 == old(visit_map).coord3,
                visit_map.vertex_occlusion == old(visit_map).vertex_occlusion,
                ctx == self.layer_ctx(*plane, visit_map.face, visit_map.coord3 as int),
                occ_synced(visit_map.vertex_occlusion@, ctx),
                vis == old(visit_map).visited_blocks@,
                block == cell_block(ctx, u as int, v as int),
                block_type == block.spec_block_type(),
                root_pos == spec_layer_pos(visit_map.face, visit_map.coord3 as int, u as int, v as int),
                width as int == grow_w(ctx, vis, u as int, v as int, 1),
                forall|a: int, b: int|
                    0 <= a < 32 && 0 <= b < 32
                        ==> visit_map.visited_blocks@[#[trigger] cell_idx(a, b)] == (
                            if u as int <= a < u + width && v as int <= b < v + height {
                                true
                            } else {
                                vis[cell_idx(a, b)]
                            }),
                grow_h(ctx, vis, u as int, v as int, width as int, height as int)
                    == grow_h(ctx, vis, u as int, v as int, width as int, 1),
            ensures
                1 <= height,
                v + height <= 32,
                1 <= width,
                u + width <= 32,
                visit_map.wf(),
                visit_map.face == old(visit_map).face,
                visit_map.coord3 == old(visit_map).coord3,
                visit_map.vertex_occlusion == old(visit_map).vertex_occlusion,
                occ_synced(visit_map.vertex_occlusion@, ctx),
                block == cell_block(ctx, u as int, v as int),
                root_pos == spec_layer_pos(visit_map.face, visit_map.coord3 as int, u as int, v as int),
                width as int == grow_w(ctx, vis, u as int, v as int, 1),
                forall|a: int, b: int|
                    0 <= a < 32 && 0 <= b < 32
                        ==> visit_map.visited_blocks@[#[trigger] cell_idx(a, b)] == (
                            if u as int <= a < u + width && v as int <= b < v + height {
                                true
                            } else {
                                vis[cell_idx(a, b)]
                            }),
                height as int == grow_h(ctx, vis, u as int, v as int, width as int, 1),
            decreases 32 - height,
        {
            if v + height >= 32 {
                proof {
                    assert(grow_h(ctx, vis, u as int, v as int, width as int, height as int)
                        == height);
                }
                break;
            }
            let expandable = self.row_check(visit_map, u, v, width, v + height);
            proof {
                assert forall|a: int|
                    #![trigger cur_can_merge(*self, *visit_map, u as int, v as int, a, v + height)]
                    #![trigger can_merge(ctx, vis, u as int, v as int, a, v + height)]
                    u as int <= a < u + width implies
                    cur_can_merge(*self, *visit_map, u as int, v as int, a, v + height)
                        == can_merge(ctx, vis, u as int, v as int, a, v + height) by {
                    lemma_occ_match_equiv(
                        visit_map.vertex_occlusion@,
                        ctx,
                        u as int,
                        v as int,
                        a,
                        v + height,
                    );
                    assert(visit_map.visited_blocks@[cell_idx(a, v + height)]
                        == vis[cell_idx(a, v + height)]);
                }
                assert(expandable == row_ok(ctx, vis, u as int, v as int, width as int, height as int));
            }
            if expandable {
                let mut w_i: i64 = 0;
                while w_i < width
                    invariant
                        0 <= w_i <= width,
                        0 <= u < 32,
                        0 <= v < 32,
                        1 <= width,
                        u + width <= 32,
                        1 <= height,
                        v + height < 32,
                        visit_map.wf(),
                        visit_map.face == old(visit_map).face,
                        visit_map.coord3 == old(visit_map).coord3,
                        visit_map.vertex_occlusion == old(visit_map).vertex_occlusion,
                        forall|a: int, b: int|
                            0 <= a < 32 && 0 <= b < 32
                                ==> visit_map.visited_blocks@[#[trigger] cell_idx(a, b)] == (
                                    if (u as int <= a < u + width && v as int <= b < v + height)
                                        || (b == v + height && u as int <= a < u + w_i) {
                                        true
                                    } else {
                                        vis[cell_idx(a, b)]
                                    }),
                    decreases width - w_i,
                {
                    let p = visit_map.get_block_pos(u + w_i, v + height);
                    visit_map.set_visited(p, true);
                    w_i += 1;
                }
                proof {
                    assert(grow_h(ctx, vis, u as int, v as int, width as int, (height + 1) as int)
                        == grow_h(ctx, vis, u as int, v as int, width as int, height as int));
                }
                height += 1;
            } else {
                proof {
                    assert(grow_h(ctx, vis, u as int, v as int, width as int, height as int)
                        == height);
                }
                break;
            }
        }

        let occ_data = visit_map.get_occlusion_data(root_pos);
        let far_pos = visit_map.get_block_pos_offset(root_pos, width - 1, height - 1);
        proof {
            lemma_occ_level_bounds(ctx, u as int, v as int);
            lemma_occ_level_bounds(ctx, u + 1, v as int);
            lemma_occ_level_bounds(ctx, u as int, v + 1);
            lemma_occ_level_bounds(ctx, u + 1, v + 1);
            assert(occ_data == ctx_occ_corners(ctx, u as int, v as int));
        }
        let neg_corner = root_pos.plus(base_pos);
        let pos_corner = far_pos.plus(base_pos);
        let face = visit_map.face;
        let quad = BlockFaceMesh::from_cube_corners(
            face,
            block.texture_index(),
            neg_corner,
            pos_corner,
            occ_data,
        );
        proof {
            let w = grow_w(ctx, vis, u as int, v as int, 1);
            let h = grow_h(ctx, vis, u as int, v as int, w, 1);
            assert(neg_corner == pos_sum(base_pos, spec_layer_pos(ctx.face, ctx.c3, u as int, v as int)));
            assert(pos_corner == pos_sum(base_pos, spec_layer_pos(ctx.face, ctx.c3, u + w - 1, v + h - 1)));
            assert(quad == rect_quad(ctx, base_pos, u as int, v as int, w, h));
            assert forall|k: int| 0 <= k < 1024 implies visit_map.visited_blocks@[k]
                == rect_marked(vis, u as int, v as int, w, h)[k] by {
                lemma_cell_idx_inverse(k);
            }
            assert(visit_map.visited_blocks@ =~= rect_marked(vis, u as int, v as int, w, h));
        }
        quad
    }
}

impl Chunk {
    /// Recomputes the cached mesh of one face/layer slice with three passes:
    /// visibility, vertex occlusion, and greedy rectangle merging. The slot
    /// ends up exactly `spec_layer_mesh` of the chunk's blocks and the given
    /// neighbour-side plane — a pure function of the block state, so
    /// remeshing an unchanged slice reproduces the identical quad list. The
    /// scratch map is passed in to avoid reallocating it for every slice.
    pub fn mesh_update_inner(
        &mut self,
        face: BlockFace,
        index: usize,
        visit_map: &mut VisitedBlockMap,
        plane: &NeighborPlane,
    )
        requires
            old(self).wf(),
            index < CHUNK_SIZE,
            old(visit_map).wf(),
            plane.wf(),
        ensures
            final(self).wf(),
            final(visit_map).wf(),
            final(self).blocks == old(self).blocks,
            final(self).chunk_position == old(self).chunk_position,
            final(self).block_position == old(self).block_position,
            forall|s: int|
                0 <= s < 192 && s != layer_slot(face, index as int)
                    ==> final(self).chunk_mesh@[s] == old(self).chunk_mesh@[s],
            final(self).chunk_mesh@[layer_slot(face, index as int)]@ == spec_layer_mesh(
                old(self).layer_ctx(*plane, face, index as int),
                old(self).block_position,
            ),
    {
        visit_map.set_face_coord(face, index as i64);
        let ghost ctx = self.layer_ctx(*plane, face, index as int);
        self.visibility_pass(visit_map, plane);
        self.occlusion_pass(visit_map, plane);
        proof {
            assert forall|a: int, b: int|
                0 <= a < 32 && 0 <= b < 32 && #[trigger] vis0(ctx, a, b)
                    implies visit_map.visited_blocks@[cell_idx(a, b)] by {
                lemma_cell_idx_decompose(a, b);
            }
        }

        let base_pos = self.block_position;
        let mut quads: Vec<BlockFaceMesh> = Vec::new();
        let ghost init_state = GreedyState { vis: init_vis(ctx), quads: Seq::empty() };
        let ghost target = greedy_from(ctx, init_state, base_pos, 0, 0);
        proof {
            assert(GreedyState { vis: visit_map.visited_blocks@, quads: quads@ } == init_state);
        }

        let mut u: i64 = 0;
        while u < 32
            invariant
                0 <= u <= 32,
                self.wf(),
                plane.wf(),
                visit_map.wf(),
                visit_map.face == face,
                visit_map.coord3 == index as i64,
                index < 32,
                *self == *old(self),
                base_pos == self.block_position,
                ctx == self.layer_ctx(*plane, face, index as int),
                occ_synced(visit_map.vertex_occlusion@, ctx),
                vis_covered(ctx, visit_map.visited_blocks@),
                greedy_from(
                    ctx,
                    GreedyState { vis: visit_map.visited_blocks@, quads: quads@ },
                    base_pos,
                    u as int,
                    0,
                ) == target,
            decreases 32 - u,
        {
            let mut v: i64 = 0;
            while v < 32
                invariant
                    0 <= u < 32,
                    0 <= v <= 32,
                    self.wf(),
                    plane.wf(),
                    visit_map.wf(),
                    visit_map.face == face,
                    visit_map.coord3 == index as i64,
                    index < 32,
                    *self == *old(self),
                    base_pos == self.block_position,
                    ctx == self.layer_ctx(*plane, face, index as int),
                    occ_synced(visit_map.vertex_occlusion@, ctx),
                    vis_covered(ctx, visit_map.visited_blocks@),
                    greedy_from(
                        ctx,
                        GreedyState { vis: visit_map.visited_blocks@, quads: quads@ },
                        base_pos,
                        u as int,
                        v as int,
                    ) == target,
                decreases 32 - v,
            {
                let ghost st0 = GreedyState { vis: visit_map.visited_blocks@, quads: quads@ };
                let root_pos = visit_map.get_block_pos(u, v);
                if !visit_map.is_visited(root_pos) {
                    proof {
                        assert(!vis0(ctx, u as int, v as int));
                        assert(!cell_block(ctx, u as int, v as int).spec_is_air());
                    }
                    let quad = self.merge_rect(visit_map, plane, u, v, base_pos);
                    quads.push(quad);
                    proof {
                        assert(GreedyState { vis: visit_map.visited_blocks@, quads: quads@ }
                            == greedy_step(ctx, st0, base_pos, u as int, v as int));
                        assert forall|a: int, b: int|
                            0 <= a < 32 && 0 <= b < 32 && #[trigger] vis0(ctx, a, b)
                                implies visit_map.visited_blocks@[cell_idx(a, b)] by {
                            lemma_cell_idx_inverse(cell_idx(a, b));
                            lemma_cell_idx_decompose(a, b);
                        }
                    }
                } else {
                    proof {
                        assert(greedy_step(ctx, st0, base_pos, u as int, v as int) == st0);
                    }
                }
                proof {
                    assert(greedy_from(ctx, st0, base_pos, u as int, v as int)
                        == greedy_from(
                            ctx,
                            greedy_step(ctx, st0, base_pos, u as int, v as int),
                            base_pos,
                            u as int,
                            v as int + 1,
                        ));
                }
                v += 1;
            }
            proof {
                assert(greedy_from(
                    ctx,
                    GreedyState { vis: visit_map.visited_blocks@, quads: quads@ },
                    base_pos,
                    u as int,
                    32,
                ) == greedy_from(
                    ctx,
                    GreedyState { vis: visit_map.visited_blocks@, quads: quads@ },
                    base_pos,
                    u as int + 1,
                    0,
                ));
            }
            u += 1;
        }
        proof {
            assert(greedy_from(
                ctx,
                GreedyState { vis: visit_map.visited_blocks@, quads: quads@ },
                base_pos,
                32,
                0,
            ) == GreedyState { vis: visit_map.visited_blocks@, quads: quads@ });
            assert(quads@ == spec_layer_mesh(ctx, base_pos));
        }

        let slot = face.index() * 32 + index;
        self.chunk_mesh.set(slot, quads);
    }

    /// Recomputes the cached mesh of every face/layer slice of the chunk
    /// against the given per-face neighbour planes, reusing one scratch map
    /// across all slices: afterwards every slot holds exactly the greedy
    /// mesh of the chunk's blocks against its face's plane.
    pub fn chunk_mesh_update(&mut self, planes: &[NeighborPlane; 6])
        requires
            old(self).wf(),
            forall|f: int| 0 <= f < 6 ==> (#[trigger] planes@[f]).wf(),
        ensures
            final(self).wf(),
            final(self).blocks == old(self).blocks,
            final(self).chunk_position == old(self).chunk_position,
            final(self).block_position == old(self).block_position,
            forall|f: int, l: int| 0 <= f < 6 && 0 <= l < 32
                ==> final(self).chunk_mesh@[#[trigger] layer_slot(spec_face_of_index(f), l)]@
                    == spec_layer_mesh(
                    old(self).layer_ctx(planes@[f], spec_face_of_index(f), l),
                    old(self).block_position,
                ),
    {
        let ghost orig = *old(self);
        let mut visit_map = VisitedBlockMap::new();
        let mut fi: usize = 0;
        while fi < 6
            invariant
                fi <= 6,
                self.wf(),
                orig == *old(self),
                self.blocks == orig.blocks,
                self.chunk_position == orig.chunk_position,
                self.block_position == orig.block_position,
                visit_map.wf(),
                forall|f: int| 0 <= f < 6 ==> (#[trigger] planes@[f]).wf(),
                forall|f: int, l: int| 0 <= f < fi as int && 0 <= l < 32
                    ==> self.chunk_mesh@[#[trigger] layer_slot(spec_face_of_index(f), l)]@
                        == spec_layer_mesh(
                        orig.layer_ctx(planes@[f], spec_face_of_index(f), l),
                        orig.block_position,
                    ),
            decreases 6 - fi,
        {
            let mut i: usize = 0;
            while i < CHUNK_SIZE
                invariant
                    i <= 32,
                    fi < 6,
                    self.wf(),
                    orig == *old(self),
                    self.blocks == orig.blocks,
                    self.chunk_position == orig.chunk_position,
                    self.block_position == orig.block_position,
                    visit_map.wf(),
                    forall|f: int| 0 <= f < 6 ==> (#[trigger] planes@[f]).wf(),
                    forall|f: int, l: int|
                        (0 <= f < fi as int && 0 <= l < 32) || (f == fi as int && 0 <= l
                            < i as int)
                        ==> self.chunk_mesh@[#[trigger] layer_slot(spec_face_of_index(f), l)]@
                            == spec_layer_mesh(
                            orig.layer_ctx(planes@[f], spec_face_of_index(f), l),
                            orig.block_position,
                        ),
                decreases 32 - i,
            {
                let face = BlockFace::from_index(fi);
                let ghost before = *self;
                self.mesh_update_inner(face, i, &mut visit_map, &planes[fi]);
                proof {
                    assert(before.layer_ctx(planes@[fi as int], face, i as int)
                        == orig.layer_ctx(planes@[fi as int], face, i as int));
                    assert forall|f: int, l: int|
                        (0 <= f < fi as int && 0 <= l < 32) || (f == fi as int && 0 <= l
                            <= i as int) implies self.chunk_mesh@[#[trigger] layer_slot(
                        spec_face_of_index(f),
                        l,
                    )]@ == spec_layer_mesh(
                        orig.layer_ctx(planes@[f], spec_face_of_index(f), l),
                        orig.block_position,
                    ) by {
                        if f == fi as int && l == i as int {
                        } else {
                            assert(layer_slot(spec_face_of_index(f), l) != layer_slot(
                                face,
                                i as int,
                            ));
                            assert(self.chunk_mesh@[layer_slot(spec_face_of_index(f), l)]
                                == before.chunk_mesh@[layer_slot(spec_face_of_index(f), l)]);
                        }
                    }
                }
                i += 1;
            }
            fi += 1;
        }
    }
}

// ---------------------------------------------------------------------------
// Laws of the layer mesh.
// ---------------------------------------------------------------------------

/// The merge pass adds nothing once every cell is visited.
proof fn lemma_greedy_all_visited(ctx: MeshCtx, st: GreedyState, base: BlockPos, u: int, v: int)
    requires
        0 <= u,
        0 <= v <= 32,
        forall|a: int, b: int| 0 <= a < 32 && 0 <= b < 32 ==> st.vis[#[trigger] cell_idx(a, b)],
    ensures
        greedy_from(ctx, st, base, u, v) == st,
    decreases 32 - u, 32 - v,
{
    if u >= 32 {
    } else if v >= 32 {
        lemma_greedy_all_visited(ctx, st, base, u + 1, 0);
    } else {
        assert(st.vis[cell_idx(u, v)]);
        assert(greedy_step(ctx, st, base, u, v) == st);
        lemma_greedy_all_visited(ctx, st, base, u, v + 1);
    }
}

/// A layer every cell of which the visibility pass writes off — air, or
/// occluded, or facing an unloaded chunk — produces no quads at all.
pub proof fn lemma_all_skipped_layer_empty(ctx: MeshCtx, base: BlockPos)
    requires
        forall|u: int, v: int| 0 <= u < 32 && 0 <= v < 32 ==> #[trigger] vis0(ctx, u, v),
    ensures
        spec_layer_mesh(ctx, base) == Seq::<BlockFaceMesh>::empty(),
{
    assert forall|a: int, b: int| 0 <= a < 32 && 0 <= b < 32 implies init_vis(ctx)[#[trigger] cell_idx(a, b)] by {
        lemma_cell_idx_decompose(a, b);
    }
    lemma_greedy_all_visited(
        ctx,
        GreedyState { vis: init_vis(ctx), quads: Seq::empty() },
        base,
        0,
        0,
    );
}

/// A layer of nothing but air produces no quads.
pub proof fn lemma_air_layer_empty(ctx: MeshCtx, base: BlockPos)
    requires
        forall|u: int, v: int| 0 <= u < 32 && 0 <= v < 32 ==> (#[trigger] cell_block(ctx, u, v)).spec_is_air(),
    ensures
        spec_layer_mesh(ctx, base) == Seq::<BlockFaceMesh>::empty(),
{
    assert forall|u: int, v: int| 0 <= u < 32 && 0 <= v < 32 implies #[trigger] vis0(ctx, u, v) by {
        assert(cell_block(ctx, u, v).spec_is_air());
    }
    lemma_all_skipped_layer_empty(ctx, base);
}

/// A layer whose every cell is covered by a known opaque neighbour — a solid
/// chunk pressed against the face — produces no quads.
pub proof fn lemma_occluded_layer_empty(ctx: MeshCtx, base: BlockPos)
    requires
        forall|u: int, v: int| 0 <= u < 32 && 0 <= v < 32
            ==> #[trigger] ctx_plane_at(ctx, u, v) == Some(false),
    ensures
        spec_layer_mesh(ctx, base) == Seq::<BlockFaceMesh>::empty(),
{
    assert forall|u: int, v: int| 0 <= u < 32 && 0 <= v < 32 implies #[trigger] vis0(ctx, u, v) by {
        assert(ctx_plane_at(ctx, u, v) == Some(false));
    }
    lemma_all_skipped_layer_empty(ctx, base);
}

/// A sequence of empty sequences flattens to nothing.
proof fn lemma_flatten_all_empty<A>(s: Seq<Seq<A>>)
    requires
        forall|k: int| 0 <= k < s.len() ==> #[trigger] s[k] == Seq::<A>::empty(),
    ensures
        s.flatten() == Seq::<A>::empty(),
    decreases s.len(),
{
    if s.len() > 0 {
        assert(s.first() == Seq::<A>::empty());
        assert forall|k: int| 0 <= k < s.drop_first().len() implies #[trigger] s.drop_first()[k]
            == Seq::<A>::empty() by {
            assert(s.drop_first()[k] == s[k + 1]);
        }
        lemma_flatten_all_empty(s.drop_first());
        assert(s.flatten() =~= Seq::<A>::empty());
    }
}

/// Every mesh-cache slot is addressed by `layer_slot` of its face and layer.
proof fn lemma_slot_decompose(s: int)
    requires
        0 <= s < 192,
    ensures
        0 <= s / 32 < 6,
        0 <= s % 32 < 32,
        layer_slot(spec_face_of_index(s / 32), s % 32) == s,
{
    lemma_fundamental_div_mod(s, 32);
    lemma_mod_bound(s, 32);
}

/// A chunk whose every face/layer slot is empty carries an empty mesh.
pub proof fn lemma_empty_slots_empty_mesh(c: Chunk)
    requires
        c.chunk_mesh@.len() == 192,
        forall|s: int| 0 <= s < 192 ==> #[trigger] c.chunk_mesh@[s]@ == Seq::<
            BlockFaceMesh,
        >::empty(),
    ensures
        c.spec_chunk_mesh_flat() == Seq::<BlockFaceMesh>::empty(),
{
    let mapped = c.chunk_mesh@.map_values(|slot: Vec<BlockFaceMesh>| slot@);
    assert forall|k: int| 0 <= k < mapped.len() implies #[trigger] mapped[k] == Seq::<
        BlockFaceMesh,
    >::empty() by {
        assert(mapped[k] == c.chunk_mesh@[k]@);
    }
    lemma_flatten_all_empty(mapped);
}

/// A chunk of nothing but air, fully remeshed against any neighbour planes,
/// carries an empty mesh: there is nothing to emit.
pub proof fn lemma_air_chunk_empty_mesh(pre: Chunk, post: Chunk, planes: Seq<NeighborPlane>)
    requires
        planes.len() == 6,
        post.chunk_mesh@.len() == 192,
        forall|f: int, l: int| 0 <= f < 6 && 0 <= l < 32
            ==> post.chunk_mesh@[#[trigger] layer_slot(spec_face_of_index(f), l)]@
                == spec_layer_mesh(
                pre.layer_ctx(planes[f], spec_face_of_index(f), l),
                pre.block_position,
            ),
        forall|p: BlockPos| p.spec_is_chunk_local()
            ==> (#[trigger] pre.spec_block_at(p)).spec_is_air(),
    ensures
        post.spec_chunk_mesh_flat() == Seq::<BlockFaceMesh>::empty(),
{
    assert forall|s: int| 0 <= s < 192 implies #[trigger] post.chunk_mesh@[s]@ == Seq::<
        BlockFaceMesh,
    >::empty() by {
        lemma_slot_decompose(s);
        let f = s / 32;
        let l = s % 32;
        let face = spec_face_of_index(f);
        let ctx = pre.layer_ctx(planes[f], face, l);
        assert forall|u: int, v: int| 0 <= u < 32 && 0 <= v < 32 implies
            (#[trigger] cell_block(ctx, u, v)).spec_is_air() by {
            let p = spec_layer_pos(face, l, u, v);
            assert(p.spec_is_chunk_local());
            assert(pre.spec_block_at(p).spec_is_air());
        }
        lemma_air_layer_empty(ctx, pre.block_position);
    }
    lemma_empty_slots_empty_mesh(post);
}

/// A chunk every cell of which faces a known opaque neighbour — a solid
/// chunk pressed in on all six sides — fully remeshed against those planes,
/// carries an empty mesh: full occlusion yields zero quads.
pub proof fn lemma_occluded_chunk_empty_mesh(pre: Chunk, post: Chunk, planes: Seq<NeighborPlane>)
    requires
        planes.len() == 6,
        post.chunk_mesh@.len() == 192,
        forall|f: int, l: int| 0 <= f < 6 && 0 <= l < 32
            ==> post.chunk_mesh@[#[trigger] layer_slot(spec_face_of_index(f), l)]@
                == spec_layer_mesh(
                pre.layer_ctx(planes[f], spec_face_of_index(f), l),
                pre.block_position,
            ),
        forall|f: int, u: int, v: int| 0 <= f < 6 && 0 <= u < 32 && 0 <= v < 32
            ==> (#[trigger] planes[f].spec_at(u, v)) == Some(false),
    ensures
        post.spec_chunk_mesh_flat() == Seq::<BlockFaceMesh>::empty(),
{
    assert forall|s: int| 0 <= s < 192 implies #[trigger] post.chunk_mesh@[s]@ == Seq::<
        BlockFaceMesh,
    >::empty() by {
        lemma_slot_decompose(s);
        let f = s / 32;
        let l = s % 32;
        let face = spec_face_of_index(f);
        let ctx = pre.layer_ctx(planes[f], face, l);
        assert forall|u: int, v: int| 0 <= u < 32 && 0 <= v < 32 implies
            #[trigger] ctx_plane_at(ctx, u, v) == Some(false) by {
            assert(planes[f].spec_at(u, v) == Some(false));
        }
        lemma_occluded_layer_empty(ctx, pre.block_position);
    }
    lemma_empty_slots_empty_mesh(post);
}

/// The layer mesh is a pure function of the blocks, the neighbour plane and
/// the chunk's base position: remeshing the same face/layer twice with no
/// intervening block change yields identical quad lists.
pub proof fn lemma_remesh_idempotent(
    before: Chunk,
    after: Chunk,
    plane: NeighborPlane,
    face: BlockFace,
    layer: int,
)
    requires
        after.blocks == before.blocks,
        after.block_position == before.block_position,
    ensures
        spec_layer_mesh(after.layer_ctx(plane, face, layer), after.block_position)
            == spec_layer_mesh(before.layer_ctx(plane, face, layer), before.block_position),
{
}

proof fn lemma_grow_w_full(ctx: MeshCtx, vis: Seq<bool>, w: int)
    requires
        1 <= w <= 32,
        forall|a: int| 1 <= a < 32 ==> #[trigger] can_merge(ctx, vis, 0, 0, a, 0),
    ensures
        grow_w(ctx, vis, 0, 0, w) == 32,
    decreases 32 - w,
{
    if w < 32 {
        lemma_grow_w_full(ctx, vis, w + 1);
    }
}

proof fn lemma_grow_h_full(ctx: MeshCtx, vis: Seq<bool>, h: int)
    requires
        1 <= h <= 32,
        forall|a: int, b: int| 0 <= a < 32 && 1 <= b < 32 ==> #[trigger] can_merge(ctx, vis, 0, 0, a, b),
    ensures
        grow_h(ctx, vis, 0, 0, 32, h) == 32,
    decreases 32 - h,
{
    if h < 32 {
        assert(row_ok(ctx, vis, 0, 0, 32, h));
        lemma_grow_h_full(ctx, vis, h + 1);
    } else {
        assert(!(h < 32));
    }
}

/// A layer of one uniform non-air block type, fully exposed (a translucent
/// neighbour in front of every cell, and no opaque neighbour-side block
/// anywhere), merges into exactly one quad spanning the whole layer — not
/// 1024 unit quads.
pub proof fn lemma_uniform_exposed_layer_one_quad(ctx: MeshCtx, base: BlockPos, b: Block)
    requires
        !b.spec_is_air(),
        forall|u: int, v: int| 0 <= u < 32 && 0 <= v < 32 ==> #[trigger] cell_block(ctx, u, v) == b,
        forall|u: int, v: int| -1 <= u <= 32 && -1 <= v <= 32
            ==> #[trigger] ctx_plane_at(ctx, u, v) == Some(true),
    ensures
        spec_layer_mesh(ctx, base) =~= seq![rect_quad(ctx, base, 0, 0, 32, 32)],
{
    let vis = init_vis(ctx);
    assert forall|a: int, b2: int| 0 <= a < 32 && 0 <= b2 < 32 implies !vis[#[trigger] cell_idx(a, b2)] by {
        lemma_cell_idx_decompose(a, b2);
        assert(cell_block(ctx, a, b2) == b);
        assert(ctx_plane_at(ctx, a, b2) == Some(true));
        assert(!vis0(ctx, a, b2));
    }
    assert forall|x: int, y: int| 0 <= x < 33 && 0 <= y < 33 implies #[trigger] occ_level(ctx, x, y) == 0 by {
        assert(ctx_plane_at(ctx, x - 1, y - 1) == Some(true));
        assert(ctx_plane_at(ctx, x, y - 1) == Some(true));
        assert(ctx_plane_at(ctx, x - 1, y) == Some(true));
        assert(ctx_plane_at(ctx, x, y) == Some(true));
    }
    assert forall|a: int, b2: int| 0 <= a < 32 && 0 <= b2 < 32 && !(a == 0 && b2 == 0)
        implies #[trigger] can_merge(ctx, vis, 0, 0, a, b2) by {
        lemma_cell_idx_decompose(a, b2);
        assert(occ_match(ctx, 0, 0, a, b2));
    }
    let st0 = GreedyState { vis, quads: Seq::empty() };
    assert(!st0.vis[cell_idx(0, 0)]) by {
        lemma_cell_idx_decompose(0, 0);
    }
    lemma_grow_w_full(ctx, vis, 1);
    lemma_grow_h_full(ctx, vis, 1);
    let st1 = greedy_step(ctx, st0, base, 0, 0);
    assert(st1.quads =~= seq![rect_quad(ctx, base, 0, 0, 32, 32)]);
    assert forall|a: int, b2: int| 0 <= a < 32 && 0 <= b2 < 32 implies st1.vis[#[trigger] cell_idx(a, b2)] by {
        lemma_cell_idx_decompose(a, b2);
    }
    lemma_greedy_all_visited(ctx, st1, base, 0, 1);
    assert(greedy_from(ctx, st0, base, 0, 0) == greedy_from(ctx, st1, base, 0, 1));
}


/// A chunk resident in the world index, with its load reference count: how
/// many independent reasons (players, render boxes) need it resident.
pub struct LoadedChunk {
    pub chunk: Chunk,
    pub load_count: u64,
}

impl LoadedChunk {
    /// A freshly created resident chunk. The count starts at zero; the load
    /// that caused creation increments it before the chunk becomes
    /// observable in a well-formed world.
    pub fn new(chunk: Chunk) -> (r: LoadedChunk)
        ensures
            r.chunk == chunk,
            r.load_count == 0,
    {
        LoadedChunk { chunk, load_count: 0 }
    }
}

} // verus!
