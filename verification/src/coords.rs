//! Coordinate algebra: conversions between world-absolute block coordinates,
//! chunk-grid coordinates and chunk-local coordinates, with floor-division
//! semantics for negative coordinates.

use vstd::prelude::*;
use vstd::arithmetic::div_mod::{
    lemma_fundamental_div_mod, lemma_fundamental_div_mod_converse,
};
use crate::block::BlockFace;

verus! {

/// Side length of a chunk, in blocks.
pub const CHUNK_SIZE: usize = 32;

/// World-absolute block coordinate (not chunk-scoped).
#[derive(Clone, Copy, PartialEq, Eq, Structural, Debug)]
pub struct BlockPos {
    pub x: i64,
    pub y: i64,
    pub z: i64,
}

/// Chunk-grid coordinate: the floor of a block coordinate divided by `CHUNK_SIZE`.
#[derive(Clone, Copy, PartialEq, Eq, Structural, Debug)]
pub struct ChunkPos {
    pub x: i64,
    pub y: i64,
    pub z: i64,
}

/// Chunk coordinate of the chunk containing block coordinate `c`:
/// floor division, so every block, negative coordinates included, lands in
/// exactly one chunk. (`/` on `int` is Euclidean division, which for a
/// positive divisor is floor division.)
pub open spec fn chunk_coord(c: int) -> int {
    c / (CHUNK_SIZE as int)
}

/// Chunk-local coordinate of block coordinate `c`, always in `[0, CHUNK_SIZE)`.
pub open spec fn local_coord(c: int) -> int {
    c % (CHUNK_SIZE as int)
}

/// The chunk and local coordinates recombine to the block coordinate,
/// and the local coordinate is always in range.
pub proof fn lemma_coord_roundtrip(c: int)
    ensures
        chunk_coord(c) * (CHUNK_SIZE as int) + local_coord(c) == c,
        0 <= local_coord(c) < CHUNK_SIZE as int,
{
    lemma_fundamental_div_mod(c, CHUNK_SIZE as int);
}

/// Computes `chunk_coord` of one coordinate without overflow for any `i64`:
/// for a negative coordinate the quotient is rewritten over the nonnegative
/// value `-(c + 1)` so only nonnegative division is performed.
pub fn floor_div_chunk(c: i64) -> (r: i64)
    ensures
        r as int == chunk_coord(c as int),
{
    if c >= 0 {
        let q: u64 = (c as u64) / (CHUNK_SIZE as u64);
        proof {
            lemma_coord_roundtrip(c as int);
            lemma_fundamental_div_mod_converse(
                c as int,
                CHUNK_SIZE as int,
                q as int,
                c as int - q as int * (CHUNK_SIZE as int),
            );
        }
        q as i64
    } else {
        let n: i64 = -(c + 1);
        let q: u64 = (n as u64) / (CHUNK_SIZE as u64);
        proof {
            let s = CHUNK_SIZE as int;
            lemma_fundamental_div_mod(n as int, s);
            let rr = n as int % s;
            // c == -n - 1 == s * (-q - 1) + (s - 1 - rr), with the remainder in range
            lemma_fundamental_div_mod_converse(c as int, s, -(q as int) - 1, s - 1 - rr);
        }
        -1 - (q as i64)
    }
}

/// Computes `local_coord` of one coordinate without overflow for any `i64`.
pub fn chunk_local(c: i64) -> (r: i64)
    ensures
        r as int == local_coord(c as int),
{
    if c >= 0 {
        let m: u64 = (c as u64) % (CHUNK_SIZE as u64);
        proof {
            lemma_fundamental_div_mod(c as int, CHUNK_SIZE as int);
            lemma_fundamental_div_mod_converse(
                c as int,
                CHUNK_SIZE as int,
                (c as u64 / CHUNK_SIZE as u64) as int,
                m as int,
            );
        }
        m as i64
    } else {
        let n: i64 = -(c + 1);
        let m: u64 = (n as u64) % (CHUNK_SIZE as u64);
        proof {
            let s = CHUNK_SIZE as int;
            lemma_fundamental_div_mod(n as int, s);
            let q = n as int / s;
            lemma_fundamental_div_mod_converse(c as int, s, -q - 1, s - 1 - m as int);
        }
        (CHUNK_SIZE as i64) - 1 - (m as i64)
    }
}

impl BlockPos {
    pub fn new(x: i64, y: i64, z: i64) -> (r: BlockPos)
        ensures
            r == (BlockPos { x, y, z }),
    {
        BlockPos { x, y, z }
    }

    /// True iff every component lies in `[0, CHUNK_SIZE)`.
    pub open spec fn spec_is_chunk_local(self) -> bool {
        &&& 0 <= self.x < CHUNK_SIZE as int
        &&& 0 <= self.y < CHUNK_SIZE as int
        &&& 0 <= self.z < CHUNK_SIZE as int
    }

    pub fn is_chunk_local(&self) -> (r: bool)
        ensures
            r == self.spec_is_chunk_local(),
    {
        self.x >= 0 && self.x < CHUNK_SIZE as i64 && self.y >= 0 && self.y < CHUNK_SIZE as i64
            && self.z >= 0 && self.z < CHUNK_SIZE as i64
    }

    /// Chunk-local counterpart of this block position, componentwise `local_coord`.
    pub fn as_chunk_local(&self) -> (r: BlockPos)
        ensures
            r.x as int == local_coord(self.x as int),
            r.y as int == local_coord(self.y as int),
            r.z as int == local_coord(self.z as int),
            r.spec_is_chunk_local(),
    {
        let r = BlockPos {
            x: chunk_local(self.x),
            y: chunk_local(self.y),
            z: chunk_local(self.z),
        };
        proof {
            lemma_coord_roundtrip(self.x as int);
            lemma_coord_roundtrip(self.y as int);
            lemma_coord_roundtrip(self.z as int);
        }
        r
    }

    /// Position of the chunk containing this block, componentwise `chunk_coord`.
    pub fn as_chunk_pos(&self) -> (r: ChunkPos)
        ensures
            r.x as int == chunk_coord(self.x as int),
            r.y as int == chunk_coord(self.y as int),
            r.z as int == chunk_coord(self.z as int),
    {
        ChunkPos {
            x: floor_div_chunk(self.x),
            y: floor_div_chunk(self.y),
            z: floor_div_chunk(self.z),
        }
    }

    /// Combines `as_chunk_pos` and `as_chunk_local` in one call.
    pub fn as_chunk_block_pos(&self) -> (r: (ChunkPos, BlockPos))
        ensures
            r.0.x as int == chunk_coord(self.x as int),
            r.0.y as int == chunk_coord(self.y as int),
            r.0.z as int == chunk_coord(self.z as int),
            r.1.x as int == local_coord(self.x as int),
            r.1.y as int == local_coord(self.y as int),
            r.1.z as int == local_coord(self.z as int),
            r.1.spec_is_chunk_local(),
    {
        (self.as_chunk_pos(), self.as_chunk_local())
    }

    /// Componentwise sum.
    pub fn plus(self, o: BlockPos) -> (r: BlockPos)
        requires
            i64::MIN <= self.x + o.x <= i64::MAX,
            i64::MIN <= self.y + o.y <= i64::MAX,
            i64::MIN <= self.z + o.z <= i64::MAX,
        ensures
            r.x == self.x + o.x,
            r.y == self.y + o.y,
            r.z == self.z + o.z,
    {
        BlockPos { x: self.x + o.x, y: self.y + o.y, z: self.z + o.z }
    }

    /// The component of this vector along a face's normal axis.
    pub fn get_face_component(&self, face: BlockFace) -> (r: i64)
        ensures
            r == (match face {
                BlockFace::XPos | BlockFace::XNeg => self.x,
                BlockFace::YPos | BlockFace::YNeg => self.y,
                BlockFace::ZPos | BlockFace::ZNeg => self.z,
            }),
    {
        match face {
            BlockFace::XPos | BlockFace::XNeg => self.x,
            BlockFace::YPos | BlockFace::YNeg => self.y,
            BlockFace::ZPos | BlockFace::ZNeg => self.z,
        }
    }

    /// Componentwise difference.
    pub fn minus(self, o: BlockPos) -> (r: BlockPos)
        requires
            i64::MIN <= self.x - o.x <= i64::MAX,
            i64::MIN <= self.y - o.y <= i64::MAX,
            i64::MIN <= self.z - o.z <= i64::MAX,
        ensures
            r.x == self.x - o.x,
            r.y == self.y - o.y,
            r.z == self.z - o.z,
    {
        BlockPos { x: self.x - o.x, y: self.y - o.y, z: self.z - o.z }
    }
}

/// Round-trip law over whole positions: splitting a block position into its
/// chunk position and chunk-local position loses nothing, and the local part
/// is always chunk-local.
pub proof fn lemma_block_pos_roundtrip(b: BlockPos)
    ensures
        chunk_coord(b.x as int) * (CHUNK_SIZE as int) + local_coord(b.x as int) == b.x as int,
        chunk_coord(b.y as int) * (CHUNK_SIZE as int) + local_coord(b.y as int) == b.y as int,
        chunk_coord(b.z as int) * (CHUNK_SIZE as int) + local_coord(b.z as int) == b.z as int,
        0 <= local_coord(b.x as int) < CHUNK_SIZE as int,
        0 <= local_coord(b.y as int) < CHUNK_SIZE as int,
        0 <= local_coord(b.z as int) < CHUNK_SIZE as int,
{
    lemma_coord_roundtrip(b.x as int);
    lemma_coord_roundtrip(b.y as int);
    lemma_coord_roundtrip(b.z as int);
}

impl ChunkPos {
    pub fn new(x: i64, y: i64, z: i64) -> (r: ChunkPos)
        ensures
            r == (ChunkPos { x, y, z }),
    {
        ChunkPos { x, y, z }
    }

    /// Block position of the chunk's lowest corner (componentwise `* CHUNK_SIZE`).
    pub fn into_block_pos(self) -> (r: BlockPos)
        requires
            i64::MIN <= self.x * CHUNK_SIZE <= i64::MAX,
            i64::MIN <= self.y * CHUNK_SIZE <= i64::MAX,
            i64::MIN <= self.z * CHUNK_SIZE <= i64::MAX,
        ensures
            r.x == self.x * CHUNK_SIZE,
            r.y == self.y * CHUNK_SIZE,
            r.z == self.z * CHUNK_SIZE,
    {
        BlockPos {
            x: self.x * (CHUNK_SIZE as i64),
            y: self.y * (CHUNK_SIZE as i64),
            z: self.z * (CHUNK_SIZE as i64),
        }
    }

    /// Componentwise sum.
    pub fn plus(self, o: ChunkPos) -> (r: ChunkPos)
        requires
            i64::MIN <= self.x + o.x <= i64::MAX,
            i64::MIN <= self.y + o.y <= i64::MAX,
            i64::MIN <= self.z + o.z <= i64::MAX,
        ensures
            r.x == self.x + o.x,
            r.y == self.y + o.y,
            r.z == self.z + o.z,
    {
        ChunkPos { x: self.x + o.x, y: self.y + o.y, z: self.z + o.z }
    }

    /// Componentwise difference.
    pub fn minus(self, o: ChunkPos) -> (r: ChunkPos)
        requires
            i64::MIN <= self.x - o.x <= i64::MAX,
            i64::MIN <= self.y - o.y <= i64::MAX,
            i64::MIN <= self.z - o.z <= i64::MAX,
        ensures
            r.x == self.x - o.x,
            r.y == self.y - o.y,
            r.z == self.z - o.z,
    {
        ChunkPos { x: self.x - o.x, y: self.y - o.y, z: self.z - o.z }
    }
}

/// Returns the vector with only its x component kept, the rest zeroed.
pub trait Xonly: Sized {
    spec fn xonly_spec(&self) -> Self;

    fn xonly(&self) -> (r: Self)
        ensures
            r == self.xonly_spec(),
    ;
}

/// Returns the vector with only its y component kept, the rest zeroed.
pub trait Yonly: Sized {
    spec fn yonly_spec(&self) -> Self;

    fn yonly(&self) -> (r: Self)
        ensures
            r == self.yonly_spec(),
    ;
}

/// Returns the vector with only its z component kept, the rest zeroed.
pub trait Zonly: Sized {
    spec fn zonly_spec(&self) -> Self;

    fn zonly(&self) -> (r: Self)
        ensures
            r == self.zonly_spec(),
    ;
}

/// Returns the vector with its x and y components kept, the rest zeroed.
pub trait XYonly: Sized {
    spec fn xyonly_spec(&self) -> Self;

    fn xyonly(&self) -> (r: Self)
        ensures
            r == self.xyonly_spec(),
    ;
}

/// Returns the vector with its y and z components kept, the rest zeroed.
pub trait YZonly: Sized {
    spec fn yzonly_spec(&self) -> Self;

    fn yzonly(&self) -> (r: Self)
        ensures
            r == self.yzonly_spec(),
    ;
}

/// Returns the vector with its x and z components kept, the rest zeroed.
pub trait XZonly: Sized {
    spec fn xzonly_spec(&self) -> Self;

    fn xzonly(&self) -> (r: Self)
        ensures
            r == self.xzonly_spec(),
    ;
}

impl Xonly for ChunkPos {
    open spec fn xonly_spec(&self) -> Self {
        ChunkPos { x: self.x, y: 0, z: 0 }
    }

    fn xonly(&self) -> (r: Self) {
        ChunkPos { x: self.x, y: 0, z: 0 }
    }
}

impl Yonly for ChunkPos {
    open spec fn yonly_spec(&self) -> Self {
        ChunkPos { x: 0, y: self.y, z: 0 }
    }

    fn yonly(&self) -> (r: Self) {
        ChunkPos { x: 0, y: self.y, z: 0 }
    }
}

impl Zonly for ChunkPos {
    open spec fn zonly_spec(&self) -> Self {
        ChunkPos { x: 0, y: 0, z: self.z }
    }

    fn zonly(&self) -> (r: Self) {
        ChunkPos { x: 0, y: 0, z: self.z }
    }
}

impl XYonly for ChunkPos {
    open spec fn xyonly_spec(&self) -> Self {
        ChunkPos { x: self.x, y: self.y, z: 0 }
    }

    fn xyonly(&self) -> (r: Self) {
        ChunkPos { x: self.x, y: self.y, z: 0 }
    }
}

impl YZonly for ChunkPos {
    open spec fn yzonly_spec(&self) -> Self {
        ChunkPos { x: 0, y: self.y, z: self.z }
    }

    fn yzonly(&self) -> (r: Self) {
        ChunkPos { x: 0, y: self.y, z: self.z }
    }
}

impl XZonly for ChunkPos {
    open spec fn xzonly_spec(&self) -> Self {
        ChunkPos { x: self.x, y: 0, z: self.z }
    }

    fn xzonly(&self) -> (r: Self) {
        ChunkPos { x: self.x, y: 0, z: self.z }
    }
}

} // verus!
