//! Players: an id handed out by the world, a block-space position and a
//! fixed render-distance box in chunk units.

use vstd::prelude::*;
use crate::coords::{BlockPos, ChunkPos, chunk_coord};

verus! {

/// Identifier of a connected player. Ids come from the world's monotonic
/// counter and are never reused.
#[derive(Clone, Copy, PartialEq, Eq, Structural, Debug)]
pub struct PlayerId(pub u64);

impl PlayerId {
    pub fn new(raw: u64) -> (r: PlayerId)
        ensures
            r == PlayerId(raw),
    {
        PlayerId(raw)
    }
}

/// A connected player.
#[derive(Clone, Copy)]
pub struct Player {
    pub id: PlayerId,
    /// World-absolute block position, updated every tick.
    pub position: BlockPos,
    /// Half-extents of the render-distance box, in chunk units per axis.
    pub render_distance: ChunkPos,
}

impl Player {
    /// A freshly connected player at the origin with the default render
    /// distance.
    pub fn new(id: PlayerId) -> (r: Player)
        ensures
            r.id == id,
            r.position == (BlockPos { x: 0, y: 0, z: 0 }),
            r.render_distance == (ChunkPos { x: 10, y: 5, z: 10 }),
    {
        Player {
            id,
            position: BlockPos { x: 0, y: 0, z: 0 },
            render_distance: ChunkPos { x: 10, y: 5, z: 10 },
        }
    }

    pub fn id(&self) -> (r: PlayerId)
        ensures
            r == self.id,
    {
        self.id
    }

    pub fn render_distance(&self) -> (r: ChunkPos)
        ensures
            r == self.render_distance,
    {
        self.render_distance
    }

    /// Chunk containing the player's position (floor division per axis).
    pub fn chunk_position(&self) -> (r: ChunkPos)
        ensures
            r.x as int == chunk_coord(self.position.x as int),
            r.y as int == chunk_coord(self.position.y as int),
            r.z as int == chunk_coord(self.position.z as int),
    {
        self.position.as_chunk_pos()
    }
}

} // verus!
