//! The world index: a table of resident chunks keyed by chunk coordinate,
//! with load reference counts, the player table, pending background jobs and
//! the queue of tasks handed to workers. The world owns all chunk-count
//! bookkeeping; cross-chunk reads go through the world rather than through
//! back-references between chunks.

use vstd::prelude::*;
use crate::coords::{BlockPos, ChunkPos, CHUNK_SIZE, chunk_coord, local_coord};
use crate::block::Block;
use crate::chunk::{
    Chunk, LoadedChunk, NeighborPlane, VisitedBlockMap, MeshCtx, chunk_pos_in_range,
    spec_layer_pos, spec_layer_mesh, layer_slot, plane_cell_idx, block_cell_idx,
};
use crate::block::{BlockFace, spec_face_of_index};
use crate::player::{Player, PlayerId};
use crate::scheduler::{
    Task, ChunkLoadJob, ChunkMeshFaceData, box_contains, box_positions, box_positions_vec,
    on_generate, on_unload, finish_tasks, PollState, poll_step, poll_fold,
    lemma_on_generate_skip, lemma_on_unload_skip,
};
use vstd::arithmetic::div_mod::{
    lemma_fundamental_div_mod, lemma_fundamental_div_mod_converse, lemma_mod_bound,
};

verus! {

/// Chunk coordinate of the chunk owning a block position.
pub open spec fn block_chunk_pos(p: BlockPos) -> ChunkPos {
    ChunkPos {
        x: chunk_coord(p.x as int) as i64,
        y: chunk_coord(p.y as int) as i64,
        z: chunk_coord(p.z as int) as i64,
    }
}

/// Chunk-local position of a block position.
pub open spec fn block_local_pos(p: BlockPos) -> BlockPos {
    BlockPos {
        x: local_coord(p.x as int) as i64,
        y: local_coord(p.y as int) as i64,
        z: local_coord(p.z as int) as i64,
    }
}

/// `chunk_coord` of any `i64` fits in an `i64`.
pub proof fn lemma_chunk_coord_fits(c: int)
    requires
        i64::MIN <= c <= i64::MAX,
    ensures
        i64::MIN <= chunk_coord(c) <= i64::MAX,
        0 <= local_coord(c) < 32,
{
    lemma_fundamental_div_mod(c, 32);
    lemma_mod_bound(c, 32);
}

/// The world: every resident chunk, every connected player, the records of
/// in-flight load and unload jobs, and the tasks awaiting workers.
pub struct World {
    /// Resident chunks; positions are pairwise distinct and every resident
    /// chunk has `load_count >= 1`.
    pub chunks: Vec<LoadedChunk>,
    /// Connected players, with pairwise distinct ids below `next_player_id`.
    pub players: Vec<Player>,
    /// Monotonic source of player ids; ids are never reused.
    pub next_player_id: u64,
    /// Load jobs still owed `GenerateChunk` completions.
    pub chunk_load_jobs: Vec<ChunkLoadJob>,
    /// Unload jobs whose `UnloadChunks` task has not reported completion.
    pub chunk_unload_jobs: Vec<ChunkLoadJob>,
    /// Tasks awaiting workers; the owner drains this into its scheduler.
    pub task_queue: Vec<Task>,
    /// Positions with an enqueued `GenerateChunk` not yet completed (one
    /// entry per enqueued task).
    pub pending_generates: Vec<ChunkPos>,
}

impl World {
    pub open spec fn chunk_matches(self, i: int, cp: ChunkPos) -> bool {
        0 <= i < self.chunks@.len() && self.chunks@[i].chunk.chunk_position == cp
    }

    pub open spec fn has_chunk(self, cp: ChunkPos) -> bool {
        exists|i: int| self.chunk_matches(i, cp)
    }

    pub open spec fn chunk_index_of(self, cp: ChunkPos) -> int {
        choose|i: int| self.chunk_matches(i, cp)
    }

    /// Well-formedness: every resident chunk is well formed with a positive
    /// load count, chunk positions are pairwise distinct, and player ids are
    /// pairwise distinct and below the id counter.
    pub open spec fn wf(self) -> bool {
        &&& forall|i: int| 0 <= i < self.chunks@.len()
            ==> (#[trigger] self.chunks@[i]).chunk.wf() && self.chunks@[i].load_count >= 1
        &&& forall|i: int, j: int|
            0 <= i < j < self.chunks@.len()
                ==> (#[trigger] self.chunks@[i]).chunk.chunk_position
                    != (#[trigger] self.chunks@[j]).chunk.chunk_position
        &&& forall|i: int| 0 <= i < self.players@.len()
            ==> (#[trigger] self.players@[i]).id.0 < self.next_player_id
        &&& forall|i: int, j: int|
            0 <= i < j < self.players@.len()
                ==> (#[trigger] self.players@[i]).id != (#[trigger] self.players@[j]).id
        &&& forall|i: int| 0 <= i < self.players@.len()
            ==> player_state_in_range(#[trigger] self.players@[i])
        &&& forall|i: int| 0 <= i < self.chunk_load_jobs@.len()
            ==> chunk_pos_in_range((#[trigger] self.chunk_load_jobs@[i]).min_chunk)
                && chunk_pos_in_range(self.chunk_load_jobs@[i].max_chunk)
        &&& forall|i: int| 0 <= i < self.chunk_unload_jobs@.len()
            ==> chunk_pos_in_range((#[trigger] self.chunk_unload_jobs@[i]).min_chunk)
                && chunk_pos_in_range(self.chunk_unload_jobs@[i].max_chunk)
    }

    /// An empty world: no chunks, no players, nothing pending.
    pub fn new() -> (r: World)
        ensures
            r.wf(),
            r.chunks@.len() == 0,
            r.players@.len() == 0,
            r.next_player_id == 0,
            r.chunk_load_jobs@.len() == 0,
            r.chunk_unload_jobs@.len() == 0,
            r.task_queue@.len() == 0,
            r.pending_generates@.len() == 0,
    {
        World {
            chunks: Vec::new(),
            players: Vec::new(),
            next_player_id: 0,
            chunk_load_jobs: Vec::new(),
            chunk_unload_jobs: Vec::new(),
            task_queue: Vec::new(),
            pending_generates: Vec::new(),
        }
    }

    /// Index of the resident chunk at a chunk coordinate, if any.
    pub fn find_chunk_index(&self, cp: ChunkPos) -> (r: Option<usize>)
        ensures
            match r {
                Some(i) => self.chunk_matches(i as int, cp),
                None => !self.has_chunk(cp),
            },
    {
        let mut i: usize = 0;
        while i < self.chunks.len()
            invariant
                i <= self.chunks@.len(),
                forall|j: int| 0 <= j < i ==> !self.chunk_matches(j, cp),
            decreases self.chunks@.len() - i,
        {
            if self.chunks[i].chunk.chunk_position == cp {
                return Some(i);
            }
            i += 1;
        }
        None
    }

    /// What the world holds at a block position: `None` while the owning
    /// chunk is not resident (an expected condition at the edge of the
    /// loaded region, not an error).
    pub open spec fn spec_block_lookup(self, pos: BlockPos) -> Option<Block> {
        let cp = block_chunk_pos(pos);
        if self.has_chunk(cp) {
            Some(self.chunks@[self.chunk_index_of(cp)].chunk.spec_block_at(block_local_pos(pos)))
        } else {
            None
        }
    }

    /// Reads the block at a world-absolute position.
    pub fn get_block(&self, pos: BlockPos) -> (r: Option<Block>)
        requires
            self.wf(),
        ensures
            r == self.spec_block_lookup(pos),
            r is Some <==> self.has_chunk(block_chunk_pos(pos)),
    {
        proof {
            lemma_chunk_coord_fits(pos.x as int);
            lemma_chunk_coord_fits(pos.y as int);
            lemma_chunk_coord_fits(pos.z as int);
        }
        let (cp, local) = pos.as_chunk_block_pos();
        match self.find_chunk_index(cp) {
            Some(i) => {
                proof {
                    assert(self.chunk_matches(i as int, cp));
                    assert(self.has_chunk(cp));
                    let ci = self.chunk_index_of(cp);
                    assert(self.chunk_matches(ci, cp));
                    assert(ci == i as int);
                }
                Some(self.chunks[i].chunk.get_block(local))
            },
            None => None,
        }
    }

    /// Replaces the block at a world-absolute position. Returns `false`, and
    /// changes nothing, while the owning chunk is not resident. Does not
    /// remesh anything: callers follow up with `mesh_update_adjacent`.
    pub fn set_block(&mut self, block_pos: BlockPos, block: Block) -> (r: bool)
        requires
            old(self).wf(),
        ensures
            final(self).wf(),
            r == old(self).has_chunk(block_chunk_pos(block_pos)),
            r ==> final(self).spec_block_lookup(block_pos) == Some(block),
            r ==> ({
                let idx = old(self).chunk_index_of(block_chunk_pos(block_pos));
                let local = block_local_pos(block_pos);
                &&& forall|j: int| 0 <= j < old(self).chunks@.len() && j != idx
                    ==> final(self).chunks@[j] == old(self).chunks@[j]
                &&& final(self).chunks@[idx].chunk.chunk_mesh
                    == old(self).chunks@[idx].chunk.chunk_mesh
                &&& final(self).chunks@[idx].chunk.chunk_position
                    == old(self).chunks@[idx].chunk.chunk_position
                &&& final(self).chunks@[idx].chunk.block_position
                    == old(self).chunks@[idx].chunk.block_position
                &&& final(self).chunks@[idx].load_count == old(self).chunks@[idx].load_count
                &&& final(self).chunks@[idx].chunk.blocks@
                    == old(self).chunks@[idx].chunk.blocks@.update(
                    block_cell_idx(local.x as int, local.y as int, local.z as int),
                    block,
                )
            }),
            !r ==> *final(self) == *old(self),
            final(self).players == old(self).players,
            final(self).next_player_id == old(self).next_player_id,
            final(self).chunk_load_jobs == old(self).chunk_load_jobs,
            final(self).chunk_unload_jobs == old(self).chunk_unload_jobs,
            final(self).task_queue == old(self).task_queue,
            final(self).pending_generates == old(self).pending_generates,
            final(self).chunks@.len() == old(self).chunks@.len(),
            forall|i: int| 0 <= i < old(self).chunks@.len()
                ==> (#[trigger] final(self).chunks@[i]).chunk.chunk_position
                        == old(self).chunks@[i].chunk.chunk_position
                    && final(self).chunks@[i].load_count == old(self).chunks@[i].load_count,
    {
        proof {
            lemma_chunk_coord_fits(block_pos.x as int);
            lemma_chunk_coord_fits(block_pos.y as int);
            lemma_chunk_coord_fits(block_pos.z as int);
        }
        let (cp, local) = block_pos.as_chunk_block_pos();
        match self.find_chunk_index(cp) {
            Some(i) => {
                let ghost pre = *self;
                let mut lc = self.chunks.remove(i);
                lc.chunk.set_block(local, block);
                self.chunks.insert(i, lc);
                proof {
                    assert(self.chunks@ =~= pre.chunks@.update(i as int, self.chunks@[i as int]));
                    assert(pre.has_chunk(cp));
                    assert(self.chunk_matches(i as int, cp));
                    assert(self.has_chunk(cp));
                    let ci = self.chunk_index_of(cp);
                    assert(self.chunk_matches(ci, cp));
                    assert forall|j: int| self.chunk_matches(j, cp) implies j == i as int by {
                        if j != i as int {
                            assert(pre.chunks@[j].chunk.chunk_position == cp);
                        }
                    }
                    assert(ci == i as int);
                }
                true
            },
            None => false,
        }
    }

    /// Every cached quad of every resident chunk, in table order.
    pub open spec fn spec_world_mesh(self) -> Seq<crate::mesh::BlockFaceMesh> {
        self.chunks@.map_values(|lc: LoadedChunk| lc.chunk.spec_chunk_mesh_flat()).flatten()
    }

    /// Concatenates every resident chunk's cached mesh; called once per
    /// frame by the render sink.
    pub fn world_mesh(&self) -> (r: Vec<crate::mesh::BlockFaceMesh>)
        requires
            self.wf(),
        ensures
            r@ == self.spec_world_mesh(),
    {
        let ghost meshes = self.chunks@.map_values(|lc: LoadedChunk| lc.chunk.spec_chunk_mesh_flat());
        let mut r: Vec<crate::mesh::BlockFaceMesh> = Vec::new();
        let mut i: usize = 0;
        while i < self.chunks.len()
            invariant
                self.wf(),
                i <= self.chunks@.len(),
                meshes == self.chunks@.map_values(|lc: LoadedChunk| lc.chunk.spec_chunk_mesh_flat()),
                r@ == meshes.take(i as int).flatten(),
            decreases self.chunks@.len() - i,
        {
            let mut part = self.chunks[i].chunk.get_chunk_mesh();
            let ghost part_view = part@;
            r.append(&mut part);
            proof {
                vstd::seq_lib::lemma_flatten_concat(meshes.take(i as int), seq![meshes[i as int]]);
                seq![meshes[i as int]].lemma_flatten_one_element();
                assert(meshes.take(i as int) + seq![meshes[i as int]] =~= meshes.take(i + 1));
                assert(r@ =~= meshes.take(i + 1).flatten());
            }
            i += 1;
        }
        proof {
            assert(meshes.take(meshes.len() as int) =~= meshes);
        }
        r
    }
}

/// Player state the world keeps within machine-safe bounds: positions well
/// inside `i64` so render boxes never overflow, render distances small and
/// nonnegative.
pub open spec fn player_state_in_range(p: Player) -> bool {
    &&& -0x0080_0000_0000_0000 <= p.position.x <= 0x0080_0000_0000_0000
    &&& -0x0080_0000_0000_0000 <= p.position.y <= 0x0080_0000_0000_0000
    &&& -0x0080_0000_0000_0000 <= p.position.z <= 0x0080_0000_0000_0000
    &&& 0 <= p.render_distance.x <= 1024
    &&& 0 <= p.render_distance.y <= 1024
    &&& 0 <= p.render_distance.z <= 1024
}

/// Whether some resident chunk of the table sits at this position.
pub open spec fn seq_has_chunk(s: Seq<LoadedChunk>, p: ChunkPos) -> bool {
    exists|i: int| 0 <= i < s.len() && (#[trigger] s[i]).chunk.chunk_position == p
}

/// The load count recorded for a position: zero exactly when absent.
pub open spec fn seq_count_of(s: Seq<LoadedChunk>, p: ChunkPos) -> int {
    if seq_has_chunk(s, p) {
        let i = choose|i: int| 0 <= i < s.len() && (#[trigger] s[i]).chunk.chunk_position == p;
        s[i].load_count as int
    } else {
        0
    }
}

/// The chunk value recorded for a position, meaningful while present.
pub open spec fn seq_chunk_at(s: Seq<LoadedChunk>, p: ChunkPos) -> Chunk {
    let i = choose|i: int| 0 <= i < s.len() && (#[trigger] s[i]).chunk.chunk_position == p;
    s[i].chunk
}

/// Pairwise-distinct chunk positions.
pub open spec fn seq_positions_distinct(s: Seq<LoadedChunk>) -> bool {
    forall|a: int, b: int| 0 <= a < b < s.len()
        ==> (#[trigger] s[a]).chunk.chunk_position != (#[trigger] s[b]).chunk.chunk_position
}

/// The chunk-table effect of one finished generation for position `p`,
/// exactly as `complete_generate` performs it: a resident chunk's count
/// rises by one with its content untouched; an absent position gains a
/// fresh entry with count one.
pub open spec fn generation_effect(pre: Seq<LoadedChunk>, post: Seq<LoadedChunk>, p: ChunkPos) -> bool {
    if seq_has_chunk(pre, p) {
        exists|i: int|
            0 <= i < pre.len() && (#[trigger] pre[i]).chunk.chunk_position == p && post
                == pre.update(
                i,
                LoadedChunk { chunk: pre[i].chunk, load_count: (pre[i].load_count + 1) as u64 },
            )
    } else {
        &&& post.len() == pre.len() + 1
        &&& post.take(pre.len() as int) == pre
        &&& post.last().chunk.chunk_position == p
        &&& post.last().load_count == 1
    }
}

/// One finished generation per position, in the given order.
pub open spec fn generation_run(pre: Seq<LoadedChunk>, post: Seq<LoadedChunk>, ps: Seq<ChunkPos>) -> bool
    decreases ps.len(),
{
    if ps.len() == 0 {
        post == pre
    } else {
        exists|mid: Seq<LoadedChunk>|
            #[trigger] generation_effect(pre, mid, ps.first()) && generation_run(
                mid,
                post,
                ps.drop_first(),
            )
    }
}

/// What one generation does position by position: the generated position's
/// count rises by exactly one (from zero if it was absent) and keeps its
/// content if it was resident; every other position is untouched.
proof fn lemma_generation_effect_counts(pre: Seq<LoadedChunk>, post: Seq<LoadedChunk>, p: ChunkPos, q: ChunkPos)
    requires
        generation_effect(pre, post, p),
        seq_positions_distinct(pre),
        seq_count_of(pre, p) < u64::MAX,
    ensures
        seq_positions_distinct(post),
        seq_count_of(post, p) == seq_count_of(pre, p) + 1,
        seq_has_chunk(pre, p) ==> seq_chunk_at(post, p) == seq_chunk_at(pre, p),
        q != p ==> seq_has_chunk(post, q) == seq_has_chunk(pre, q) && seq_count_of(post, q)
            == seq_count_of(pre, q) && (seq_has_chunk(pre, q) ==> seq_chunk_at(post, q)
            == seq_chunk_at(pre, q)),
{
    if seq_has_chunk(pre, p) {
        let i = choose|i: int|
            0 <= i < pre.len() && (#[trigger] pre[i]).chunk.chunk_position == p && post
                == pre.update(
                i,
                LoadedChunk { chunk: pre[i].chunk, load_count: (pre[i].load_count + 1) as u64 },
            );
        assert forall|a: int, b: int| 0 <= a < b < post.len() implies
            (#[trigger] post[a]).chunk.chunk_position
                != (#[trigger] post[b]).chunk.chunk_position by {
            assert(post[a].chunk.chunk_position == pre[a].chunk.chunk_position);
            assert(post[b].chunk.chunk_position == pre[b].chunk.chunk_position);
        }
        let ip = choose|k: int| 0 <= k < pre.len() && (#[trigger] pre[k]).chunk.chunk_position == p;
        assert(pre[ip].chunk.chunk_position == p);
        assert(ip == i);
        assert(post[i].chunk.chunk_position == p);
        assert(seq_has_chunk(post, p));
        let jp = choose|k: int| 0 <= k < post.len() && (#[trigger] post[k]).chunk.chunk_position
            == p;
        assert(post[jp].chunk.chunk_position == p);
        assert(pre[jp].chunk.chunk_position == p);
        assert(jp == i);
        assert(seq_count_of(pre, p) == pre[i].load_count as int);
        if q != p {
            if seq_has_chunk(pre, q) {
                let iq = choose|k: int| 0 <= k < pre.len()
                    && (#[trigger] pre[k]).chunk.chunk_position == q;
                assert(iq != i);
                assert(post[iq].chunk.chunk_position == q);
                assert(seq_has_chunk(post, q));
                let jq = choose|k: int| 0 <= k < post.len()
                    && (#[trigger] post[k]).chunk.chunk_position == q;
                assert(pre[jq].chunk.chunk_position == q);
                assert(jq == iq);
            } else {
                assert forall|k: int| 0 <= k < post.len() implies
                    (#[trigger] post[k]).chunk.chunk_position != q by {
                    assert(post[k].chunk.chunk_position == pre[k].chunk.chunk_position);
                }
            }
        }
    } else {
        assert forall|a: int, b: int| 0 <= a < b < post.len() implies
            (#[trigger] post[a]).chunk.chunk_position
                != (#[trigger] post[b]).chunk.chunk_position by {
            if b < pre.len() as int {
                assert(post[a] == pre.take(pre.len() as int)[a]);
                assert(post[b] == pre.take(pre.len() as int)[b]);
            } else {
                assert(b == pre.len() as int);
                assert(post[a] == pre.take(pre.len() as int)[a]);
                assert(post[a].chunk.chunk_position == pre[a].chunk.chunk_position);
                assert(post[b].chunk.chunk_position == p);
                assert(!(pre[a].chunk.chunk_position == p));
            }
        }
        assert(post[post.len() - 1].chunk.chunk_position == p);
        assert(seq_has_chunk(post, p));
        let jp = choose|k: int| 0 <= k < post.len() && (#[trigger] post[k]).chunk.chunk_position
            == p;
        assert forall|k: int| 0 <= k < post.len() && (#[trigger] post[k]).chunk.chunk_position == p
            implies k == post.len() - 1 by {
            if k < pre.len() as int {
                assert(post[k] == pre.take(pre.len() as int)[k]);
                assert(pre[k].chunk.chunk_position == p);
                assert(seq_has_chunk(pre, p));
            }
        }
        assert(jp == post.len() - 1);
        assert(seq_count_of(post, p) == 1);
        if q != p {
            if seq_has_chunk(pre, q) {
                let iq = choose|k: int| 0 <= k < pre.len()
                    && (#[trigger] pre[k]).chunk.chunk_position == q;
                assert(post[iq] == pre.take(pre.len() as int)[iq]);
                assert(post[iq].chunk.chunk_position == q);
                assert(seq_has_chunk(post, q));
                let jq = choose|k: int| 0 <= k < post.len()
                    && (#[trigger] post[k]).chunk.chunk_position == q;
                if jq == post.len() - 1 {
                    assert(post[jq].chunk.chunk_position == p);
                    assert(false);
                }
                assert(post[jq] == pre.take(pre.len() as int)[jq]);
                assert(pre[jq].chunk.chunk_position == q);
                assert(jq == iq);
            } else {
                assert forall|k: int| 0 <= k < post.len() implies
                    (#[trigger] post[k]).chunk.chunk_position != q by {
                    if k < pre.len() as int {
                        assert(post[k] == pre.take(pre.len() as int)[k]);
                        assert(post[k].chunk.chunk_position == pre[k].chunk.chunk_position);
                    }
                }
            }
        }
    }
}

/// Loading a box of distinct positions, one finished generation per
/// position in any order: each generated position's load count rises by
/// exactly one — count one where it was absent — its content untouched if
/// it was resident, and every position outside the run is untouched. This
/// is the load side of the reference-counting discipline, for every
/// sequence of generations at once.
pub proof fn lemma_generation_run_counts(
    pre: Seq<LoadedChunk>,
    post: Seq<LoadedChunk>,
    ps: Seq<ChunkPos>,
    q: ChunkPos,
)
    requires
        generation_run(pre, post, ps),
        seq_positions_distinct(pre),
        forall|a: int, b: int| 0 <= a < b < ps.len() ==> ps[a] != ps[b],
        forall|i: int| 0 <= i < pre.len() && ps.contains(
            (#[trigger] pre[i]).chunk.chunk_position,
        ) ==> pre[i].load_count < u64::MAX,
    ensures
        seq_positions_distinct(post),
        ps.contains(q) ==> seq_count_of(post, q) == seq_count_of(pre, q) + 1,
        ps.contains(q) && seq_has_chunk(pre, q) ==> seq_chunk_at(post, q) == seq_chunk_at(pre, q),
        !ps.contains(q) ==> seq_has_chunk(post, q) == seq_has_chunk(pre, q) && seq_count_of(
            post,
            q,
        ) == seq_count_of(pre, q) && (seq_has_chunk(pre, q) ==> seq_chunk_at(post, q)
            == seq_chunk_at(pre, q)),
    decreases ps.len(),
{
    if ps.len() == 0 {
        assert(!ps.contains(q));
    } else {
        let p0 = ps.first();
        assert(ps.contains(p0)) by {
            assert(ps[0] == p0);
        }
        let mid = choose|mid: Seq<LoadedChunk>|
            #[trigger] generation_effect(pre, mid, p0) && generation_run(
                mid,
                post,
                ps.drop_first(),
            );
        assert(seq_count_of(pre, p0) < u64::MAX) by {
            if seq_has_chunk(pre, p0) {
                let i0 = choose|k: int| 0 <= k < pre.len()
                    && (#[trigger] pre[k]).chunk.chunk_position == p0;
                assert(pre[i0].load_count < u64::MAX);
            }
        }
        lemma_generation_effect_counts(pre, mid, p0, q);
        let rest = ps.drop_first();
        assert forall|a: int, b: int| 0 <= a < b < rest.len() implies rest[a] != rest[b] by {
            assert(rest[a] == ps[a + 1]);
            assert(rest[b] == ps[b + 1]);
        }
        // the tail keeps its headroom: it never generates the head's
        // position again, and every other count is unchanged
        assert forall|i: int|
            0 <= i < mid.len() && rest.contains((#[trigger] mid[i]).chunk.chunk_position) implies
            mid[i].load_count < u64::MAX by {
            let pos = mid[i].chunk.chunk_position;
            assert(pos != p0) by {
                if pos == p0 {
                    let w = choose|w: int| 0 <= w < rest.len() && rest[w] == pos;
                    assert(ps[w + 1] == pos);
                    assert(ps[0] != ps[w + 1]);
                }
            }
            lemma_generation_effect_counts(pre, mid, p0, pos);
            assert(seq_has_chunk(mid, pos));
            assert(seq_has_chunk(pre, pos));
            let k = choose|k: int| 0 <= k < mid.len()
                && (#[trigger] mid[k]).chunk.chunk_position == pos;
            assert(k == i);
            assert(seq_count_of(mid, pos) == mid[i].load_count as int);
            let kp = choose|k2: int| 0 <= k2 < pre.len()
                && (#[trigger] pre[k2]).chunk.chunk_position == pos;
            assert(seq_count_of(pre, pos) == pre[kp].load_count as int);
            assert(ps.contains(pos)) by {
                let w = choose|w: int| 0 <= w < rest.len() && rest[w] == pos;
                assert(ps[w + 1] == pos);
            }
            assert(pre[kp].load_count < u64::MAX);
        }
        lemma_generation_run_counts(mid, post, rest, q);
        if ps.contains(q) {
            if q == p0 {
                assert(!rest.contains(q)) by {
                    if rest.contains(q) {
                        let w = choose|w: int| 0 <= w < rest.len() && rest[w] == q;
                        assert(ps[w + 1] == q);
                        assert(ps[0] != ps[w + 1]);
                    }
                }
            } else {
                assert(rest.contains(q)) by {
                    let w = choose|w: int| 0 <= w < ps.len() && ps[w] == q;
                    assert(w != 0);
                    assert(rest[w - 1] == q);
                }
            }
        } else {
            assert(!rest.contains(q)) by {
                if rest.contains(q) {
                    let w = choose|w: int| 0 <= w < rest.len() && rest[w] == q;
                    assert(ps[w + 1] == q);
                    assert(ps.contains(q));
                }
            }
        }
    }
}

/// Load-count invariant: in a well-formed world every resident chunk has a
/// load count of at least one — a chunk whose count reaches zero is removed
/// from the index at that very transition and never observable at zero.
pub proof fn lemma_load_count_invariant(w: World)
    requires
        w.wf(),
    ensures
        forall|i: int| 0 <= i < w.chunks@.len() ==> (#[trigger] w.chunks@[i]).load_count >= 1,
{
}

impl World {
    /// Appends one task per box position to the task queue, and for
    /// generation also records each position as pending.
    fn enqueue_box_tasks(&mut self, min_chunk: ChunkPos, max_chunk: ChunkPos, generate: bool)
        requires
            chunk_pos_in_range(min_chunk),
            chunk_pos_in_range(max_chunk),
        ensures
            final(self).chunks == old(self).chunks,
            final(self).players == old(self).players,
            final(self).next_player_id == old(self).next_player_id,
            final(self).chunk_load_jobs == old(self).chunk_load_jobs,
            final(self).chunk_unload_jobs == old(self).chunk_unload_jobs,
            generate ==> final(self).task_queue@ == old(self).task_queue@ + box_positions(
                min_chunk,
                max_chunk,
            ).map_values(|p: ChunkPos| Task::GenerateChunk(p)),
            generate ==> final(self).pending_generates@ == old(self).pending_generates@
                + box_positions(min_chunk, max_chunk),
            !generate ==> final(self).task_queue@ == old(self).task_queue@ + box_positions(
                min_chunk,
                max_chunk,
            ).map_values(|p: ChunkPos| Task::ChunkMesh(p)),
            !generate ==> final(self).pending_generates == old(self).pending_generates,
    {
        let positions = box_positions_vec(min_chunk, max_chunk);
        let ghost ps = positions@;
        let ghost q0 = self.task_queue@;
        let ghost p0 = self.pending_generates@;
        let mut i: usize = 0;
        while i < positions.len()
            invariant
                i <= ps.len(),
                positions@ == ps,
                self.chunks == old(self).chunks,
                self.players == old(self).players,
                self.next_player_id == old(self).next_player_id,
                self.chunk_load_jobs == old(self).chunk_load_jobs,
                self.chunk_unload_jobs == old(self).chunk_unload_jobs,
                generate ==> self.task_queue@ == q0 + ps.take(i as int).map_values(
                    |p: ChunkPos| Task::GenerateChunk(p),
                ),
                generate ==> self.pending_generates@ == p0 + ps.take(i as int),
                !generate ==> self.task_queue@ == q0 + ps.take(i as int).map_values(
                    |p: ChunkPos| Task::ChunkMesh(p),
                ),
                !generate ==> self.pending_generates == old(self).pending_generates,
            decreases ps.len() - i,
        {
            let p = positions[i];
            if generate {
                self.task_queue.push(Task::GenerateChunk(p));
                self.pending_generates.push(p);
                proof {
                    assert(ps.take(i + 1) =~= ps.take(i as int).push(p));
                    assert(ps.take(i + 1).map_values(|q: ChunkPos| Task::GenerateChunk(q))
                        =~= ps.take(i as int).map_values(|q: ChunkPos| Task::GenerateChunk(q)).push(
                            Task::GenerateChunk(p),
                        ));
                    assert(self.task_queue@ =~= q0 + ps.take(i + 1).map_values(
                        |q: ChunkPos| Task::GenerateChunk(q),
                    ));
                    assert(self.pending_generates@ =~= p0 + ps.take(i + 1));
                }
            } else {
                self.task_queue.push(Task::ChunkMesh(p));
                proof {
                    assert(ps.take(i + 1) =~= ps.take(i as int).push(p));
                    assert(ps.take(i + 1).map_values(|q: ChunkPos| Task::ChunkMesh(q))
                        =~= ps.take(i as int).map_values(|q: ChunkPos| Task::ChunkMesh(q)).push(
                            Task::ChunkMesh(p),
                        ));
                    assert(self.task_queue@ =~= q0 + ps.take(i + 1).map_values(
                        |q: ChunkPos| Task::ChunkMesh(q),
                    ));
                }
            }
            i += 1;
        }
        proof {
            assert(ps.take(ps.len() as int) =~= ps);
        }
    }

    /// Requests every chunk of the half-open box `[min_chunk, max_chunk)` to
    /// be resident: records one load job owing one `GenerateChunk`
    /// completion per box position, and enqueues those tasks. Completions
    /// increment the load count of already-resident chunks rather than
    /// regenerating them, so overlapping loads are idempotent on content.
    pub fn load_chunks(
        &mut self,
        min_chunk: ChunkPos,
        max_chunk: ChunkPos,
        mesh_face_task: Option<ChunkMeshFaceData>,
    )
        requires
            old(self).wf(),
            chunk_pos_in_range(min_chunk),
            chunk_pos_in_range(max_chunk),
        ensures
            final(self).wf(),
            final(self).chunks == old(self).chunks,
            final(self).players == old(self).players,
            final(self).next_player_id == old(self).next_player_id,
            final(self).chunk_unload_jobs == old(self).chunk_unload_jobs,
            final(self).chunk_load_jobs@ == old(self).chunk_load_jobs@.push(ChunkLoadJob {
                min_chunk,
                max_chunk,
                remaining_chunks: box_positions(min_chunk, max_chunk).len() as u64,
                mesh_face_task,
            }),
            final(self).task_queue@ == old(self).task_queue@ + box_positions(
                min_chunk,
                max_chunk,
            ).map_values(|p: ChunkPos| Task::GenerateChunk(p)),
            final(self).pending_generates@ == old(self).pending_generates@ + box_positions(
                min_chunk,
                max_chunk,
            ),
    {
        let positions_len = box_positions_vec(min_chunk, max_chunk).len();
        self.chunk_load_jobs.push(ChunkLoadJob {
            min_chunk,
            max_chunk,
            remaining_chunks: positions_len as u64,
            mesh_face_task,
        });
        self.enqueue_box_tasks(min_chunk, max_chunk, true);
    }

    /// Requests the load count of every chunk of the box to drop by one:
    /// records the unload job and enqueues the `UnloadChunks` task; the
    /// decrements happen when a worker executes it.
    pub fn unload_chunks(
        &mut self,
        min_chunk: ChunkPos,
        max_chunk: ChunkPos,
        mesh_face_task: Option<ChunkMeshFaceData>,
    )
        requires
            old(self).wf(),
            chunk_pos_in_range(min_chunk),
            chunk_pos_in_range(max_chunk),
        ensures
            final(self).wf(),
            final(self).chunks == old(self).chunks,
            final(self).players == old(self).players,
            final(self).next_player_id == old(self).next_player_id,
            final(self).chunk_load_jobs == old(self).chunk_load_jobs,
            final(self).pending_generates == old(self).pending_generates,
            final(self).chunk_unload_jobs@ == old(self).chunk_unload_jobs@.push(ChunkLoadJob {
                min_chunk,
                max_chunk,
                remaining_chunks: 1,
                mesh_face_task,
            }),
            final(self).task_queue@ == old(self).task_queue@.push(Task::UnloadChunks {
                min_chunk,
                max_chunk,
            }),
    {
        self.chunk_unload_jobs.push(ChunkLoadJob {
            min_chunk,
            max_chunk,
            remaining_chunks: 1,
            mesh_face_task,
        });
        self.task_queue.push(Task::UnloadChunks { min_chunk, max_chunk });
    }

    /// Enqueues a full remesh of every chunk of the box.
    pub fn chunk_mesh_update(&mut self, min_chunk: ChunkPos, max_chunk: ChunkPos)
        requires
            old(self).wf(),
            chunk_pos_in_range(min_chunk),
            chunk_pos_in_range(max_chunk),
        ensures
            final(self).wf(),
            final(self).chunks == old(self).chunks,
            final(self).players == old(self).players,
            final(self).next_player_id == old(self).next_player_id,
            final(self).chunk_load_jobs == old(self).chunk_load_jobs,
            final(self).chunk_unload_jobs == old(self).chunk_unload_jobs,
            final(self).pending_generates == old(self).pending_generates,
            final(self).task_queue@ == old(self).task_queue@ + box_positions(
                min_chunk,
                max_chunk,
            ).map_values(|p: ChunkPos| Task::ChunkMesh(p)),
    {
        self.enqueue_box_tasks(min_chunk, max_chunk, false);
    }
}

/// One chunk's entry after an unload of the box touches it: counts above
/// one are decremented, a count of exactly one removes the entry — removal
/// happens exactly at the transition to zero, never before.
pub open spec fn unload_seq(s: Seq<LoadedChunk>, min: ChunkPos, max: ChunkPos) -> Seq<LoadedChunk>
    decreases s.len(),
{
    if s.len() == 0 {
        s
    } else {
        let rest = unload_seq(s.drop_first(), min, max);
        let c = s.first();
        if box_contains(min, max, c.chunk.chunk_position) {
            if c.load_count > 1 {
                seq![dec_count(c)] + rest
            } else {
                rest
            }
        } else {
            seq![c] + rest
        }
    }
}

pub open spec fn dec_count(c: LoadedChunk) -> LoadedChunk {
    LoadedChunk { chunk: c.chunk, load_count: (c.load_count - 1) as u64 }
}

/// Unloading keeps chunks well formed with positive counts, keeps positions
/// pairwise distinct, and introduces no position that was not already
/// present.
proof fn lemma_unload_seq_wf(s: Seq<LoadedChunk>, min: ChunkPos, max: ChunkPos)
    requires
        forall|i: int| 0 <= i < s.len()
            ==> (#[trigger] s[i]).chunk.wf() && s[i].load_count >= 1,
        forall|i: int, j: int| 0 <= i < j < s.len()
            ==> (#[trigger] s[i]).chunk.chunk_position != (#[trigger] s[j]).chunk.chunk_position,
    ensures
        forall|i: int| 0 <= i < unload_seq(s, min, max).len()
            ==> (#[trigger] unload_seq(s, min, max)[i]).chunk.wf()
                && unload_seq(s, min, max)[i].load_count >= 1,
        forall|i: int| 0 <= i < unload_seq(s, min, max).len()
            ==> exists|j: int| 0 <= j < s.len()
                && (#[trigger] unload_seq(s, min, max)[i]).chunk.chunk_position
                    == (#[trigger] s[j]).chunk.chunk_position,
        forall|i: int, j: int| 0 <= i < j < unload_seq(s, min, max).len()
            ==> (#[trigger] unload_seq(s, min, max)[i]).chunk.chunk_position
                != (#[trigger] unload_seq(s, min, max)[j]).chunk.chunk_position,
    decreases s.len(),
{
    if s.len() > 0 {
        let rest_in = s.drop_first();
        assert forall|i: int| 0 <= i < rest_in.len() implies
            (#[trigger] rest_in[i]).chunk.wf() && rest_in[i].load_count >= 1 by {
            assert(rest_in[i] == s[i + 1]);
        }
        assert forall|i: int, j: int| 0 <= i < j < rest_in.len() implies
            (#[trigger] rest_in[i]).chunk.chunk_position
                != (#[trigger] rest_in[j]).chunk.chunk_position by {
            assert(rest_in[i] == s[i + 1]);
            assert(rest_in[j] == s[j + 1]);
        }
        lemma_unload_seq_wf(rest_in, min, max);
        let rest = unload_seq(rest_in, min, max);
        let c = s.first();
        let result = unload_seq(s, min, max);
        // the first element (when kept) has a position that no rest element shares
        assert forall|j: int| 0 <= j < rest.len() implies
            (#[trigger] rest[j]).chunk.chunk_position != c.chunk.chunk_position by {
            let w = choose|w: int| 0 <= w < rest_in.len()
                && rest[j].chunk.chunk_position == rest_in[w].chunk.chunk_position;
            assert(rest_in[w] == s[w + 1]);
            assert(s[0].chunk.chunk_position != s[w + 1].chunk.chunk_position);
        }
        if box_contains(min, max, c.chunk.chunk_position) {
            if c.load_count > 1 {
                assert(result == seq![dec_count(c)] + rest);
                assert forall|i: int| 0 <= i < result.len() implies
                    exists|j: int| 0 <= j < s.len()
                        && (#[trigger] result[i]).chunk.chunk_position
                            == (#[trigger] s[j]).chunk.chunk_position by {
                    if i == 0 {
                        assert(result[0].chunk.chunk_position == s[0].chunk.chunk_position);
                    } else {
                        let w = choose|w: int| 0 <= w < rest_in.len()
                            && rest[i - 1].chunk.chunk_position == rest_in[w].chunk.chunk_position;
                        assert(result[i] == rest[i - 1]);
                        assert(rest_in[w] == s[w + 1]);
                        assert(result[i].chunk.chunk_position == s[w + 1].chunk.chunk_position);
                    }
                }
            } else {
                assert(result == rest);
                assert forall|i: int| 0 <= i < result.len() implies
                    exists|j: int| 0 <= j < s.len()
                        && (#[trigger] result[i]).chunk.chunk_position
                            == (#[trigger] s[j]).chunk.chunk_position by {
                    let w = choose|w: int| 0 <= w < rest_in.len()
                        && rest[i].chunk.chunk_position == rest_in[w].chunk.chunk_position;
                    assert(rest_in[w] == s[w + 1]);
                    assert(result[i].chunk.chunk_position == s[w + 1].chunk.chunk_position);
                }
            }
        } else {
            assert(result == seq![c] + rest);
            assert forall|i: int| 0 <= i < result.len() implies
                exists|j: int| 0 <= j < s.len()
                    && (#[trigger] result[i]).chunk.chunk_position
                        == (#[trigger] s[j]).chunk.chunk_position by {
                if i == 0 {
                    assert(result[0].chunk.chunk_position == s[0].chunk.chunk_position);
                } else {
                    let w = choose|w: int| 0 <= w < rest_in.len()
                        && rest[i - 1].chunk.chunk_position == rest_in[w].chunk.chunk_position;
                    assert(result[i] == rest[i - 1]);
                    assert(rest_in[w] == s[w + 1]);
                    assert(result[i].chunk.chunk_position == s[w + 1].chunk.chunk_position);
                }
            }
        }
    }
}

/// What one unload does to one resident chunk: a chunk of the box whose
/// count is exactly one is removed — it reaches zero and leaves the index
/// at that very transition; a chunk of the box with a higher count merely
/// drops by one; a chunk outside the box is untouched.
pub proof fn lemma_unload_removes_exactly_at_zero(
    s: Seq<LoadedChunk>,
    min_chunk: ChunkPos,
    max_chunk: ChunkPos,
    i: int,
)
    requires
        0 <= i < s.len(),
        forall|a: int, b: int| 0 <= a < b < s.len()
            ==> (#[trigger] s[a]).chunk.chunk_position != (#[trigger] s[b]).chunk.chunk_position,
        forall|a: int| 0 <= a < s.len()
            ==> (#[trigger] s[a]).chunk.wf() && s[a].load_count >= 1,
    ensures
        ({
            let c = s[i];
            let r = unload_seq(s, min_chunk, max_chunk);
            &&& (box_contains(min_chunk, max_chunk, c.chunk.chunk_position) && c.load_count == 1
                ==> forall|j: int| 0 <= j < r.len()
                    ==> (#[trigger] r[j]).chunk.chunk_position != c.chunk.chunk_position)
            &&& (box_contains(min_chunk, max_chunk, c.chunk.chunk_position) && c.load_count > 1
                ==> exists|j: int| 0 <= j < r.len() && #[trigger] r[j] == dec_count(c))
            &&& (!box_contains(min_chunk, max_chunk, c.chunk.chunk_position)
                ==> exists|j: int| 0 <= j < r.len() && #[trigger] r[j] == c)
        }),
    decreases s.len(),
{
    let c = s[i];
    let r = unload_seq(s, min_chunk, max_chunk);
    let tail = s.drop_first();
    let rest = unload_seq(tail, min_chunk, max_chunk);
    assert forall|a: int, b: int| 0 <= a < b < tail.len() implies
        (#[trigger] tail[a]).chunk.chunk_position
            != (#[trigger] tail[b]).chunk.chunk_position by {
        assert(tail[a] == s[a + 1]);
        assert(tail[b] == s[b + 1]);
    }
    assert forall|a: int| 0 <= a < tail.len() implies
        (#[trigger] tail[a]).chunk.wf() && tail[a].load_count >= 1 by {
        assert(tail[a] == s[a + 1]);
    }
    lemma_unload_seq_wf(tail, min_chunk, max_chunk);
    // no element of the tail's unload result carries the head's position
    assert forall|j: int| 0 <= j < rest.len() implies
        (#[trigger] rest[j]).chunk.chunk_position != s[0].chunk.chunk_position by {
        let w = choose|w: int| 0 <= w < tail.len()
            && rest[j].chunk.chunk_position == tail[w].chunk.chunk_position;
        assert(tail[w] == s[w + 1]);
        assert(s[0].chunk.chunk_position != s[w + 1].chunk.chunk_position);
    }
    if i == 0 {
        if box_contains(min_chunk, max_chunk, c.chunk.chunk_position) {
            if c.load_count == 1 {
                assert(r == rest);
            } else {
                assert(r == seq![dec_count(c)] + rest);
                assert(r[0] == dec_count(c));
            }
        } else {
            assert(r == seq![c] + rest);
            assert(r[0] == c);
        }
    } else {
        lemma_unload_removes_exactly_at_zero(tail, min_chunk, max_chunk, i - 1);
        assert(tail[i - 1] == c);
        let head_len: int = if box_contains(min_chunk, max_chunk, s[0].chunk.chunk_position) {
            if s[0].load_count > 1 {
                1
            } else {
                0
            }
        } else {
            1
        };
        assert(r.len() == head_len + rest.len());
        assert forall|j: int| 0 <= j < rest.len() implies r[head_len + j] == rest[j] by {}
        if box_contains(min_chunk, max_chunk, c.chunk.chunk_position) && c.load_count == 1 {
            // distinct positions: the head entry, if kept, is not at c's position
            assert forall|j: int| 0 <= j < r.len() implies
                (#[trigger] r[j]).chunk.chunk_position != c.chunk.chunk_position by {
                if j < head_len {
                    assert(r[j].chunk.chunk_position == s[0].chunk.chunk_position);
                    assert(s[0].chunk.chunk_position != s[i].chunk.chunk_position);
                } else {
                    assert(r[j] == rest[j - head_len]);
                }
            }
        } else if box_contains(min_chunk, max_chunk, c.chunk.chunk_position) {
            let j = choose|j: int| 0 <= j < rest.len() && #[trigger] rest[j] == dec_count(c);
            assert(r[head_len + j] == dec_count(c));
        } else {
            let j = choose|j: int| 0 <= j < rest.len() && #[trigger] rest[j] == c;
            assert(r[head_len + j] == c);
        }
    }
}

impl World {
    /// A worker finished generating the chunk at `position` with the given
    /// block cube. One matching pending-generate entry is retired. If the
    /// chunk became resident meanwhile, its load count is incremented and
    /// the generated blocks are discarded — overlapping loads never
    /// regenerate content; otherwise the chunk enters the index with a load
    /// count of one.
    pub fn complete_generate(&mut self, position: ChunkPos, blocks: Vec<Block>)
        requires
            old(self).wf(),
            chunk_pos_in_range(position),
            blocks@.len() == 32768,
            forall|i: int| old(self).chunk_matches(i, position)
                ==> old(self).chunks@[i].load_count < u64::MAX,
        ensures
            final(self).wf(),
            final(self).players == old(self).players,
            final(self).next_player_id == old(self).next_player_id,
            final(self).chunk_load_jobs == old(self).chunk_load_jobs,
            final(self).chunk_unload_jobs == old(self).chunk_unload_jobs,
            final(self).task_queue == old(self).task_queue,
            // one pending entry for this position is retired, if there is one
            (exists|k: int| 0 <= k < old(self).pending_generates@.len()
                    && old(self).pending_generates@[k] == position) ==> exists|k: int|
                0 <= k < old(self).pending_generates@.len()
                    && old(self).pending_generates@[k] == position
                    && final(self).pending_generates@ == old(self).pending_generates@.remove(k),
            !(exists|k: int| 0 <= k < old(self).pending_generates@.len()
                    && old(self).pending_generates@[k] == position)
                ==> final(self).pending_generates == old(self).pending_generates,
            // resident already: the count goes up by one, content untouched
            old(self).has_chunk(position) ==> final(self).chunks@ == old(self).chunks@.update(
                old(self).chunk_index_of(position),
                LoadedChunk {
                    chunk: old(self).chunks@[old(self).chunk_index_of(position)].chunk,
                    load_count: (old(self).chunks@[old(self).chunk_index_of(position)].load_count
                        + 1) as u64,
                },
            ),
            // not resident: the generated chunk enters with count one
            !old(self).has_chunk(position) ==> {
                &&& final(self).chunks@.len() == old(self).chunks@.len() + 1
                &&& final(self).chunks@.take(old(self).chunks@.len() as int) == old(self).chunks@
                &&& final(self).chunks@.last().chunk.chunk_position == position
                &&& final(self).chunks@.last().chunk.blocks == blocks
                &&& final(self).chunks@.last().load_count == 1
            },
            final(self).has_chunk(position),
            generation_effect(old(self).chunks@, final(self).chunks@, position),
    {
        // retire one pending-generate entry
        let ghost pending0 = self.pending_generates@;
        let mut k: usize = 0;
        let mut found = false;
        while k < self.pending_generates.len() && !found
            invariant
                k <= pending0.len(),
                pending0 == old(self).pending_generates@,
                self.chunks == old(self).chunks,
                self.players == old(self).players,
                self.next_player_id == old(self).next_player_id,
                self.chunk_load_jobs == old(self).chunk_load_jobs,
                self.chunk_unload_jobs == old(self).chunk_unload_jobs,
                self.task_queue == old(self).task_queue,
                found ==> exists|j: int|
                    0 <= j < pending0.len() && pending0[j] == position
                        && self.pending_generates@ == pending0.remove(j),
                !found ==> self.pending_generates == old(self).pending_generates,
                !found ==> forall|j: int| 0 <= j < k ==> pending0[j] != position,
            decreases pending0.len() - k,
        {
            if self.pending_generates[k] == position {
                let ghost kk = k as int;
                self.pending_generates.remove(k);
                found = true;
                proof {
                    assert(pending0[kk] == position);
                    assert(self.pending_generates@ == pending0.remove(kk));
                }
            }
            k += 1;
        }
        proof {
            if !found {
                assert(forall|j: int| 0 <= j < pending0.len() ==> pending0[j] != position);
            }
        }

        let ghost pre = *self;
        match self.find_chunk_index(position) {
            Some(i) => {
                proof {
                    assert(pre.chunk_matches(i as int, position));
                    assert(old(self).chunk_matches(i as int, position));
                }
                let mut lc = self.chunks.remove(i);
                lc.load_count = lc.load_count + 1;
                self.chunks.insert(i, lc);
                proof {
                    assert(self.chunks@ =~= pre.chunks@.update(i as int, self.chunks@[i as int]));
                    let ci = pre.chunk_index_of(position);
                    assert(pre.chunk_matches(ci, position));
                    assert forall|j: int| pre.chunk_matches(j, position) implies j == i as int by {
                        if j != i as int {
                            assert(pre.chunks@[j].chunk.chunk_position == position);
                            if j < i as int {
                                assert(pre.chunks@[j].chunk.chunk_position
                                    != pre.chunks@[i as int].chunk.chunk_position);
                            } else {
                                assert(pre.chunks@[i as int].chunk.chunk_position
                                    != pre.chunks@[j].chunk.chunk_position);
                            }
                        }
                    }
                    assert(ci == i as int);
                    assert(self.chunk_matches(i as int, position));
                    assert(seq_has_chunk(pre.chunks@, position)) by {
                        assert(pre.chunks@[i as int].chunk.chunk_position == position);
                    }
                    assert(generation_effect(pre.chunks@, self.chunks@, position)) by {
                        assert(pre.chunks@[i as int].chunk.chunk_position == position
                            && self.chunks@ == pre.chunks@.update(
                            i as int,
                            LoadedChunk {
                                chunk: pre.chunks@[i as int].chunk,
                                load_count: (pre.chunks@[i as int].load_count + 1) as u64,
                            },
                        ));
                    }
                    assert forall|a: int| 0 <= a < self.chunks@.len() implies
                        (#[trigger] self.chunks@[a]).chunk.wf()
                            && self.chunks@[a].load_count >= 1 by {
                        assert(pre.chunks@[a].chunk.wf());
                    }
                    assert forall|a: int, b: int| 0 <= a < b < self.chunks@.len() implies
                        (#[trigger] self.chunks@[a]).chunk.chunk_position
                            != (#[trigger] self.chunks@[b]).chunk.chunk_position by {
                        assert(pre.chunks@[a].chunk.chunk_position
                            == self.chunks@[a].chunk.chunk_position);
                        assert(pre.chunks@[b].chunk.chunk_position
                            == self.chunks@[b].chunk.chunk_position);
                    }
                }
            },
            None => {
                let chunk = Chunk::new(position, blocks);
                self.chunks.push(LoadedChunk { chunk, load_count: 1 });
                proof {
                    assert(self.chunks@.take(pre.chunks@.len() as int) =~= pre.chunks@);
                    assert(self.chunk_matches(pre.chunks@.len() as int, position));
                    assert(!seq_has_chunk(pre.chunks@, position)) by {
                        if seq_has_chunk(pre.chunks@, position) {
                            let k = choose|k: int| 0 <= k < pre.chunks@.len()
                                && (#[trigger] pre.chunks@[k]).chunk.chunk_position == position;
                            assert(pre.chunk_matches(k, position));
                            assert(pre.has_chunk(position));
                        }
                    }
                    assert(generation_effect(pre.chunks@, self.chunks@, position));
                    assert forall|a: int, b: int| 0 <= a < b < self.chunks@.len() implies
                        (#[trigger] self.chunks@[a]).chunk.chunk_position
                            != (#[trigger] self.chunks@[b]).chunk.chunk_position by {
                        if b == pre.chunks@.len() as int {
                            assert(!pre.chunk_matches(a, position));
                            assert(self.chunks@[a] == pre.chunks@[a]);
                        } else {
                            assert(self.chunks@[a] == pre.chunks@[a]);
                            assert(self.chunks@[b] == pre.chunks@[b]);
                        }
                    }
                }
            },
        }
    }

    /// A worker executes an `UnloadChunks` task: the load count of every
    /// resident chunk of the box drops by one, and a chunk whose count
    /// thereby reaches zero is removed from the index at exactly that
    /// transition. If any `GenerateChunk` for a position in the box is still
    /// outstanding, the unload is deferred instead: the task is re-enqueued
    /// unchanged and nothing else happens, so the decrement is applied only
    /// after the in-flight load has landed (the unload-before-load race is
    /// resolved by waiting, not by dropping either side).
    pub fn complete_unload(&mut self, min_chunk: ChunkPos, max_chunk: ChunkPos) -> (retried: bool)
        requires
            old(self).wf(),
        ensures
            final(self).wf(),
            final(self).players == old(self).players,
            final(self).next_player_id == old(self).next_player_id,
            final(self).chunk_load_jobs == old(self).chunk_load_jobs,
            final(self).chunk_unload_jobs == old(self).chunk_unload_jobs,
            final(self).pending_generates == old(self).pending_generates,
            retried == exists|k: int| 0 <= k < old(self).pending_generates@.len()
                && box_contains(min_chunk, max_chunk, #[trigger] old(self).pending_generates@[k]),
            retried ==> final(self).chunks == old(self).chunks
                && final(self).task_queue@ == old(self).task_queue@.push(Task::UnloadChunks {
                    min_chunk,
                    max_chunk,
                }),
            !retried ==> final(self).task_queue == old(self).task_queue
                && final(self).chunks@ == unload_seq(old(self).chunks@, min_chunk, max_chunk),
    {
        // an in-flight generation anywhere in the box defers the unload
        let mut defer = false;
        let mut k: usize = 0;
        while k < self.pending_generates.len() && !defer
            invariant
                k <= self.pending_generates@.len(),
                defer ==> exists|j: int| 0 <= j < self.pending_generates@.len()
                    && box_contains(min_chunk, max_chunk, #[trigger] self.pending_generates@[j]),
                !defer ==> forall|j: int| 0 <= j < k
                    ==> !box_contains(min_chunk, max_chunk, #[trigger] self.pending_generates@[j]),
            decreases self.pending_generates@.len() - k,
        {
            let p = self.pending_generates[k];
            if p.x >= min_chunk.x && p.y >= min_chunk.y && p.z >= min_chunk.z && p.x < max_chunk.x
                && p.y < max_chunk.y && p.z < max_chunk.z {
                defer = true;
                proof {
                    assert(box_contains(min_chunk, max_chunk, self.pending_generates@[k as int]));
                }
            }
            k += 1;
        }
        if defer {
            self.task_queue.push(Task::UnloadChunks { min_chunk, max_chunk });
            return true;
        }

        let ghost chunks0 = self.chunks@;
        let mut kept: Vec<LoadedChunk> = Vec::new();
        while self.chunks.len() > 0
            invariant
                chunks0 == old(self).chunks@,
                self.players == old(self).players,
                self.next_player_id == old(self).next_player_id,
                self.chunk_load_jobs == old(self).chunk_load_jobs,
                self.chunk_unload_jobs == old(self).chunk_unload_jobs,
                self.task_queue == old(self).task_queue,
                self.pending_generates == old(self).pending_generates,
                unload_seq(chunks0, min_chunk, max_chunk) == kept@ + unload_seq(
                    self.chunks@,
                    min_chunk,
                    max_chunk,
                ),
                forall|i: int| 0 <= i < self.chunks@.len()
                    ==> (#[trigger] self.chunks@[i]).chunk.wf() && self.chunks@[i].load_count >= 1,
            decreases self.chunks@.len(),
        {
            let ghost cur = self.chunks@;
            let c = self.chunks.remove(0);
            proof {
                assert(self.chunks@ =~= cur.drop_first());
                assert(cur.first() == c);
            }
            let in_box = c.chunk.chunk_position.x >= min_chunk.x
                && c.chunk.chunk_position.y >= min_chunk.y
                && c.chunk.chunk_position.z >= min_chunk.z
                && c.chunk.chunk_position.x < max_chunk.x
                && c.chunk.chunk_position.y < max_chunk.y
                && c.chunk.chunk_position.z < max_chunk.z;
            if in_box {
                if c.load_count > 1 {
                    let c2 = LoadedChunk { chunk: c.chunk, load_count: c.load_count - 1 };
                    kept.push(c2);
                    proof {
                        assert(unload_seq(cur, min_chunk, max_chunk)
                            =~= seq![dec_count(c)] + unload_seq(cur.drop_first(), min_chunk, max_chunk));
                        assert(kept@ + unload_seq(self.chunks@, min_chunk, max_chunk)
                            =~= kept@.drop_last() + unload_seq(cur, min_chunk, max_chunk));
                    }
                } else {
                    proof {
                        assert(unload_seq(cur, min_chunk, max_chunk)
                            == unload_seq(cur.drop_first(), min_chunk, max_chunk));
                    }
                }
            } else {
                kept.push(c);
                proof {
                    assert(unload_seq(cur, min_chunk, max_chunk)
                        =~= seq![c] + unload_seq(cur.drop_first(), min_chunk, max_chunk));
                    assert(kept@ + unload_seq(self.chunks@, min_chunk, max_chunk)
                        =~= kept@.drop_last() + unload_seq(cur, min_chunk, max_chunk));
                }
            }
        }
        proof {
            assert(self.chunks@.len() == 0);
            assert(unload_seq(self.chunks@, min_chunk, max_chunk) =~= Seq::<LoadedChunk>::empty());
            assert(kept@ =~= unload_seq(chunks0, min_chunk, max_chunk));
            lemma_unload_seq_wf(chunks0, min_chunk, max_chunk);
        }
        self.chunks = kept;
        proof {
            let r = unload_seq(chunks0, min_chunk, max_chunk);
            assert(self.chunks@ == r);
            assert forall|a: int| 0 <= a < self.chunks@.len() implies
                (#[trigger] self.chunks@[a]).chunk.wf() && self.chunks@[a].load_count >= 1 by {
                assert(r[a].chunk.wf() && r[a].load_count >= 1);
            }
            assert forall|a: int, b: int| 0 <= a < b < self.chunks@.len() implies
                (#[trigger] self.chunks@[a]).chunk.chunk_position
                    != (#[trigger] self.chunks@[b]).chunk.chunk_position by {
                assert(r[a].chunk.chunk_position != r[b].chunk.chunk_position);
            }
        }
        false
    }
}

impl World {
    /// Index of the first load job this completion counts against.
    fn find_load_job(&self, chunk: ChunkPos) -> (r: Option<usize>)
        ensures
            match r {
                Some(idx) => idx < self.chunk_load_jobs@.len()
                    && self.chunk_load_jobs@[idx as int].spec_matches(chunk)
                    && forall|k: int| 0 <= k < idx
                        ==> !(#[trigger] self.chunk_load_jobs@[k]).spec_matches(chunk),
                None => forall|k: int| 0 <= k < self.chunk_load_jobs@.len()
                    ==> !(#[trigger] self.chunk_load_jobs@[k]).spec_matches(chunk),
            },
    {
        let mut j: usize = 0;
        while j < self.chunk_load_jobs.len()
            invariant
                j <= self.chunk_load_jobs@.len(),
                forall|k: int| 0 <= k < j
                    ==> !(#[trigger] self.chunk_load_jobs@[k]).spec_matches(chunk),
            decreases self.chunk_load_jobs@.len() - j,
        {
            let job = self.chunk_load_jobs[j];
            if job.contains_chunk(chunk) && job.remaining_chunks >= 1 {
                return Some(j);
            }
            j += 1;
        }
        None
    }

    /// Index of the first unload job recorded for exactly this box.
    fn find_unload_job(&self, min_chunk: ChunkPos, max_chunk: ChunkPos) -> (r: Option<usize>)
        ensures
            match r {
                Some(idx) => idx < self.chunk_unload_jobs@.len()
                    && self.chunk_unload_jobs@[idx as int].min_chunk == min_chunk
                    && self.chunk_unload_jobs@[idx as int].max_chunk == max_chunk
                    && forall|k: int| 0 <= k < idx
                        ==> !((#[trigger] self.chunk_unload_jobs@[k]).min_chunk == min_chunk
                            && self.chunk_unload_jobs@[k].max_chunk == max_chunk),
                None => forall|k: int| 0 <= k < self.chunk_unload_jobs@.len()
                    ==> !((#[trigger] self.chunk_unload_jobs@[k]).min_chunk == min_chunk
                        && self.chunk_unload_jobs@[k].max_chunk == max_chunk),
            },
    {
        let mut j: usize = 0;
        while j < self.chunk_unload_jobs.len()
            invariant
                j <= self.chunk_unload_jobs@.len(),
                forall|k: int| 0 <= k < j
                    ==> !((#[trigger] self.chunk_unload_jobs@[k]).min_chunk == min_chunk
                        && self.chunk_unload_jobs@[k].max_chunk == max_chunk),
            decreases self.chunk_unload_jobs@.len() - j,
        {
            let job = self.chunk_unload_jobs[j];
            if job.min_chunk == min_chunk && job.max_chunk == max_chunk {
                return Some(j);
            }
            j += 1;
        }
        None
    }

    /// Counts one `GenerateChunk` completion against the first load job
    /// whose box contains the chunk and that still owes completions. A job
    /// thereby finished is retired, and its deferred mesh work — a full
    /// remesh of its box, then its recorded boundary face remesh — is
    /// enqueued.
    fn reconcile_generate(&mut self, chunk: ChunkPos)
        requires
            old(self).wf(),
        ensures
            final(self).wf(),
            final(self).chunks == old(self).chunks,
            final(self).players == old(self).players,
            final(self).next_player_id == old(self).next_player_id,
            final(self).chunk_unload_jobs == old(self).chunk_unload_jobs,
            final(self).pending_generates == old(self).pending_generates,
            final(self).chunk_load_jobs@ == on_generate(old(self).chunk_load_jobs@, chunk).0,
            match on_generate(old(self).chunk_load_jobs@, chunk).1 {
                Some(job) => final(self).task_queue@ == old(self).task_queue@ + finish_tasks(job),
                None => final(self).task_queue == old(self).task_queue,
            },
    {
        let ghost jobs0 = self.chunk_load_jobs@;
        // find the first job this completion counts against
        let found = self.find_load_job(chunk);
        let j: usize = match found {
            Some(idx) => idx,
            None => {
                proof {
                    lemma_on_generate_skip(jobs0, chunk, jobs0.len() as int);
                    assert(jobs0.skip(jobs0.len() as int).len() == 0);
                    assert(on_generate(jobs0, chunk).0
                        =~= jobs0.take(jobs0.len() as int) + jobs0.skip(jobs0.len() as int));
                    assert(on_generate(jobs0, chunk).0 =~= jobs0);
                    assert(on_generate(jobs0, chunk).1 is None);
                }
                return ;
            },
        };
        proof {
            lemma_on_generate_skip(jobs0, chunk, j as int);
            assert(jobs0.skip(j as int).first() == jobs0[j as int]);
        }
        let job = self.chunk_load_jobs[j];
        if job.remaining_chunks == 1 {
            let finished = self.chunk_load_jobs.remove(j);
            proof {
                assert(on_generate(jobs0, chunk).1 == Some(finished));
                assert(jobs0.skip(j as int).drop_first() =~= jobs0.skip(j + 1));
                assert(on_generate(jobs0, chunk).0
                    =~= jobs0.take(j as int) + jobs0.skip(j + 1));
                assert(self.chunk_load_jobs@ =~= on_generate(jobs0, chunk).0);
                assert(chunk_pos_in_range(finished.min_chunk)
                    && chunk_pos_in_range(finished.max_chunk));
            }
            self.enqueue_box_tasks(finished.min_chunk, finished.max_chunk, false);
            match finished.mesh_face_task {
                Some(d) => {
                    let t = d.into_task();
                    self.task_queue.push(t);
                    proof {
                        assert(self.task_queue@ =~= old(self).task_queue@
                            + finish_tasks(finished));
                    }
                },
                None => {
                    proof {
                        assert(finish_tasks(finished) =~= box_positions(
                            finished.min_chunk,
                            finished.max_chunk,
                        ).map_values(|p: ChunkPos| Task::ChunkMesh(p)));
                        assert(self.task_queue@ =~= old(self).task_queue@
                            + finish_tasks(finished));
                    }
                },
            }
        } else {
            let mut dec = job;
            dec.remaining_chunks = dec.remaining_chunks - 1;
            self.chunk_load_jobs.set(j, dec);
            proof {
                assert(dec == jobs0[j as int].spec_decremented());
                assert(on_generate(jobs0.skip(j as int), chunk).0
                    =~= seq![dec] + jobs0.skip(j + 1));
                assert(on_generate(jobs0, chunk).0
                    =~= jobs0.take(j as int) + (seq![dec] + jobs0.skip(j + 1)));
                assert(self.chunk_load_jobs@ =~= jobs0.update(j as int, dec));
                assert(self.chunk_load_jobs@ =~= on_generate(jobs0, chunk).0);
                assert(on_generate(jobs0, chunk).1 is None);
            }
        }
    }

    /// Retires the first unload job recorded for exactly this box and
    /// enqueues its deferred boundary face remesh, if one was recorded.
    fn reconcile_unload(&mut self, min_chunk: ChunkPos, max_chunk: ChunkPos)
        requires
            old(self).wf(),
        ensures
            final(self).wf(),
            final(self).chunks == old(self).chunks,
            final(self).players == old(self).players,
            final(self).next_player_id == old(self).next_player_id,
            final(self).chunk_load_jobs == old(self).chunk_load_jobs,
            final(self).pending_generates == old(self).pending_generates,
            final(self).chunk_unload_jobs@ == on_unload(
                old(self).chunk_unload_jobs@,
                min_chunk,
                max_chunk,
            ).0,
            match on_unload(old(self).chunk_unload_jobs@, min_chunk, max_chunk).1 {
                Some(job) => match job.mesh_face_task {
                    Some(d) => final(self).task_queue@ == old(self).task_queue@.push(
                        Task::ChunkMeshFace {
                            min_chunk: d.min_chunk,
                            max_chunk: d.max_chunk,
                            face: d.face,
                        },
                    ),
                    None => final(self).task_queue == old(self).task_queue,
                },
                None => final(self).task_queue == old(self).task_queue,
            },
    {
        let ghost jobs0 = self.chunk_unload_jobs@;
        let found = self.find_unload_job(min_chunk, max_chunk);
        let j: usize = match found {
            Some(idx) => idx,
            None => {
                proof {
                    lemma_on_unload_skip(jobs0, min_chunk, max_chunk, jobs0.len() as int);
                    assert(jobs0.skip(jobs0.len() as int).len() == 0);
                    assert(on_unload(jobs0, min_chunk, max_chunk).0
                        =~= jobs0.take(jobs0.len() as int) + jobs0.skip(jobs0.len() as int));
                    assert(on_unload(jobs0, min_chunk, max_chunk).0 =~= jobs0);
                    assert(on_unload(jobs0, min_chunk, max_chunk).1 is None);
                }
                return ;
            },
        };
        proof {
            lemma_on_unload_skip(jobs0, min_chunk, max_chunk, j as int);
            assert(jobs0.skip(j as int).first() == jobs0[j as int]);
        }
        let finished = self.chunk_unload_jobs.remove(j);
        proof {
            assert(on_unload(jobs0, min_chunk, max_chunk).1 == Some(finished));
            assert(jobs0.skip(j as int).drop_first() =~= jobs0.skip(j + 1));
            assert(on_unload(jobs0, min_chunk, max_chunk).0
                =~= jobs0.take(j as int) + jobs0.skip(j + 1));
            assert(self.chunk_unload_jobs@ =~= on_unload(jobs0, min_chunk, max_chunk).0);
        }
        match finished.mesh_face_task {
            Some(d) => {
                let t = d.into_task();
                self.task_queue.push(t);
            },
            None => {},
        }
    }

    /// Drains a batch of completed tasks, reconciling each in arrival
    /// order: mesh completions mark the world mesh dirty; a `GenerateChunk`
    /// completion counts against its load job and on finishing it enqueues
    /// the job's deferred mesh work; an `UnloadChunks` completion marks the
    /// mesh dirty and retires its job record. Returns whether the world
    /// mesh must be rebuilt this frame.
    pub fn poll_completed_tasks(&mut self, completed: &Vec<Task>) -> (update_mesh: bool)
        requires
            old(self).wf(),
        ensures
            final(self).wf(),
            final(self).chunks == old(self).chunks,
            final(self).players == old(self).players,
            final(self).next_player_id == old(self).next_player_id,
            final(self).pending_generates == old(self).pending_generates,
            ({
                let st = poll_fold(
                    PollState {
                        load_jobs: old(self).chunk_load_jobs@,
                        unload_jobs: old(self).chunk_unload_jobs@,
                        queue: old(self).task_queue@,
                        update_mesh: false,
                    },
                    completed@,
                );
                &&& final(self).chunk_load_jobs@ == st.load_jobs
                &&& final(self).chunk_unload_jobs@ == st.unload_jobs
                &&& final(self).task_queue@ == st.queue
                &&& update_mesh == st.update_mesh
            }),
    {
        let ghost target = poll_fold(
            PollState {
                load_jobs: self.chunk_load_jobs@,
                unload_jobs: self.chunk_unload_jobs@,
                queue: self.task_queue@,
                update_mesh: false,
            },
            completed@,
        );
        let mut update_mesh = false;
        proof {
            assert(completed@.skip(0) =~= completed@);
        }
        let mut i: usize = 0;
        while i < completed.len()
            invariant
                i <= completed@.len(),
                self.wf(),
                self.chunks == old(self).chunks,
                self.players == old(self).players,
                self.next_player_id == old(self).next_player_id,
                self.pending_generates == old(self).pending_generates,
                poll_fold(
                    PollState {
                        load_jobs: self.chunk_load_jobs@,
                        unload_jobs: self.chunk_unload_jobs@,
                        queue: self.task_queue@,
                        update_mesh,
                    },
                    completed@.skip(i as int),
                ) == target,
            decreases completed@.len() - i,
        {
            let ghost st_i = PollState {
                load_jobs: self.chunk_load_jobs@,
                unload_jobs: self.chunk_unload_jobs@,
                queue: self.task_queue@,
                update_mesh,
            };
            let t = completed[i];
            proof {
                assert(completed@.skip(i as int).first() == completed@[i as int]);
                assert(completed@.skip(i as int).drop_first() =~= completed@.skip(i + 1));
                assert(poll_fold(st_i, completed@.skip(i as int))
                    == poll_fold(poll_step(st_i, t), completed@.skip(i + 1)));
            }
            match t {
                Task::ChunkMesh(_) => {
                    update_mesh = true;
                },
                Task::ChunkMeshFace { min_chunk: _, max_chunk: _, face: _ } => {
                    update_mesh = true;
                },
                Task::GenerateChunk(c) => {
                    self.reconcile_generate(c);
                },
                Task::UnloadChunks { min_chunk, max_chunk } => {
                    update_mesh = true;
                    self.reconcile_unload(min_chunk, max_chunk);
                },
            }
            proof {
                assert(PollState {
                    load_jobs: self.chunk_load_jobs@,
                    unload_jobs: self.chunk_unload_jobs@,
                    queue: self.task_queue@,
                    update_mesh,
                } == poll_step(st_i, t));
            }
            i += 1;
        }
        proof {
            assert(completed@.skip(completed@.len() as int).len() == 0);
        }
        update_mesh
    }
}

/// `chunk_coord` of a bounded coordinate is comparably bounded.
pub proof fn lemma_chunk_coord_small(c: int)
    requires
        -0x0080_0000_0000_0000 <= c <= 0x0080_0000_0000_0000,
    ensures
        -0x0004_0000_0000_0000 <= chunk_coord(c) <= 0x0004_0000_0000_0000,
{
    lemma_fundamental_div_mod(c, 32);
    lemma_mod_bound(c, 32);
}

/// The block one step behind `block` along face `f`'s outward normal: the
/// block whose facing slice borders `block` from the neighbouring side.
pub open spec fn adjacent_offset_block(block: BlockPos, f: int) -> BlockPos {
    let off = spec_face_of_index(f).spec_block_pos_offset();
    BlockPos {
        x: (block.x - off.x) as i64,
        y: (block.y - off.y) as i64,
        z: (block.z - off.z) as i64,
    }
}

/// Layer of the facing slice in the chunk owning the offset block: the
/// offset block's chunk-local component along the face's axis.
pub open spec fn adjacent_layer(block: BlockPos, f: int) -> int {
    let lp = block_local_pos(adjacent_offset_block(block, f));
    match spec_face_of_index(f) {
        BlockFace::XPos | BlockFace::XNeg => lp.x as int,
        BlockFace::YPos | BlockFace::YNeg => lp.y as int,
        BlockFace::ZPos | BlockFace::ZNeg => lp.z as int,
    }
}

/// The facing slice of the chunk owning the block behind face `f` of
/// `block`, when that chunk is resident, holds exactly the greedy mesh of
/// the block state of `orig`.
pub open spec fn neighbor_slice_meshed(w: World, orig: World, block: BlockPos, f: int) -> bool {
    let ob = adjacent_offset_block(block, f);
    let cp = block_chunk_pos(ob);
    orig.has_chunk(cp) ==> ({
        let idx = orig.chunk_index_of(cp);
        let c0 = orig.chunks@[idx].chunk;
        let face = spec_face_of_index(f);
        let layer = adjacent_layer(block, f);
        &&& 0 <= idx < w.chunks@.len()
        &&& w.chunks@[idx].chunk.chunk_mesh@[layer_slot(face, layer)]@ == spec_layer_mesh(
            world_layer_ctx(orig, c0, face, layer),
            c0.block_position,
        )
    })
}

/// The mesh-cache slots `mesh_update_adjacent(block)` may write: the six
/// slices of the block's own chunk through its local coordinate, and per
/// face the facing slice of the chunk owning the block behind that face.
pub open spec fn adjacent_slot_touched(orig: World, block: BlockPos, j: int, s: int) -> bool {
    ||| (orig.has_chunk(block_chunk_pos(block)) && j == orig.chunk_index_of(
        block_chunk_pos(block),
    ) && ({
        let lp = block_local_pos(block);
        ||| s == layer_slot(BlockFace::XPos, lp.x as int)
        ||| s == layer_slot(BlockFace::XNeg, lp.x as int)
        ||| s == layer_slot(BlockFace::YPos, lp.y as int)
        ||| s == layer_slot(BlockFace::YNeg, lp.y as int)
        ||| s == layer_slot(BlockFace::ZPos, lp.z as int)
        ||| s == layer_slot(BlockFace::ZNeg, lp.z as int)
    }))
    ||| (exists|f: int|
        0 <= f < 6 && orig.has_chunk(block_chunk_pos(#[trigger] adjacent_offset_block(block, f)))
            && j == orig.chunk_index_of(block_chunk_pos(adjacent_offset_block(block, f)))
            && s == layer_slot(spec_face_of_index(f), adjacent_layer(block, f)))
}

/// Stepping one block along an axis always changes the chunk-local
/// coordinate on that axis.
proof fn lemma_local_coord_adjacent(c: int)
    requires
        i64::MIN < c < i64::MAX,
    ensures
        local_coord(c - 1) != local_coord(c),
        local_coord(c + 1) != local_coord(c),
{
    lemma_fundamental_div_mod(c, 32);
    lemma_mod_bound(c, 32);
    let q = c / 32;
    let r = c % 32;
    if r >= 1 {
        lemma_fundamental_div_mod_converse(c - 1, 32, q, r - 1);
    } else {
        lemma_fundamental_div_mod_converse(c - 1, 32, q - 1, 31);
    }
    if r <= 30 {
        lemma_fundamental_div_mod_converse(c + 1, 32, q, r + 1);
    } else {
        lemma_fundamental_div_mod_converse(c + 1, 32, q + 1, 0);
    }
}

/// The relation between the worlds before (`wb`) and after (`wa`) one
/// neighbour-pass remesh of `mesh_update_adjacent`: block data matches the
/// original world everywhere, and exactly the facing slice of the chunk at
/// index `j` was rewritten, to the greedy mesh seen from `wb`.
pub open spec fn adjacent_step_rel(
    orig: World,
    wb: World,
    wa: World,
    block: BlockPos,
    fi: int,
    j: int,
) -> bool {
    let cp = block_chunk_pos(adjacent_offset_block(block, fi));
    let face = spec_face_of_index(fi);
    let layer = adjacent_layer(block, fi);
    &&& orig.wf()
    &&& 0 <= fi < 6
    &&& -0x4000_0000_0000_0000 <= block.x <= 0x4000_0000_0000_0000
    &&& -0x4000_0000_0000_0000 <= block.y <= 0x4000_0000_0000_0000
    &&& -0x4000_0000_0000_0000 <= block.z <= 0x4000_0000_0000_0000
    &&& wb.chunks@.len() == orig.chunks@.len()
    &&& wa.chunks@.len() == orig.chunks@.len()
    &&& forall|k: int| 0 <= k < orig.chunks@.len()
        ==> (#[trigger] wb.chunks@[k]).chunk.blocks == orig.chunks@[k].chunk.blocks
            && wb.chunks@[k].chunk.chunk_position == orig.chunks@[k].chunk.chunk_position
            && wb.chunks@[k].chunk.block_position == orig.chunks@[k].chunk.block_position
    &&& orig.has_chunk(cp)
    &&& j == orig.chunk_index_of(cp)
    &&& 0 <= j < orig.chunks@.len()
    &&& forall|k: int| 0 <= k < orig.chunks@.len() && k != j
        ==> #[trigger] wa.chunks@[k] == wb.chunks@[k]
    &&& forall|s2: int| 0 <= s2 < 192 && s2 != layer_slot(face, layer)
        ==> #[trigger] wa.chunks@[j].chunk.chunk_mesh@[s2] == wb.chunks@[j].chunk.chunk_mesh@[s2]
    &&& wa.chunks@[j].chunk.chunk_mesh@[layer_slot(face, layer)]@ == spec_layer_mesh(
        world_layer_ctx(wb, wb.chunks@[j].chunk, face, layer),
        wb.chunks@[j].chunk.block_position,
    )
}

/// After one neighbour-pass remesh, the new slice holds the greedy mesh of
/// the original block state, and every earlier face's slice fact survives.
#[verifier::rlimit(100)]
#[verifier::spinoff_prover]
proof fn lemma_adjacent_step_neighbors(
    orig: World,
    wb: World,
    wa: World,
    block: BlockPos,
    fi: int,
    j: int,
)
    requires
        adjacent_step_rel(orig, wb, wa, block, fi, j),
        forall|f: int| 0 <= f < fi ==> neighbor_slice_meshed(wb, orig, block, f),
    ensures
        forall|f: int| 0 <= f < fi + 1 ==> neighbor_slice_meshed(wa, orig, block, f),
{
    let cp = block_chunk_pos(adjacent_offset_block(block, fi));
    let face = spec_face_of_index(fi);
    let layer = adjacent_layer(block, fi);
    let c0 = orig.chunks@[j].chunk;
    lemma_plane_seq_same_blocks(orig, wb, c0, wb.chunks@[j].chunk, face, layer);
    assert(world_layer_ctx(wb, wb.chunks@[j].chunk, face, layer)
        == world_layer_ctx(orig, c0, face, layer));
    assert(neighbor_slice_meshed(wa, orig, block, fi));
    assert forall|f: int| 0 <= f < fi + 1 implies neighbor_slice_meshed(wa, orig, block, f) by {
        if f < fi {
            let ob2 = adjacent_offset_block(block, f);
            let cp2 = block_chunk_pos(ob2);
            if orig.has_chunk(cp2) {
                let idx2 = orig.chunk_index_of(cp2);
                let s2 = layer_slot(spec_face_of_index(f), adjacent_layer(block, f));
                assert(neighbor_slice_meshed(wb, orig, block, f));
                lemma_chunk_coord_fits(ob2.x as int);
                lemma_chunk_coord_fits(ob2.y as int);
                lemma_chunk_coord_fits(ob2.z as int);
                assert(0 <= adjacent_layer(block, f) < 32);
                assert(s2 != layer_slot(face, layer));
                if idx2 == j {
                    assert(wa.chunks@[idx2].chunk.chunk_mesh@[s2]
                        == wb.chunks@[idx2].chunk.chunk_mesh@[s2]);
                } else {
                    assert(wa.chunks@[idx2] == wb.chunks@[idx2]);
                }
            }
        }
    }
}

/// After one neighbour-pass remesh, the block's own six slice facts survive:
/// the facing slice of the neighbouring block lies at another layer of the
/// same face, or in another chunk.
#[verifier::rlimit(100)]
#[verifier::spinoff_prover]
proof fn lemma_adjacent_step_own(
    orig: World,
    wb: World,
    wa: World,
    block: BlockPos,
    fi: int,
    own_idx: int,
    j: int,
)
    requires
        adjacent_step_rel(orig, wb, wa, block, fi, j),
        orig.has_chunk(block_chunk_pos(block)) ==> 0 <= own_idx < orig.chunks@.len()
            && own_idx == orig.chunk_index_of(block_chunk_pos(block))
            && own_slices_meshed(wb, orig, own_idx, block),
    ensures
        orig.has_chunk(block_chunk_pos(block)) ==> own_slices_meshed(wa, orig, own_idx, block),
{
    if orig.has_chunk(block_chunk_pos(block)) {
        let face = spec_face_of_index(fi);
        let layer = adjacent_layer(block, fi);
        let lp = block_local_pos(block);
        lemma_chunk_coord_fits(block.x as int);
        lemma_chunk_coord_fits(block.y as int);
        lemma_chunk_coord_fits(block.z as int);
        if own_idx == j {
            lemma_local_coord_adjacent(block.x as int);
            lemma_local_coord_adjacent(block.y as int);
            lemma_local_coord_adjacent(block.z as int);
            assert(layer_slot(face, layer) != layer_slot(BlockFace::XPos, lp.x as int));
            assert(layer_slot(face, layer) != layer_slot(BlockFace::XNeg, lp.x as int));
            assert(layer_slot(face, layer) != layer_slot(BlockFace::YPos, lp.y as int));
            assert(layer_slot(face, layer) != layer_slot(BlockFace::YNeg, lp.y as int));
            assert(layer_slot(face, layer) != layer_slot(BlockFace::ZPos, lp.z as int));
            assert(layer_slot(face, layer) != layer_slot(BlockFace::ZNeg, lp.z as int));
        } else {
            assert(wa.chunks@[own_idx] == wb.chunks@[own_idx]);
        }
        assert(own_slices_meshed(wa, orig, own_idx, block));
    }
}

/// After one neighbour-pass remesh, every untouched mesh slot still holds
/// its original value.
#[verifier::rlimit(100)]
#[verifier::spinoff_prover]
proof fn lemma_adjacent_step_frame(
    orig: World,
    wb: World,
    wa: World,
    block: BlockPos,
    fi: int,
    j: int,
)
    requires
        adjacent_step_rel(orig, wb, wa, block, fi, j),
        forall|j2: int, s2: int|
            0 <= j2 < orig.chunks@.len() && 0 <= s2 < 192 && !adjacent_slot_touched(
                orig,
                block,
                j2,
                s2,
            ) ==> wb.chunks@[j2].chunk.chunk_mesh@[s2] == orig.chunks@[j2].chunk.chunk_mesh@[s2],
    ensures
        forall|j2: int, s2: int|
            0 <= j2 < orig.chunks@.len() && 0 <= s2 < 192 && !adjacent_slot_touched(
                orig,
                block,
                j2,
                s2,
            ) ==> wa.chunks@[j2].chunk.chunk_mesh@[s2] == orig.chunks@[j2].chunk.chunk_mesh@[s2],
{
    let face = spec_face_of_index(fi);
    let layer = adjacent_layer(block, fi);
    assert(adjacent_slot_touched(orig, block, j, layer_slot(face, layer)));
    assert forall|j2: int, s2: int|
        0 <= j2 < orig.chunks@.len() && 0 <= s2 < 192 && !adjacent_slot_touched(
            orig,
            block,
            j2,
            s2,
        ) implies wa.chunks@[j2].chunk.chunk_mesh@[s2]
        == orig.chunks@[j2].chunk.chunk_mesh@[s2] by {
        if j2 == j {
            assert(s2 != layer_slot(face, layer));
            assert(wa.chunks@[j2].chunk.chunk_mesh@[s2] == wb.chunks@[j2].chunk.chunk_mesh@[s2]);
        } else {
            assert(wa.chunks@[j2] == wb.chunks@[j2]);
        }
    }
}

/// The six face/layer slices of one chunk through one block's local
/// coordinate each hold exactly the greedy mesh of the block state of
/// `orig`.
pub open spec fn own_slices_meshed(w: World, orig: World, idx: int, block: BlockPos) -> bool {
    let c0 = orig.chunks@[idx].chunk;
    let lx = local_coord(block.x as int);
    let ly = local_coord(block.y as int);
    let lz = local_coord(block.z as int);
    &&& w.chunks@[idx].chunk.chunk_mesh@[layer_slot(BlockFace::XPos, lx)]@ == spec_layer_mesh(
        world_layer_ctx(orig, c0, BlockFace::XPos, lx),
        c0.block_position,
    )
    &&& w.chunks@[idx].chunk.chunk_mesh@[layer_slot(BlockFace::XNeg, lx)]@ == spec_layer_mesh(
        world_layer_ctx(orig, c0, BlockFace::XNeg, lx),
        c0.block_position,
    )
    &&& w.chunks@[idx].chunk.chunk_mesh@[layer_slot(BlockFace::YPos, ly)]@ == spec_layer_mesh(
        world_layer_ctx(orig, c0, BlockFace::YPos, ly),
        c0.block_position,
    )
    &&& w.chunks@[idx].chunk.chunk_mesh@[layer_slot(BlockFace::YNeg, ly)]@ == spec_layer_mesh(
        world_layer_ctx(orig, c0, BlockFace::YNeg, ly),
        c0.block_position,
    )
    &&& w.chunks@[idx].chunk.chunk_mesh@[layer_slot(BlockFace::ZPos, lz)]@ == spec_layer_mesh(
        world_layer_ctx(orig, c0, BlockFace::ZPos, lz),
        c0.block_position,
    )
    &&& w.chunks@[idx].chunk.chunk_mesh@[layer_slot(BlockFace::ZNeg, lz)]@ == spec_layer_mesh(
        world_layer_ctx(orig, c0, BlockFace::ZNeg, lz),
        c0.block_position,
    )
}

impl World {
    pub open spec fn player_matches(self, i: int, id: PlayerId) -> bool {
        0 <= i < self.players@.len() && self.players@[i].id == id
    }

    pub open spec fn has_player(self, id: PlayerId) -> bool {
        exists|i: int| self.player_matches(i, id)
    }

    pub open spec fn player_index_of(self, id: PlayerId) -> int {
        choose|i: int| self.player_matches(i, id)
    }

    /// Index of the connected player with this id, if any.
    fn find_player_index(&self, id: PlayerId) -> (r: Option<usize>)
        ensures
            match r {
                Some(i) => self.player_matches(i as int, id),
                None => !self.has_player(id),
            },
    {
        let mut i: usize = 0;
        while i < self.players.len()
            invariant
                i <= self.players@.len(),
                forall|j: int| 0 <= j < i ==> !self.player_matches(j, id),
            decreases self.players@.len() - i,
        {
            if self.players[i].id == id {
                return Some(i);
            }
            i += 1;
        }
        None
    }

    /// Connects a new player at the origin: hands out a fresh id (the
    /// monotonic counter is never reused), requests the player's whole
    /// render-distance box to be loaded, and registers the player.
    pub fn connect(&mut self) -> (r: PlayerId)
        requires
            old(self).wf(),
            old(self).next_player_id < u64::MAX,
        ensures
            final(self).wf(),
            r == PlayerId(old(self).next_player_id),
            !old(self).has_player(r),
            final(self).next_player_id == old(self).next_player_id + 1,
            final(self).chunks == old(self).chunks,
            final(self).chunk_unload_jobs == old(self).chunk_unload_jobs,
            final(self).players@ == old(self).players@.push(Player {
                id: r,
                position: BlockPos { x: 0i64, y: 0i64, z: 0i64 },
                render_distance: ChunkPos { x: 10i64, y: 5i64, z: 10i64 },
            }),
            final(self).chunk_load_jobs@ == old(self).chunk_load_jobs@.push(ChunkLoadJob {
                min_chunk: ChunkPos { x: -10i64, y: -5i64, z: -10i64 },
                max_chunk: ChunkPos { x: 10i64, y: 5i64, z: 10i64 },
                remaining_chunks: box_positions(
                    ChunkPos { x: -10i64, y: -5i64, z: -10i64 },
                    ChunkPos { x: 10i64, y: 5i64, z: 10i64 },
                ).len() as u64,
                mesh_face_task: None,
            }),
            final(self).task_queue@ == old(self).task_queue@ + box_positions(
                ChunkPos { x: -10i64, y: -5i64, z: -10i64 },
                ChunkPos { x: 10i64, y: 5i64, z: 10i64 },
            ).map_values(|p: ChunkPos| Task::GenerateChunk(p)),
            final(self).pending_generates@ == old(self).pending_generates@ + box_positions(
                ChunkPos { x: -10i64, y: -5i64, z: -10i64 },
                ChunkPos { x: 10i64, y: 5i64, z: 10i64 },
            ),
    {
        let id = PlayerId::new(self.next_player_id);
        self.next_player_id = self.next_player_id + 1;
        let player = Player::new(id);
        let center = player.chunk_position();
        let rd = player.render_distance();
        proof {
            assert(center == (ChunkPos { x: 0i64, y: 0i64, z: 0i64 }));
        }
        let min_load_chunk = center.minus(rd);
        let max_load_chunk = center.plus(rd);
        self.load_chunks(min_load_chunk, max_load_chunk, None);
        self.players.push(player);
        proof {
            assert forall|i: int| 0 <= i < self.players@.len() implies
                (#[trigger] self.players@[i]).id.0 < self.next_player_id by {
                if i < old(self).players@.len() {
                    assert(self.players@[i] == old(self).players@[i]);
                }
            }
            assert forall|i: int, j: int| 0 <= i < j < self.players@.len() implies
                (#[trigger] self.players@[i]).id != (#[trigger] self.players@[j]).id by {
                if j < old(self).players@.len() {
                    assert(self.players@[i] == old(self).players@[i]);
                    assert(self.players@[j] == old(self).players@[j]);
                } else {
                    assert(self.players@[i].id.0 < old(self).next_player_id);
                }
            }
            assert forall|i: int| 0 <= i < self.players@.len() implies
                player_state_in_range(#[trigger] self.players@[i]) by {
                if i < old(self).players@.len() {
                    assert(self.players@[i] == old(self).players@[i]);
                }
            }
        }
        id
    }

    /// Moves a player. Returns `None` if the id is unknown (already
    /// disconnected — a valid terminal state, not an error). Otherwise the
    /// position is stored and, when the player's chunk coordinate changed
    /// at all — one step or a long teleport alike — the whole new
    /// render-distance box is requested for loading before the whole old
    /// box is released, so chunks in the overlap never drop to a zero
    /// count in between. Returns `Some(true)` exactly when the chunk
    /// coordinate changed, i.e. when the world mesh will change.
    pub fn set_player_position(&mut self, player_id: PlayerId, position: BlockPos) -> (r: Option<
        bool,
    >)
        requires
            old(self).wf(),
            -0x0080_0000_0000_0000 <= position.x <= 0x0080_0000_0000_0000,
            -0x0080_0000_0000_0000 <= position.y <= 0x0080_0000_0000_0000,
            -0x0080_0000_0000_0000 <= position.z <= 0x0080_0000_0000_0000,
        ensures
            final(self).wf(),
            (r is Some) == old(self).has_player(player_id),
            r is None ==> *final(self) == *old(self),
            r is Some ==> ({
                let pi = old(self).player_index_of(player_id);
                let oldp = old(self).players@[pi];
                let oldc = block_chunk_pos(oldp.position);
                let newc = block_chunk_pos(position);
                &&& final(self).players@ == old(self).players@.update(pi, Player {
                    id: oldp.id,
                    position,
                    render_distance: oldp.render_distance,
                })
                &&& r == Some(newc != oldc)
                &&& final(self).chunks == old(self).chunks
                &&& (newc == oldc ==> final(self).chunk_load_jobs == old(self).chunk_load_jobs
                    && final(self).chunk_unload_jobs == old(self).chunk_unload_jobs
                    && final(self).task_queue == old(self).task_queue
                    && final(self).pending_generates == old(self).pending_generates)
                &&& (newc != oldc ==> {
                    let new_min = ChunkPos {
                        x: (newc.x - oldp.render_distance.x) as i64,
                        y: (newc.y - oldp.render_distance.y) as i64,
                        z: (newc.z - oldp.render_distance.z) as i64,
                    };
                    let new_max = ChunkPos {
                        x: (newc.x + oldp.render_distance.x) as i64,
                        y: (newc.y + oldp.render_distance.y) as i64,
                        z: (newc.z + oldp.render_distance.z) as i64,
                    };
                    let old_min = ChunkPos {
                        x: (oldc.x - oldp.render_distance.x) as i64,
                        y: (oldc.y - oldp.render_distance.y) as i64,
                        z: (oldc.z - oldp.render_distance.z) as i64,
                    };
                    let old_max = ChunkPos {
                        x: (oldc.x + oldp.render_distance.x) as i64,
                        y: (oldc.y + oldp.render_distance.y) as i64,
                        z: (oldc.z + oldp.render_distance.z) as i64,
                    };
                    &&& final(self).chunk_load_jobs@ == old(self).chunk_load_jobs@.push(
                        ChunkLoadJob {
                            min_chunk: new_min,
                            max_chunk: new_max,
                            remaining_chunks: box_positions(new_min, new_max).len() as u64,
                            mesh_face_task: None,
                        },
                    )
                    &&& final(self).chunk_unload_jobs@ == old(self).chunk_unload_jobs@.push(
                        ChunkLoadJob {
                            min_chunk: old_min,
                            max_chunk: old_max,
                            remaining_chunks: 1,
                            mesh_face_task: None,
                        },
                    )
                    &&& final(self).task_queue@ == old(self).task_queue@ + box_positions(
                        new_min,
                        new_max,
                    ).map_values(|p: ChunkPos| Task::GenerateChunk(p)).push(Task::UnloadChunks {
                        min_chunk: old_min,
                        max_chunk: old_max,
                    })
                    &&& final(self).pending_generates@ == old(self).pending_generates@
                        + box_positions(new_min, new_max)
                })
            }),
    {
        let pi = match self.find_player_index(player_id) {
            Some(pi) => pi,
            None => {
                return None;
            },
        };
        let p = self.players[pi];
        proof {
            assert(old(self).player_matches(pi as int, player_id));
            let ci = old(self).player_index_of(player_id);
            assert(old(self).player_matches(ci, player_id));
            assert forall|j: int| old(self).player_matches(j, player_id) implies j == pi as int by {
                if j != pi as int {
                    assert(old(self).players@[j].id == player_id);
                }
            }
            lemma_chunk_coord_fits(p.position.x as int);
            lemma_chunk_coord_fits(p.position.y as int);
            lemma_chunk_coord_fits(p.position.z as int);
            lemma_chunk_coord_fits(position.x as int);
            lemma_chunk_coord_fits(position.y as int);
            lemma_chunk_coord_fits(position.z as int);
            lemma_chunk_coord_small(p.position.x as int);
            lemma_chunk_coord_small(p.position.y as int);
            lemma_chunk_coord_small(p.position.z as int);
            lemma_chunk_coord_small(position.x as int);
            lemma_chunk_coord_small(position.y as int);
            lemma_chunk_coord_small(position.z as int);
        }
        let old_center = p.chunk_position();
        let new_center = position.as_chunk_pos();
        let np = Player { id: p.id, position, render_distance: p.render_distance };
        self.players.set(pi, np);
        proof {
            assert forall|i: int| 0 <= i < self.players@.len() implies
                (#[trigger] self.players@[i]).id.0 < self.next_player_id
                    && player_state_in_range(self.players@[i]) by {
                if i != pi as int {
                    assert(self.players@[i] == old(self).players@[i]);
                }
            }
            assert forall|i: int, j: int| 0 <= i < j < self.players@.len() implies
                (#[trigger] self.players@[i]).id != (#[trigger] self.players@[j]).id by {
                assert(self.players@[i].id == old(self).players@[i].id);
                assert(self.players@[j].id == old(self).players@[j].id);
            }
        }
        if !(new_center == old_center) {
            let rd = p.render_distance;
            let new_min = new_center.minus(rd);
            let new_max = new_center.plus(rd);
            let old_min = old_center.minus(rd);
            let old_max = old_center.plus(rd);
            self.load_chunks(new_min, new_max, None);
            self.unload_chunks(old_min, old_max, None);
            Some(true)
        } else {
            Some(false)
        }
    }
}

/// What the mesher should see one step beyond a layer of `chunk` at cell
/// `(u, v)`: the block on the neighbour side of the face, read from the
/// chunk itself when the position is chunk-local and from the rest of the
/// world otherwise, as `Some(is_translucent)`; `None` where no chunk is
/// resident there.
pub open spec fn spec_plane_cell(
    w: World,
    chunk: Chunk,
    face: BlockFace,
    layer: int,
    u: int,
    v: int,
) -> Option<bool> {
    let local = spec_layer_pos(face, layer, u, v);
    let off = face.spec_block_pos_offset();
    let neigh = BlockPos {
        x: (local.x + off.x) as i64,
        y: (local.y + off.y) as i64,
        z: (local.z + off.z) as i64,
    };
    if neigh.spec_is_chunk_local() {
        Some(chunk.spec_block_at(neigh).spec_is_translucent())
    } else {
        let wp = BlockPos {
            x: (chunk.block_position.x + neigh.x) as i64,
            y: (chunk.block_position.y + neigh.y) as i64,
            z: (chunk.block_position.z + neigh.z) as i64,
        };
        match w.spec_block_lookup(wp) {
            Some(b) => Some(b.spec_is_translucent()),
            None => None,
        }
    }
}

/// The whole neighbour-side plane of one face/layer slice, as a cell
/// sequence: what `build_plane` computes, stated as a function of the world.
pub open spec fn spec_plane_seq(w: World, chunk: Chunk, face: BlockFace, layer: int) -> Seq<
    Option<bool>,
> {
    Seq::new(1156, |k: int| spec_plane_cell(w, chunk, face, layer, k / 34 - 1, k % 34 - 1))
}

/// The mesh model context of one face/layer slice of a chunk resident in a
/// world: its blocks against the plane the world shows it.
pub open spec fn world_layer_ctx(w: World, chunk: Chunk, face: BlockFace, layer: int) -> MeshCtx {
    MeshCtx { blocks: chunk.blocks@, plane: spec_plane_seq(w, chunk, face, layer), face, c3: layer }
}

proof fn lemma_plane_idx_inverse(k: int)
    requires
        0 <= k < 1156,
    ensures
        -1 <= k / 34 - 1 <= 32,
        -1 <= k % 34 - 1 <= 32,
        plane_cell_idx(k / 34 - 1, k % 34 - 1) == k,
{
    lemma_fundamental_div_mod(k, 34);
    lemma_mod_bound(k, 34);
}

/// Block lookups read only chunk positions and blocks, so they are
/// untouched by changes to mesh caches or load counts.
proof fn lemma_lookup_same_blocks(w1: World, w2: World, pos: BlockPos)
    requires
        w1.chunks@.len() == w2.chunks@.len(),
        forall|a: int, b: int| 0 <= a < b < w1.chunks@.len()
            ==> (#[trigger] w1.chunks@[a]).chunk.chunk_position
                != (#[trigger] w1.chunks@[b]).chunk.chunk_position,
        forall|j: int| 0 <= j < w1.chunks@.len()
            ==> (#[trigger] w2.chunks@[j]).chunk.chunk_position
                    == w1.chunks@[j].chunk.chunk_position
                && w2.chunks@[j].chunk.blocks == w1.chunks@[j].chunk.blocks,
    ensures
        w1.spec_block_lookup(pos) == w2.spec_block_lookup(pos),
{
    let cp = block_chunk_pos(pos);
    assert forall|j: int| w1.chunk_matches(j, cp) implies w2.chunk_matches(j, cp) by {
        assert(w2.chunks@[j].chunk.chunk_position == w1.chunks@[j].chunk.chunk_position);
    }
    assert forall|j: int| w2.chunk_matches(j, cp) implies w1.chunk_matches(j, cp) by {
        assert(w2.chunks@[j].chunk.chunk_position == w1.chunks@[j].chunk.chunk_position);
    }
    if w1.has_chunk(cp) {
        let i1 = w1.chunk_index_of(cp);
        let i2 = w2.chunk_index_of(cp);
        assert(w1.chunk_matches(i1, cp));
        assert(w2.chunk_matches(i2, cp));
        assert(w1.chunk_matches(i2, cp));
        assert forall|j: int| w1.chunk_matches(j, cp) implies j == i1 by {
            if j != i1 {
                if j < i1 {
                    assert(w1.chunks@[j].chunk.chunk_position
                        != w1.chunks@[i1].chunk.chunk_position);
                } else {
                    assert(w1.chunks@[i1].chunk.chunk_position
                        != w1.chunks@[j].chunk.chunk_position);
                }
            }
        }
        assert(i2 == i1);
        assert(w1.chunks@[i1].chunk.spec_block_at(block_local_pos(pos))
            == w2.chunks@[i1].chunk.spec_block_at(block_local_pos(pos)));
    }
}

/// The plane a slice sees depends only on chunk positions, blocks and the
/// chunk's own placement — not on mesh caches or load counts.
proof fn lemma_plane_seq_same_blocks(
    w1: World,
    w2: World,
    c1: Chunk,
    c2: Chunk,
    face: BlockFace,
    layer: int,
)
    requires
        w1.chunks@.len() == w2.chunks@.len(),
        forall|a: int, b: int| 0 <= a < b < w1.chunks@.len()
            ==> (#[trigger] w1.chunks@[a]).chunk.chunk_position
                != (#[trigger] w1.chunks@[b]).chunk.chunk_position,
        forall|j: int| 0 <= j < w1.chunks@.len()
            ==> (#[trigger] w2.chunks@[j]).chunk.chunk_position
                    == w1.chunks@[j].chunk.chunk_position
                && w2.chunks@[j].chunk.blocks == w1.chunks@[j].chunk.blocks,
        c1.blocks == c2.blocks,
        c1.block_position == c2.block_position,
    ensures
        spec_plane_seq(w1, c1, face, layer) == spec_plane_seq(w2, c2, face, layer),
{
    assert forall|k: int| 0 <= k < 1156 implies spec_plane_seq(w1, c1, face, layer)[k]
        == spec_plane_seq(w2, c2, face, layer)[k] by {
        lemma_plane_idx_inverse(k);
        let u = k / 34 - 1;
        let v = k % 34 - 1;
        let local = spec_layer_pos(face, layer, u, v);
        let off = face.spec_block_pos_offset();
        let neigh = BlockPos {
            x: (local.x + off.x) as i64,
            y: (local.y + off.y) as i64,
            z: (local.z + off.z) as i64,
        };
        if !neigh.spec_is_chunk_local() {
            let wp = BlockPos {
                x: (c1.block_position.x + neigh.x) as i64,
                y: (c1.block_position.y + neigh.y) as i64,
                z: (c1.block_position.z + neigh.z) as i64,
            };
            lemma_lookup_same_blocks(w1, w2, wp);
        }
    }
    assert(spec_plane_seq(w1, c1, face, layer) =~= spec_plane_seq(w2, c2, face, layer));
}

/// Well-formed worlds hold each chunk position at most once, so a lookup at
/// a position another chunk owns is untouched by removing this one.
proof fn lemma_lookup_unaffected_by_remove(w1: World, w2: World, i: int, pos: BlockPos)
    requires
        w1.wf(),
        0 <= i < w1.chunks@.len(),
        w2.chunks@ == w1.chunks@.remove(i),
        block_chunk_pos(pos) != w1.chunks@[i].chunk.chunk_position,
    ensures
        w1.spec_block_lookup(pos) == w2.spec_block_lookup(pos),
{
    let cp = block_chunk_pos(pos);
    if w1.has_chunk(cp) {
        let i1 = w1.chunk_index_of(cp);
        assert(w1.chunk_matches(i1, cp));
        assert(i1 != i);
        let i2: int = if i1 < i {
            i1
        } else {
            i1 - 1
        };
        assert(w2.chunks@[i2] == w1.chunks@[i1]);
        assert(w2.chunk_matches(i2, cp));
        assert(w2.has_chunk(cp));
        let c2 = w2.chunk_index_of(cp);
        assert(w2.chunk_matches(c2, cp));
        // map the witness back into w1 and use uniqueness there
        let back: int = if c2 < i {
            c2
        } else {
            c2 + 1
        };
        assert(w1.chunks@[back] == w2.chunks@[c2]);
        assert(w1.chunk_matches(back, cp));
        assert forall|j: int| w1.chunk_matches(j, cp) implies j == i1 by {
            if j != i1 {
                assert(w1.chunks@[j].chunk.chunk_position == cp);
                if j < i1 {
                    assert(w1.chunks@[j].chunk.chunk_position
                        != w1.chunks@[i1].chunk.chunk_position);
                } else {
                    assert(w1.chunks@[i1].chunk.chunk_position
                        != w1.chunks@[j].chunk.chunk_position);
                }
            }
        }
        assert(back == i1);
        assert(w2.chunks@[c2] == w1.chunks@[i1]);
    } else {
        assert forall|j: int| 0 <= j < w2.chunks@.len() implies !w2.chunk_matches(j, cp) by {
            if j < i {
                assert(w2.chunks@[j] == w1.chunks@[j]);
                assert(!w1.chunk_matches(j, cp));
            } else {
                assert(w2.chunks@[j] == w1.chunks@[j + 1]);
                assert(!w1.chunk_matches(j + 1, cp));
            }
        }
    }
}

/// The neighbour-side plane of a chunk's slice never reads the chunk's own
/// position in the index, so removing the chunk from the world leaves the
/// plane unchanged.
proof fn lemma_plane_cell_unaffected_by_remove(
    w1: World,
    w2: World,
    i: int,
    face: BlockFace,
    layer: int,
    u: int,
    v: int,
)
    requires
        w1.wf(),
        0 <= i < w1.chunks@.len(),
        w2.chunks@ == w1.chunks@.remove(i),
        0 <= layer < 32,
        -1 <= u <= 32,
        -1 <= v <= 32,
    ensures
        spec_plane_cell(w1, w1.chunks@[i].chunk, face, layer, u, v) == spec_plane_cell(
            w2,
            w1.chunks@[i].chunk,
            face,
            layer,
            u,
            v,
        ),
{
    let chunk = w1.chunks@[i].chunk;
    let local = spec_layer_pos(face, layer, u, v);
    let off = face.spec_block_pos_offset();
    let neigh = BlockPos {
        x: (local.x + off.x) as i64,
        y: (local.y + off.y) as i64,
        z: (local.z + off.z) as i64,
    };
    if !neigh.spec_is_chunk_local() {
        let wp = BlockPos {
            x: (chunk.block_position.x + neigh.x) as i64,
            y: (chunk.block_position.y + neigh.y) as i64,
            z: (chunk.block_position.z + neigh.z) as i64,
        };
        // each component of the queried position lands in this chunk's own
        // column of the chunk grid or in the directly adjacent one
        let cp = chunk.chunk_position;
        assert(chunk.wf());
        lemma_coord_near_chunk(cp.x as int, neigh.x as int);
        lemma_coord_near_chunk(cp.y as int, neigh.y as int);
        lemma_coord_near_chunk(cp.z as int, neigh.z as int);
        assert(block_chunk_pos(wp) != cp);
        lemma_lookup_unaffected_by_remove(w1, w2, i, wp);
    }
}

/// `chunk_coord` of a position within one block of a chunk's own box lands
/// on that chunk's coordinate, or the directly adjacent one exactly when
/// the offset leaves the box.
proof fn lemma_coord_near_chunk(c: int, t: int)
    requires
        -0x0100_0000_0000_0000 <= c <= 0x0100_0000_0000_0000,
        -1 <= t <= 32,
    ensures
        0 <= t < 32 ==> chunk_coord(c * 32 + t) == c,
        t == -1 ==> chunk_coord(c * 32 + t) == c - 1,
        t == 32 ==> chunk_coord(c * 32 + t) == c + 1,
{
    if 0 <= t < 32 {
        lemma_fundamental_div_mod_converse(c * 32 + t, 32, c, t);
    } else if t == -1 {
        lemma_fundamental_div_mod_converse(c * 32 + t, 32, c - 1, 31);
    } else {
        lemma_fundamental_div_mod_converse(c * 32 + t, 32, c + 1, 0);
    }
}

/// A chunk of nothing but air meshes to nothing, whatever the surrounding
/// world holds: every face/layer slice of it is empty.
pub proof fn lemma_air_chunk_layer_empty(w: World, c: Chunk, face: BlockFace, layer: int)
    requires
        c.wf(),
        0 <= layer < 32,
        forall|p: BlockPos| p.spec_is_chunk_local() ==> (#[trigger] c.spec_block_at(p)).spec_is_air(),
    ensures
        spec_layer_mesh(world_layer_ctx(w, c, face, layer), c.block_position)
            == Seq::<crate::mesh::BlockFaceMesh>::empty(),
{
    let ctx = world_layer_ctx(w, c, face, layer);
    assert forall|u: int, v: int| 0 <= u < 32 && 0 <= v < 32 implies
        (#[trigger] crate::chunk::cell_block(ctx, u, v)).spec_is_air() by {
        let p = spec_layer_pos(face, layer, u, v);
        assert(p.spec_is_chunk_local());
        assert(c.spec_block_at(p).spec_is_air());
    }
    crate::chunk::lemma_air_layer_empty(ctx, c.block_position);
}

impl World {
    /// Builds the neighbour-side plane for one face/layer slice of `chunk`,
    /// reading the chunk itself for interior cells and the rest of the world
    /// across chunk boundaries.
    pub fn build_plane(&self, chunk: &Chunk, face: BlockFace, layer: usize) -> (r: NeighborPlane)
        requires
            self.wf(),
            chunk.wf(),
            layer < CHUNK_SIZE,
        ensures
            r.wf(),
            forall|u: int, v: int| -1 <= u <= 32 && -1 <= v <= 32
                ==> r.spec_at(u, v) == spec_plane_cell(*self, *chunk, face, layer as int, u, v),
    {
        let mut plane = NeighborPlane::new_absent();
        let offset = face.block_pos_offset();
        let mut u: i64 = -1;
        while u <= 32
            invariant
                -1 <= u <= 33,
                self.wf(),
                chunk.wf(),
                layer < 32,
                offset == face.spec_block_pos_offset(),
                plane.wf(),
                forall|a: int, b: int| -1 <= a < u && -1 <= b <= 32
                    ==> plane.spec_at(a, b) == spec_plane_cell(*self, *chunk, face, layer as int, a, b),
            decreases 33 - u,
        {
            let mut v: i64 = -1;
            while v <= 32
                invariant
                    -1 <= u <= 32,
                    -1 <= v <= 33,
                    self.wf(),
                    chunk.wf(),
                    layer < 32,
                    offset == face.spec_block_pos_offset(),
                    plane.wf(),
                    forall|a: int, b: int| -1 <= a < u && -1 <= b <= 32
                        ==> plane.spec_at(a, b) == spec_plane_cell(*self, *chunk, face, layer as int, a, b),
                    forall|b: int| -1 <= b < v
                        ==> plane.spec_at(u as int, b) == spec_plane_cell(*self, *chunk, face, layer as int, u as int, b),
                decreases 33 - v,
            {
                let local = match face {
                    BlockFace::XPos | BlockFace::XNeg => BlockPos { x: layer as i64, y: u, z: v },
                    BlockFace::YPos | BlockFace::YNeg => BlockPos { x: u, y: layer as i64, z: v },
                    BlockFace::ZPos | BlockFace::ZNeg => BlockPos { x: u, y: v, z: layer as i64 },
                };
                let neigh = local.plus(offset);
                if neigh.is_chunk_local() {
                    let b = chunk.get_block(neigh);
                    plane.set(u, v, Some(b.is_translucent()));
                } else {
                    let wp = BlockPos {
                        x: chunk.block_position.x + neigh.x,
                        y: chunk.block_position.y + neigh.y,
                        z: chunk.block_position.z + neigh.z,
                    };
                    match self.get_block(wp) {
                        Some(b) => {
                            plane.set(u, v, Some(b.is_translucent()));
                        },
                        None => {
                            plane.set(u, v, None);
                        },
                    }
                }
                v += 1;
            }
            u += 1;
        }
        plane
    }

    /// Remeshes one face/layer slice of the resident chunk at table index
    /// `i` against the current world state.
    fn remesh_slice(&mut self, i: usize, face: BlockFace, layer: usize, vm: &mut VisitedBlockMap)
        requires
            old(self).wf(),
            i < old(self).chunks@.len(),
            layer < CHUNK_SIZE,
            old(vm).wf(),
        ensures
            final(self).wf(),
            final(vm).wf(),
            final(self).players == old(self).players,
            final(self).next_player_id == old(self).next_player_id,
            final(self).chunk_load_jobs == old(self).chunk_load_jobs,
            final(self).chunk_unload_jobs == old(self).chunk_unload_jobs,
            final(self).task_queue == old(self).task_queue,
            final(self).pending_generates == old(self).pending_generates,
            final(self).chunks@.len() == old(self).chunks@.len(),
            forall|j: int| 0 <= j < old(self).chunks@.len() && j != i
                ==> final(self).chunks@[j] == old(self).chunks@[j],
            final(self).chunks@[i as int].chunk.blocks == old(self).chunks@[i as int].chunk.blocks,
            final(self).chunks@[i as int].chunk.chunk_position
                == old(self).chunks@[i as int].chunk.chunk_position,
            final(self).chunks@[i as int].chunk.block_position
                == old(self).chunks@[i as int].chunk.block_position,
            final(self).chunks@[i as int].load_count == old(self).chunks@[i as int].load_count,
            forall|s2: int| 0 <= s2 < 192 && s2 != layer_slot(face, layer as int)
                ==> final(self).chunks@[i as int].chunk.chunk_mesh@[s2]
                    == old(self).chunks@[i as int].chunk.chunk_mesh@[s2],
            final(self).chunks@[i as int].chunk.chunk_mesh@[layer_slot(face, layer as int)]@
                == spec_layer_mesh(
                world_layer_ctx(*old(self), old(self).chunks@[i as int].chunk, face, layer as int),
                old(self).chunks@[i as int].chunk.block_position,
            ),
    {
        let ghost pre = *self;
        let ghost chunk0 = pre.chunks@[i as int].chunk;
        let mut lc = self.chunks.remove(i);
        let ghost reduced = *self;
        let plane = self.build_plane(&lc.chunk, face, layer);
        proof {
            assert forall|u: int, v: int| -1 <= u <= 32 && -1 <= v <= 32 implies
                plane.spec_at(u, v) == spec_plane_cell(pre, chunk0, face, layer as int, u, v) by {
                lemma_plane_cell_unaffected_by_remove(pre, reduced, i as int, face, layer as int, u, v);
            }
            assert forall|k: int| 0 <= k < 1156 implies plane.cells@[k] == spec_plane_seq(
                pre,
                chunk0,
                face,
                layer as int,
            )[k] by {
                lemma_plane_idx_inverse(k);
                assert(plane.cells@[k] == plane.spec_at(k / 34 - 1, k % 34 - 1));
            }
            assert(plane.cells@ =~= spec_plane_seq(pre, chunk0, face, layer as int));
        }
        lc.chunk.mesh_update_inner(face, layer, vm, &plane);
        proof {
            assert(lc.chunk.chunk_mesh@[layer_slot(face, layer as int)]@ == spec_layer_mesh(
                world_layer_ctx(pre, chunk0, face, layer as int),
                chunk0.block_position,
            ));
        }
        self.chunks.insert(i, lc);
        proof {
            assert(self.chunks@ =~= pre.chunks@.update(i as int, self.chunks@[i as int]));
            assert forall|a: int| 0 <= a < self.chunks@.len() implies
                (#[trigger] self.chunks@[a]).chunk.wf() && self.chunks@[a].load_count >= 1 by {
                if a != i as int {
                    assert(self.chunks@[a] == pre.chunks@[a]);
                }
            }
            assert forall|a: int, b: int| 0 <= a < b < self.chunks@.len() implies
                (#[trigger] self.chunks@[a]).chunk.chunk_position
                    != (#[trigger] self.chunks@[b]).chunk.chunk_position by {
                assert(self.chunks@[a].chunk.chunk_position == pre.chunks@[a].chunk.chunk_position);
                assert(self.chunks@[b].chunk.chunk_position == pre.chunks@[b].chunk.chunk_position);
            }
        }
    }

    /// A worker executes a `ChunkMesh` task: recomputes the cached mesh of
    /// every face/layer slice of the chunk at `position` against the current
    /// world state, leaving every slot exactly the greedy mesh of the
    /// chunk's blocks and the neighbour planes the world shows it. A no-op
    /// while the chunk is not resident.
    #[verifier::rlimit(100)]
    #[verifier::spinoff_prover]
    pub fn complete_chunk_mesh(&mut self, position: ChunkPos)
        requires
            old(self).wf(),
        ensures
            final(self).wf(),
            final(self).players == old(self).players,
            final(self).next_player_id == old(self).next_player_id,
            final(self).chunk_load_jobs == old(self).chunk_load_jobs,
            final(self).chunk_unload_jobs == old(self).chunk_unload_jobs,
            final(self).task_queue == old(self).task_queue,
            final(self).pending_generates == old(self).pending_generates,
            !old(self).has_chunk(position) ==> final(self).chunks == old(self).chunks,
            old(self).has_chunk(position) ==> ({
                let idx = old(self).chunk_index_of(position);
                let chunk0 = old(self).chunks@[idx].chunk;
                &&& final(self).chunks@.len() == old(self).chunks@.len()
                &&& forall|j: int| 0 <= j < old(self).chunks@.len() && j != idx
                    ==> final(self).chunks@[j] == old(self).chunks@[j]
                &&& final(self).chunks@[idx].chunk.blocks == chunk0.blocks
                &&& final(self).chunks@[idx].chunk.chunk_position == chunk0.chunk_position
                &&& final(self).chunks@[idx].chunk.block_position == chunk0.block_position
                &&& final(self).chunks@[idx].load_count == old(self).chunks@[idx].load_count
                &&& forall|f: int, l: int| 0 <= f < 6 && 0 <= l < 32
                    ==> final(self).chunks@[idx].chunk.chunk_mesh@[#[trigger] layer_slot(
                        spec_face_of_index(f),
                        l,
                    )]@ == spec_layer_mesh(
                        world_layer_ctx(*old(self), chunk0, spec_face_of_index(f), l),
                        chunk0.block_position,
                    )
            }),
    {
        let i = match self.find_chunk_index(position) {
            Some(i) => i,
            None => {
                return ;
            },
        };
        proof {
            let ci = old(self).chunk_index_of(position);
            assert(old(self).has_chunk(position));
            assert(old(self).chunk_matches(ci, position));
            assert forall|j: int| old(self).chunk_matches(j, position) implies j == i as int by {
                if j != i as int {
                    if j < i as int {
                        assert(old(self).chunks@[j].chunk.chunk_position
                            != old(self).chunks@[i as int].chunk.chunk_position);
                    } else {
                        assert(old(self).chunks@[i as int].chunk.chunk_position
                            != old(self).chunks@[j].chunk.chunk_position);
                    }
                }
            }
            assert(ci == i as int);
        }
        let ghost orig = *old(self);
        let ghost chunk0 = old(self).chunks@[i as int].chunk;
        let mut vm = VisitedBlockMap::new();
        let mut fi: usize = 0;
        while fi < 6
            invariant
                fi <= 6,
                i < self.chunks@.len(),
                self.wf(),
                vm.wf(),
                orig == *old(self),
                orig.wf(),
                chunk0 == orig.chunks@[i as int].chunk,
                self.players == old(self).players,
                self.next_player_id == old(self).next_player_id,
                self.chunk_load_jobs == old(self).chunk_load_jobs,
                self.chunk_unload_jobs == old(self).chunk_unload_jobs,
                self.task_queue == old(self).task_queue,
                self.pending_generates == old(self).pending_generates,
                self.chunks@.len() == orig.chunks@.len(),
                forall|j: int| 0 <= j < orig.chunks@.len() && j != i as int
                    ==> self.chunks@[j] == orig.chunks@[j],
                self.chunks@[i as int].chunk.blocks == chunk0.blocks,
                self.chunks@[i as int].chunk.chunk_position == chunk0.chunk_position,
                self.chunks@[i as int].chunk.block_position == chunk0.block_position,
                self.chunks@[i as int].load_count == orig.chunks@[i as int].load_count,
                forall|f: int, l: int| 0 <= f < fi as int && 0 <= l < 32
                    ==> self.chunks@[i as int].chunk.chunk_mesh@[#[trigger] layer_slot(
                        spec_face_of_index(f),
                        l,
                    )]@ == spec_layer_mesh(
                        world_layer_ctx(orig, chunk0, spec_face_of_index(f), l),
                        chunk0.block_position,
                    ),
            decreases 6 - fi,
        {
            let mut layer: usize = 0;
            while layer < CHUNK_SIZE
                invariant
                    layer <= 32,
                    fi < 6,
                    i < self.chunks@.len(),
                    self.wf(),
                    vm.wf(),
                    orig == *old(self),
                    orig.wf(),
                    chunk0 == orig.chunks@[i as int].chunk,
                    self.players == old(self).players,
                    self.next_player_id == old(self).next_player_id,
                    self.chunk_load_jobs == old(self).chunk_load_jobs,
                    self.chunk_unload_jobs == old(self).chunk_unload_jobs,
                    self.task_queue == old(self).task_queue,
                    self.pending_generates == old(self).pending_generates,
                    self.chunks@.len() == orig.chunks@.len(),
                    forall|j: int| 0 <= j < orig.chunks@.len() && j != i as int
                        ==> self.chunks@[j] == orig.chunks@[j],
                    self.chunks@[i as int].chunk.blocks == chunk0.blocks,
                    self.chunks@[i as int].chunk.chunk_position == chunk0.chunk_position,
                    self.chunks@[i as int].chunk.block_position == chunk0.block_position,
                    self.chunks@[i as int].load_count == orig.chunks@[i as int].load_count,
                    forall|f: int, l: int|
                        (0 <= f < fi as int && 0 <= l < 32) || (f == fi as int && 0 <= l
                            < layer as int)
                        ==> self.chunks@[i as int].chunk.chunk_mesh@[#[trigger] layer_slot(
                            spec_face_of_index(f),
                            l,
                        )]@ == spec_layer_mesh(
                            world_layer_ctx(orig, chunk0, spec_face_of_index(f), l),
                            chunk0.block_position,
                        ),
                decreases 32 - layer,
            {
                let face2 = BlockFace::from_index(fi);
                let ghost w_cur = *self;
                let ghost chunk_cur = w_cur.chunks@[i as int].chunk;
                self.remesh_slice(i, face2, layer, &mut vm);
                proof {
                    lemma_plane_seq_same_blocks(
                        orig,
                        w_cur,
                        chunk0,
                        chunk_cur,
                        face2,
                        layer as int,
                    );
                    assert(world_layer_ctx(w_cur, chunk_cur, face2, layer as int)
                        == world_layer_ctx(orig, chunk0, face2, layer as int));
                    assert(self.chunks@[i as int].chunk.chunk_mesh@[layer_slot(
                        face2,
                        layer as int,
                    )]@ == spec_layer_mesh(
                        world_layer_ctx(orig, chunk0, face2, layer as int),
                        chunk0.block_position,
                    ));
                    assert forall|f: int, l: int|
                        (0 <= f < fi as int && 0 <= l < 32) || (f == fi as int && 0 <= l
                            <= layer as int) implies self.chunks@[i as int].chunk.chunk_mesh@[
                        #[trigger] layer_slot(spec_face_of_index(f), l)]@ == spec_layer_mesh(
                        world_layer_ctx(orig, chunk0, spec_face_of_index(f), l),
                        chunk0.block_position,
                    ) by {
                        if f == fi as int && l == layer as int {
                        } else {
                            assert(layer_slot(spec_face_of_index(f), l) != layer_slot(
                                face2,
                                layer as int,
                            ));
                            assert(self.chunks@[i as int].chunk.chunk_mesh@[layer_slot(
                                spec_face_of_index(f),
                                l,
                            )] == w_cur.chunks@[i as int].chunk.chunk_mesh@[layer_slot(
                                spec_face_of_index(f),
                                l,
                            )]);
                        }
                    }
                }
                layer += 1;
            }
            fi += 1;
        }
    }

    /// One step of `mesh_update_adjacent`'s neighbour pass: remeshes the
    /// facing slice of the chunk owning the block behind face `fi` of
    /// `block`, if that chunk is resident, and keeps every previously
    /// established slice fact and the frame intact.
    #[verifier::rlimit(100)]
    #[verifier::spinoff_prover]
    fn remesh_adjacent_neighbor(
        &mut self,
        block: BlockPos,
        fi: usize,
        vm: &mut VisitedBlockMap,
        Ghost(orig): Ghost<World>,
        Ghost(own_idx): Ghost<int>,
    )
        requires
            fi < 6,
            old(self).wf(),
            old(vm).wf(),
            orig.wf(),
            -0x4000_0000_0000_0000 <= block.x <= 0x4000_0000_0000_0000,
            -0x4000_0000_0000_0000 <= block.y <= 0x4000_0000_0000_0000,
            -0x4000_0000_0000_0000 <= block.z <= 0x4000_0000_0000_0000,
            old(self).chunks@.len() == orig.chunks@.len(),
            forall|j: int| 0 <= j < orig.chunks@.len()
                ==> (#[trigger] old(self).chunks@[j]).chunk.blocks
                        == orig.chunks@[j].chunk.blocks
                    && old(self).chunks@[j].chunk.chunk_position
                        == orig.chunks@[j].chunk.chunk_position
                    && old(self).chunks@[j].load_count == orig.chunks@[j].load_count,
            orig.has_chunk(block_chunk_pos(block)) ==> 0 <= own_idx < old(self).chunks@.len()
                && own_idx == orig.chunk_index_of(block_chunk_pos(block))
                && own_slices_meshed(*old(self), orig, own_idx, block),
            forall|f: int| 0 <= f < fi as int ==> neighbor_slice_meshed(
                *old(self),
                orig,
                block,
                f,
            ),
            forall|j: int, s: int|
                0 <= j < orig.chunks@.len() && 0 <= s < 192 && !adjacent_slot_touched(
                    orig,
                    block,
                    j,
                    s,
                ) ==> old(self).chunks@[j].chunk.chunk_mesh@[s]
                    == orig.chunks@[j].chunk.chunk_mesh@[s],
        ensures
            final(self).wf(),
            final(vm).wf(),
            final(self).players == old(self).players,
            final(self).next_player_id == old(self).next_player_id,
            final(self).chunk_load_jobs == old(self).chunk_load_jobs,
            final(self).chunk_unload_jobs == old(self).chunk_unload_jobs,
            final(self).task_queue == old(self).task_queue,
            final(self).pending_generates == old(self).pending_generates,
            final(self).chunks@.len() == orig.chunks@.len(),
            forall|j: int| 0 <= j < orig.chunks@.len()
                ==> (#[trigger] final(self).chunks@[j]).chunk.blocks
                        == orig.chunks@[j].chunk.blocks
                    && final(self).chunks@[j].chunk.chunk_position
                        == orig.chunks@[j].chunk.chunk_position
                    && final(self).chunks@[j].load_count == orig.chunks@[j].load_count,
            orig.has_chunk(block_chunk_pos(block)) ==> own_slices_meshed(
                *final(self),
                orig,
                own_idx,
                block,
            ),
            forall|f: int| 0 <= f < fi as int + 1 ==> neighbor_slice_meshed(
                *final(self),
                orig,
                block,
                f,
            ),
            forall|j: int, s: int|
                0 <= j < orig.chunks@.len() && 0 <= s < 192 && !adjacent_slot_touched(
                    orig,
                    block,
                    j,
                    s,
                ) ==> final(self).chunks@[j].chunk.chunk_mesh@[s]
                    == orig.chunks@[j].chunk.chunk_mesh@[s],
    {
        let face = BlockFace::from_index(fi);
        // the chunk on the other side of this face of the block
        let offset_block = block.minus(face.block_pos_offset());
        proof {
            lemma_chunk_coord_fits(offset_block.x as int);
            lemma_chunk_coord_fits(offset_block.y as int);
            lemma_chunk_coord_fits(offset_block.z as int);
            assert(offset_block == adjacent_offset_block(block, fi as int));
        }
        let (ncp, nlocal) = offset_block.as_chunk_block_pos();
        proof {
            assert(ncp == block_chunk_pos(adjacent_offset_block(block, fi as int)));
            assert(nlocal == block_local_pos(adjacent_offset_block(block, fi as int)));
        }
        match self.find_chunk_index(ncp) {
            Some(j) => {
                proof {
                    // the found index is the position's unique index in the
                    // original world too: positions never change here
                    assert(orig.chunks@[j as int].chunk.chunk_position == ncp);
                    assert(orig.chunk_matches(j as int, ncp));
                    assert(orig.has_chunk(ncp));
                    assert forall|k: int| orig.chunk_matches(k, ncp) implies j as int == k by {
                        if k != j as int {
                            if k < j as int {
                                assert(orig.chunks@[k].chunk.chunk_position
                                    != orig.chunks@[j as int].chunk.chunk_position);
                            } else {
                                assert(orig.chunks@[j as int].chunk.chunk_position
                                    != orig.chunks@[k].chunk.chunk_position);
                            }
                        }
                    }
                    assert(orig.chunk_index_of(ncp) == j as int);
                }
                let layer = nlocal.get_face_component(face) as usize;
                proof {
                    assert(layer as int == adjacent_layer(block, fi as int));
                }
                let ghost wb = *self;
                self.remesh_slice(j, face, layer, &mut *vm);
                proof {
                    assert forall|k: int| 0 <= k < orig.chunks@.len() implies
                        (#[trigger] wb.chunks@[k]).chunk.blocks == orig.chunks@[k].chunk.blocks
                            && wb.chunks@[k].chunk.chunk_position
                                == orig.chunks@[k].chunk.chunk_position
                            && wb.chunks@[k].chunk.block_position
                                == orig.chunks@[k].chunk.block_position by {
                        assert(wb.chunks@[k].chunk.wf());
                        assert(orig.chunks@[k].chunk.wf());
                    }
                    assert(adjacent_step_rel(orig, wb, *self, block, fi as int, j as int));
                    lemma_adjacent_step_neighbors(orig, wb, *self, block, fi as int, j as int);
                    lemma_adjacent_step_own(orig, wb, *self, block, fi as int, own_idx, j as int);
                    lemma_adjacent_step_frame(orig, wb, *self, block, fi as int, j as int);
                }
            },
            None => {
                proof {
                    assert forall|k: int| 0 <= k < orig.chunks@.len() implies
                        !orig.chunk_matches(k, ncp) by {
                        assert(!self.chunk_matches(k, ncp));
                        assert(self.chunks@[k].chunk.chunk_position
                            == orig.chunks@[k].chunk.chunk_position);
                    }
                    assert(!orig.has_chunk(ncp));
                    assert(neighbor_slice_meshed(*self, orig, block, fi as int));
                }
            },
        }
    }

    /// Remeshes exactly the face/layer slices that border one modified
    /// block: the six slices of the block's own chunk through its local
    /// coordinate, plus the facing slice in each of the up-to-six
    /// neighbouring chunks — constant work, independent of chunk size, in
    /// contrast to a full `ChunkMesh`. All twelve slices end up exactly the
    /// greedy mesh of the current block state; every other mesh slot of
    /// every chunk is untouched, and no block data changes.
    #[verifier::rlimit(100)]
    #[verifier::spinoff_prover]
    pub fn mesh_update_adjacent(&mut self, block: BlockPos)
        requires
            old(self).wf(),
            -0x4000_0000_0000_0000 <= block.x <= 0x4000_0000_0000_0000,
            -0x4000_0000_0000_0000 <= block.y <= 0x4000_0000_0000_0000,
            -0x4000_0000_0000_0000 <= block.z <= 0x4000_0000_0000_0000,
        ensures
            final(self).wf(),
            final(self).players == old(self).players,
            final(self).next_player_id == old(self).next_player_id,
            final(self).chunk_load_jobs == old(self).chunk_load_jobs,
            final(self).chunk_unload_jobs == old(self).chunk_unload_jobs,
            final(self).task_queue == old(self).task_queue,
            final(self).pending_generates == old(self).pending_generates,
            final(self).chunks@.len() == old(self).chunks@.len(),
            forall|j: int| 0 <= j < old(self).chunks@.len()
                ==> (#[trigger] final(self).chunks@[j]).chunk.blocks
                        == old(self).chunks@[j].chunk.blocks
                    && final(self).chunks@[j].chunk.chunk_position
                        == old(self).chunks@[j].chunk.chunk_position
                    && final(self).chunks@[j].load_count == old(self).chunks@[j].load_count,
            old(self).has_chunk(block_chunk_pos(block)) ==> own_slices_meshed(
                *final(self),
                *old(self),
                old(self).chunk_index_of(block_chunk_pos(block)),
                block,
            ),
            forall|f: int| 0 <= f < 6 ==> neighbor_slice_meshed(
                *final(self),
                *old(self),
                block,
                f,
            ),
            forall|j: int, s: int|
                0 <= j < old(self).chunks@.len() && 0 <= s < 192 && !adjacent_slot_touched(
                    *old(self),
                    block,
                    j,
                    s,
                ) ==> final(self).chunks@[j].chunk.chunk_mesh@[s]
                    == old(self).chunks@[j].chunk.chunk_mesh@[s],
    {
        proof {
            lemma_chunk_coord_fits(block.x as int);
            lemma_chunk_coord_fits(block.y as int);
            lemma_chunk_coord_fits(block.z as int);
        }
        let (cp, local) = block.as_chunk_block_pos();
        let ghost orig = *old(self);
        let ghost own_idx: int = if orig.has_chunk(block_chunk_pos(block)) {
            orig.chunk_index_of(block_chunk_pos(block))
        } else {
            -1
        };
        let ghost lp = block_local_pos(block);
        proof {
            assert(local == lp);
        }
        let mut vm = VisitedBlockMap::new();
        match self.find_chunk_index(cp) {
            Some(i) => {
                proof {
                    assert(orig.chunk_matches(i as int, cp));
                    assert(orig.has_chunk(cp));
                    assert forall|j: int| orig.chunk_matches(j, cp) implies j == i as int by {
                        if j != i as int {
                            if j < i as int {
                                assert(orig.chunks@[j].chunk.chunk_position
                                    != orig.chunks@[i as int].chunk.chunk_position);
                            } else {
                                assert(orig.chunks@[i as int].chunk.chunk_position
                                    != orig.chunks@[j].chunk.chunk_position);
                            }
                        }
                    }
                    assert(own_idx == i as int);
                }
                let ghost chunk0 = orig.chunks@[i as int].chunk;
                let ghost w1 = *self;
                self.remesh_slice(i, BlockFace::XPos, local.x as usize, &mut vm);
                proof {
                    lemma_plane_seq_same_blocks(
                        orig, w1, chunk0, w1.chunks@[i as int].chunk, BlockFace::XPos, local.x as int,
                    );
                }
                let ghost w2 = *self;
                self.remesh_slice(i, BlockFace::XNeg, local.x as usize, &mut vm);
                proof {
                    lemma_plane_seq_same_blocks(
                        orig, w2, chunk0, w2.chunks@[i as int].chunk, BlockFace::XNeg, local.x as int,
                    );
                }
                let ghost w3 = *self;
                self.remesh_slice(i, BlockFace::YPos, local.y as usize, &mut vm);
                proof {
                    lemma_plane_seq_same_blocks(
                        orig, w3, chunk0, w3.chunks@[i as int].chunk, BlockFace::YPos, local.y as int,
                    );
                }
                let ghost w4 = *self;
                self.remesh_slice(i, BlockFace::YNeg, local.y as usize, &mut vm);
                proof {
                    lemma_plane_seq_same_blocks(
                        orig, w4, chunk0, w4.chunks@[i as int].chunk, BlockFace::YNeg, local.y as int,
                    );
                }
                let ghost w5 = *self;
                self.remesh_slice(i, BlockFace::ZPos, local.z as usize, &mut vm);
                proof {
                    lemma_plane_seq_same_blocks(
                        orig, w5, chunk0, w5.chunks@[i as int].chunk, BlockFace::ZPos, local.z as int,
                    );
                }
                let ghost w6 = *self;
                self.remesh_slice(i, BlockFace::ZNeg, local.z as usize, &mut vm);
                proof {
                    lemma_plane_seq_same_blocks(
                        orig, w6, chunk0, w6.chunks@[i as int].chunk, BlockFace::ZNeg, local.z as int,
                    );
                    assert(own_slices_meshed(*self, orig, i as int, block));
                    // frame after the six own-chunk slices: nothing but the
                    // block's own slots has been written
                    assert forall|j: int, s: int|
                        0 <= j < orig.chunks@.len() && 0 <= s < 192 && !adjacent_slot_touched(
                            orig,
                            block,
                            j,
                            s,
                        ) implies self.chunks@[j].chunk.chunk_mesh@[s]
                        == orig.chunks@[j].chunk.chunk_mesh@[s] by {
                        if j == i as int {
                            assert(s != layer_slot(BlockFace::XPos, lp.x as int));
                            assert(s != layer_slot(BlockFace::XNeg, lp.x as int));
                            assert(s != layer_slot(BlockFace::YPos, lp.y as int));
                            assert(s != layer_slot(BlockFace::YNeg, lp.y as int));
                            assert(s != layer_slot(BlockFace::ZPos, lp.z as int));
                            assert(s != layer_slot(BlockFace::ZNeg, lp.z as int));
                            assert(self.chunks@[j].chunk.chunk_mesh@[s]
                                == w6.chunks@[j].chunk.chunk_mesh@[s]);
                            assert(w6.chunks@[j].chunk.chunk_mesh@[s]
                                == w5.chunks@[j].chunk.chunk_mesh@[s]);
                            assert(w5.chunks@[j].chunk.chunk_mesh@[s]
                                == w4.chunks@[j].chunk.chunk_mesh@[s]);
                            assert(w4.chunks@[j].chunk.chunk_mesh@[s]
                                == w3.chunks@[j].chunk.chunk_mesh@[s]);
                            assert(w3.chunks@[j].chunk.chunk_mesh@[s]
                                == w2.chunks@[j].chunk.chunk_mesh@[s]);
                            assert(w2.chunks@[j].chunk.chunk_mesh@[s]
                                == w1.chunks@[j].chunk.chunk_mesh@[s]);
                        } else {
                            assert(self.chunks@[j] == w6.chunks@[j]);
                            assert(w6.chunks@[j] == w5.chunks@[j]);
                            assert(w5.chunks@[j] == w4.chunks@[j]);
                            assert(w4.chunks@[j] == w3.chunks@[j]);
                            assert(w3.chunks@[j] == w2.chunks@[j]);
                            assert(w2.chunks@[j] == w1.chunks@[j]);
                        }
                    }
                }
            },
            None => {
                proof {
                    assert(!orig.has_chunk(cp));
                }
            },
        }
        let mut fi: usize = 0;
        while fi < 6
            invariant
                fi <= 6,
                self.wf(),
                vm.wf(),
                orig == *old(self),
                orig.wf(),
                -0x4000_0000_0000_0000 <= block.x <= 0x4000_0000_0000_0000,
                -0x4000_0000_0000_0000 <= block.y <= 0x4000_0000_0000_0000,
                -0x4000_0000_0000_0000 <= block.z <= 0x4000_0000_0000_0000,
                self.players == old(self).players,
                self.next_player_id == old(self).next_player_id,
                self.chunk_load_jobs == old(self).chunk_load_jobs,
                self.chunk_unload_jobs == old(self).chunk_unload_jobs,
                self.task_queue == old(self).task_queue,
                self.pending_generates == old(self).pending_generates,
                self.chunks@.len() == orig.chunks@.len(),
                forall|j: int| 0 <= j < orig.chunks@.len()
                    ==> (#[trigger] self.chunks@[j]).chunk.blocks
                            == orig.chunks@[j].chunk.blocks
                        && self.chunks@[j].chunk.chunk_position
                            == orig.chunks@[j].chunk.chunk_position
                        && self.chunks@[j].load_count == orig.chunks@[j].load_count,
                orig.has_chunk(block_chunk_pos(block)) ==> 0 <= own_idx < self.chunks@.len()
                    && own_idx == orig.chunk_index_of(block_chunk_pos(block))
                    && own_slices_meshed(*self, orig, own_idx, block),
                forall|f: int| 0 <= f < fi as int ==> neighbor_slice_meshed(
                    *self,
                    orig,
                    block,
                    f,
                ),
                forall|j: int, s: int|
                    0 <= j < orig.chunks@.len() && 0 <= s < 192 && !adjacent_slot_touched(
                        orig,
                        block,
                        j,
                        s,
                    ) ==> self.chunks@[j].chunk.chunk_mesh@[s]
                        == orig.chunks@[j].chunk.chunk_mesh@[s],
            decreases 6 - fi,
        {
            self.remesh_adjacent_neighbor(block, fi, &mut vm, Ghost(orig), Ghost(own_idx));
            fi += 1;
        }
    }
}

} // verus!
