//! Background job records: the tasks handed to worker threads, the pending
//! load-job records that defer meshing until a whole box of chunks has
//! generated, and the reconciliation rule for completed tasks.

use vstd::prelude::*;
use crate::coords::ChunkPos;
use crate::block::BlockFace;
use crate::chunk::chunk_pos_in_range;

verus! {

/// One unit of background work. The owner enqueues tasks; workers execute
/// them against the world and report the consumed task back on a completion
/// queue.
#[derive(Clone, Copy, PartialEq, Eq, Structural, Debug)]
pub enum Task {
    /// Generate the chunk at this position and insert it into the index.
    GenerateChunk(ChunkPos),
    /// Recompute the full cached mesh of one chunk.
    ChunkMesh(ChunkPos),
    /// Remesh one face of every chunk in a half-open box, at a load boundary.
    ChunkMeshFace { min_chunk: ChunkPos, max_chunk: ChunkPos, face: BlockFace },
    /// Decrement the load count of every chunk in a half-open box.
    UnloadChunks { min_chunk: ChunkPos, max_chunk: ChunkPos },
}

/// A boundary remesh recorded beside a load job, to run once the job's last
/// chunk has generated.
#[derive(Clone, Copy, PartialEq, Eq, Structural, Debug)]
pub struct ChunkMeshFaceData {
    pub min_chunk: ChunkPos,
    pub max_chunk: ChunkPos,
    pub face: BlockFace,
}

impl ChunkMeshFaceData {
    pub fn into_task(&self) -> (r: Task)
        ensures
            r == (Task::ChunkMeshFace {
                min_chunk: self.min_chunk,
                max_chunk: self.max_chunk,
                face: self.face,
            }),
    {
        Task::ChunkMeshFace {
            min_chunk: self.min_chunk,
            max_chunk: self.max_chunk,
            face: self.face,
        }
    }
}

/// A pending load or unload job over a half-open box of chunk coordinates.
/// `remaining_chunks` counts the `GenerateChunk` completions still owed;
/// when it reaches zero the deferred mesh work for the box is enqueued.
#[derive(Clone, Copy, PartialEq, Eq, Structural, Debug)]
pub struct ChunkLoadJob {
    pub min_chunk: ChunkPos,
    pub max_chunk: ChunkPos,
    pub remaining_chunks: u64,
    pub mesh_face_task: Option<ChunkMeshFaceData>,
}

/// Membership of a chunk coordinate in a half-open box.
pub open spec fn box_contains(min_chunk: ChunkPos, max_chunk: ChunkPos, c: ChunkPos) -> bool {
    &&& min_chunk.x <= c.x < max_chunk.x
    &&& min_chunk.y <= c.y < max_chunk.y
    &&& min_chunk.z <= c.z < max_chunk.z
}

impl ChunkLoadJob {
    pub open spec fn spec_contains_chunk(self, chunk: ChunkPos) -> bool {
        box_contains(self.min_chunk, self.max_chunk, chunk)
    }

    pub fn contains_chunk(&self, chunk: ChunkPos) -> (r: bool)
        ensures
            r == self.spec_contains_chunk(chunk),
    {
        chunk.x >= self.min_chunk.x && chunk.y >= self.min_chunk.y && chunk.z >= self.min_chunk.z
            && chunk.x < self.max_chunk.x && chunk.y < self.max_chunk.y && chunk.z < self.max_chunk.z
    }

    /// Whether a `GenerateChunk` completion for `chunk` counts against this job.
    pub open spec fn spec_matches(self, chunk: ChunkPos) -> bool {
        self.spec_contains_chunk(chunk) && self.remaining_chunks >= 1
    }

    /// The job with one fewer chunk still owed.
    pub open spec fn spec_decremented(self) -> ChunkLoadJob {
        ChunkLoadJob {
            min_chunk: self.min_chunk,
            max_chunk: self.max_chunk,
            remaining_chunks: (self.remaining_chunks - 1) as u64,
            mesh_face_task: self.mesh_face_task,
        }
    }
}

/// Reconciliation of one `GenerateChunk` completion against a job list: the
/// first job whose box contains the chunk and that still owes completions is
/// decremented; a job thereby reaching zero is removed and returned as
/// finished.
pub open spec fn on_generate(jobs: Seq<ChunkLoadJob>, chunk: ChunkPos) -> (Seq<ChunkLoadJob>, Option<ChunkLoadJob>)
    decreases jobs.len(),
{
    if jobs.len() == 0 {
        (jobs, None)
    } else if jobs.first().spec_matches(chunk) {
        if jobs.first().remaining_chunks == 1 {
            (jobs.drop_first(), Some(jobs.first()))
        } else {
            (seq![jobs.first().spec_decremented()] + jobs.drop_first(), None)
        }
    } else {
        let rest = on_generate(jobs.drop_first(), chunk);
        (seq![jobs.first()] + rest.0, rest.1)
    }
}

/// The number of jobs finished by a sequence of `GenerateChunk` completions.
pub open spec fn count_finished(jobs: Seq<ChunkLoadJob>, cs: Seq<ChunkPos>) -> int
    decreases cs.len(),
{
    if cs.len() == 0 {
        0
    } else {
        let step = on_generate(jobs, cs.first());
        (if step.1 is Some {
            1int
        } else {
            0int
        }) + count_finished(step.0, cs.drop_first())
    }
}

proof fn lemma_count_finished_no_jobs(cs: Seq<ChunkPos>)
    ensures
        count_finished(Seq::empty(), cs) == 0,
    decreases cs.len(),
{
    if cs.len() > 0 {
        lemma_count_finished_no_jobs(cs.drop_first());
    }
}

proof fn lemma_single_job_aux(job: ChunkLoadJob, cs: Seq<ChunkPos>)
    requires
        1 <= job.remaining_chunks == cs.len(),
        forall|i: int| 0 <= i < cs.len() ==> job.spec_contains_chunk(#[trigger] cs[i]),
    ensures
        count_finished(seq![job], cs) == 1,
    decreases cs.len(),
{
    let jobs = seq![job];
    assert(jobs.first() == job);
    assert(job.spec_contains_chunk(cs[0]));
    if job.remaining_chunks == 1 {
        assert(on_generate(jobs, cs.first()) == (jobs.drop_first(), Some(job)));
        assert(jobs.drop_first() =~= Seq::<ChunkLoadJob>::empty());
        lemma_count_finished_no_jobs(cs.drop_first());
    } else {
        let job2 = job.spec_decremented();
        assert(on_generate(jobs, cs.first()).0 =~= seq![job2]);
        assert(on_generate(jobs, cs.first()).1 is None);
        assert forall|i: int| 0 <= i < cs.drop_first().len()
            implies job2.spec_contains_chunk(#[trigger] cs.drop_first()[i]) by {
            assert(cs.drop_first()[i] == cs[i + 1]);
        }
        lemma_single_job_aux(job2, cs.drop_first());
    }
}

/// Completing every `GenerateChunk` task of an N-chunk load job — the
/// completions may arrive in any order — finishes that job exactly once:
/// exactly one deferred mesh enqueue, never zero, never more than one.
pub proof fn lemma_scheduler_reconciliation(job: ChunkLoadJob, cs: Seq<ChunkPos>)
    requires
        1 <= job.remaining_chunks == cs.len(),
        forall|i: int| 0 <= i < cs.len() ==> job.spec_contains_chunk(#[trigger] cs[i]),
    ensures
        count_finished(seq![job], cs) == 1,
{
    lemma_single_job_aux(job, cs);
}

// ---------------------------------------------------------------------------
// Enumerating a half-open box of chunk coordinates.
// ---------------------------------------------------------------------------

/// The chunk coordinates of the box `[min, max)`, appended to `acc` in
/// x-major raster order, starting from `(x, y, z)`.
pub open spec fn box_pos_from(min: ChunkPos, max: ChunkPos, acc: Seq<ChunkPos>, x: int, y: int, z: int) -> Seq<ChunkPos>
    decreases max.x - x, max.y - y, max.z - z,
{
    if x >= max.x {
        acc
    } else if y >= max.y {
        box_pos_from(min, max, acc, x + 1, min.y as int, min.z as int)
    } else if z >= max.z {
        box_pos_from(min, max, acc, x, y + 1, min.z as int)
    } else {
        box_pos_from(
            min,
            max,
            acc.push(ChunkPos { x: x as i64, y: y as i64, z: z as i64 }),
            x,
            y,
            z + 1,
        )
    }
}

/// The chunk coordinates of the half-open box `[min, max)`.
pub open spec fn box_positions(min: ChunkPos, max: ChunkPos) -> Seq<ChunkPos> {
    box_pos_from(min, max, Seq::empty(), min.x as int, min.y as int, min.z as int)
}

proof fn lemma_box_pos_from_props(min: ChunkPos, max: ChunkPos, acc: Seq<ChunkPos>, x: int, y: int, z: int)
    requires
        chunk_pos_in_range(min),
        chunk_pos_in_range(max),
        forall|k: int| 0 <= k < acc.len()
            ==> box_contains(min, max, #[trigger] acc[k]) && chunk_pos_in_range(acc[k]),
        min.x <= x,
        x <= max.x || x == min.x,
        min.y <= y,
        y <= max.y || y == min.y,
        min.z <= z,
        z <= max.z || z == min.z,
    ensures
        forall|k: int| 0 <= k < box_pos_from(min, max, acc, x, y, z).len()
            ==> box_contains(min, max, #[trigger] box_pos_from(min, max, acc, x, y, z)[k])
                && chunk_pos_in_range(box_pos_from(min, max, acc, x, y, z)[k]),
    decreases max.x - x, max.y - y, max.z - z,
{
    let result = box_pos_from(min, max, acc, x, y, z);
    if x >= max.x {
        assert forall|k: int| 0 <= k < result.len() implies
            box_contains(min, max, #[trigger] result[k]) && chunk_pos_in_range(result[k]) by {
            assert(result[k] == acc[k]);
        }
    } else if y >= max.y {
        lemma_box_pos_from_props(min, max, acc, x + 1, min.y as int, min.z as int);
        assert forall|k: int| 0 <= k < result.len() implies
            box_contains(min, max, #[trigger] result[k]) && chunk_pos_in_range(result[k]) by {
            assert(result[k] == box_pos_from(min, max, acc, x + 1, min.y as int, min.z as int)[k]);
        }
    } else if z >= max.z {
        lemma_box_pos_from_props(min, max, acc, x, y + 1, min.z as int);
        assert forall|k: int| 0 <= k < result.len() implies
            box_contains(min, max, #[trigger] result[k]) && chunk_pos_in_range(result[k]) by {
            assert(result[k] == box_pos_from(min, max, acc, x, y + 1, min.z as int)[k]);
        }
    } else {
        let p = ChunkPos { x: x as i64, y: y as i64, z: z as i64 };
        assert(box_contains(min, max, p) && chunk_pos_in_range(p));
        lemma_box_pos_from_props(min, max, acc.push(p), x, y, z + 1);
        assert forall|k: int| 0 <= k < result.len() implies
            box_contains(min, max, #[trigger] result[k]) && chunk_pos_in_range(result[k]) by {
            assert(result[k] == box_pos_from(min, max, acc.push(p), x, y, z + 1)[k]);
        }
    }
}

/// Every enumerated coordinate lies in the box, and stays within the safe
/// chunk coordinate range whenever the box corners do.
pub proof fn lemma_box_positions_props(min: ChunkPos, max: ChunkPos)
    requires
        chunk_pos_in_range(min),
        chunk_pos_in_range(max),
    ensures
        forall|k: int| 0 <= k < box_positions(min, max).len()
            ==> box_contains(min, max, #[trigger] box_positions(min, max)[k])
                && chunk_pos_in_range(box_positions(min, max)[k]),
{
    lemma_box_pos_from_props(min, max, Seq::empty(), min.x as int, min.y as int, min.z as int);
}

/// Enumerates the chunk coordinates of the half-open box `[min, max)`.
pub fn box_positions_vec(min: ChunkPos, max: ChunkPos) -> (r: Vec<ChunkPos>)
    requires
        chunk_pos_in_range(min),
        chunk_pos_in_range(max),
    ensures
        r@ == box_positions(min, max),
{
    let ghost target = box_positions(min, max);
    let mut r: Vec<ChunkPos> = Vec::new();
    let mut x: i64 = min.x;
    while x < max.x
        invariant
            chunk_pos_in_range(min),
            chunk_pos_in_range(max),
            min.x <= x,
            x <= max.x || x == min.x,
            box_pos_from(min, max, r@, x as int, min.y as int, min.z as int) == target,
        decreases max.x - x,
    {
        let mut y: i64 = min.y;
        while y < max.y
            invariant
                chunk_pos_in_range(min),
                chunk_pos_in_range(max),
                min.x <= x < max.x,
                min.y <= y,
                y <= max.y || y == min.y,
                box_pos_from(min, max, r@, x as int, y as int, min.z as int) == target,
            decreases max.y - y,
        {
            let mut z: i64 = min.z;
            while z < max.z
                invariant
                    chunk_pos_in_range(min),
                    chunk_pos_in_range(max),
                    min.x <= x < max.x,
                    min.y <= y < max.y,
                    min.z <= z,
                    z <= max.z || z == min.z,
                    box_pos_from(min, max, r@, x as int, y as int, z as int) == target,
                decreases max.z - z,
            {
                r.push(ChunkPos { x, y, z });
                z += 1;
            }
            y += 1;
        }
        x += 1;
    }
    r
}

// ---------------------------------------------------------------------------
// Reconciliation of completed tasks.
// ---------------------------------------------------------------------------

/// Reconciliation of one `UnloadChunks` completion: the first unload job
/// recorded for exactly this box is removed and returned.
pub open spec fn on_unload(jobs: Seq<ChunkLoadJob>, min: ChunkPos, max: ChunkPos) -> (Seq<ChunkLoadJob>, Option<ChunkLoadJob>)
    decreases jobs.len(),
{
    if jobs.len() == 0 {
        (jobs, None)
    } else if jobs.first().min_chunk == min && jobs.first().max_chunk == max {
        (jobs.drop_first(), Some(jobs.first()))
    } else {
        let rest = on_unload(jobs.drop_first(), min, max);
        (seq![jobs.first()] + rest.0, rest.1)
    }
}

/// The deferred work a finished load job enqueues: a full remesh of every
/// chunk of its box, then its boundary face remesh if one was recorded.
pub open spec fn finish_tasks(job: ChunkLoadJob) -> Seq<Task> {
    box_positions(job.min_chunk, job.max_chunk).map_values(|p: ChunkPos| Task::ChunkMesh(p))
        + (match job.mesh_face_task {
            Some(d) => seq![
                Task::ChunkMeshFace { min_chunk: d.min_chunk, max_chunk: d.max_chunk, face: d.face },
            ],
            None => Seq::<Task>::empty(),
        })
}

/// The job-and-queue state `poll_completed_tasks` folds over.
pub ghost struct PollState {
    pub load_jobs: Seq<ChunkLoadJob>,
    pub unload_jobs: Seq<ChunkLoadJob>,
    pub queue: Seq<Task>,
    pub update_mesh: bool,
}

/// Reconciliation of a single completed task: mesh completions mark the
/// world mesh dirty; a `GenerateChunk` completion counts against its load
/// job and, on finishing it, enqueues the job's deferred mesh work; an
/// `UnloadChunks` completion marks the mesh dirty, retires its job record
/// and enqueues the job's deferred face remesh.
pub open spec fn poll_step(st: PollState, t: Task) -> PollState {
    match t {
        Task::ChunkMesh(_) => PollState { update_mesh: true, ..st },
        Task::ChunkMeshFace { min_chunk: _, max_chunk: _, face: _ } => PollState {
            update_mesh: true,
            ..st
        },
        Task::GenerateChunk(c) => {
            let r = on_generate(st.load_jobs, c);
            match r.1 {
                Some(job) => PollState { load_jobs: r.0, queue: st.queue + finish_tasks(job), ..st },
                None => PollState { load_jobs: r.0, ..st },
            }
        },
        Task::UnloadChunks { min_chunk, max_chunk } => {
            let r = on_unload(st.unload_jobs, min_chunk, max_chunk);
            match r.1 {
                Some(job) => match job.mesh_face_task {
                    Some(d) => PollState {
                        unload_jobs: r.0,
                        queue: st.queue.push(
                            Task::ChunkMeshFace {
                                min_chunk: d.min_chunk,
                                max_chunk: d.max_chunk,
                                face: d.face,
                            },
                        ),
                        update_mesh: true,
                        ..st
                    },
                    None => PollState { unload_jobs: r.0, update_mesh: true, ..st },
                },
                None => PollState { unload_jobs: r.0, update_mesh: true, ..st },
            }
        },
    }
}

/// Reconciliation of a whole drained completion queue, in arrival order.
pub open spec fn poll_fold(st: PollState, ts: Seq<Task>) -> PollState
    decreases ts.len(),
{
    if ts.len() == 0 {
        st
    } else {
        poll_fold(poll_step(st, ts.first()), ts.drop_first())
    }
}

/// Peeling a prefix of jobs that a `GenerateChunk` completion does not
/// match.
pub proof fn lemma_on_generate_skip(jobs: Seq<ChunkLoadJob>, chunk: ChunkPos, i: int)
    requires
        0 <= i <= jobs.len(),
        forall|k: int| 0 <= k < i ==> !(#[trigger] jobs[k]).spec_matches(chunk),
    ensures
        on_generate(jobs, chunk).0 == jobs.take(i) + on_generate(jobs.skip(i), chunk).0,
        on_generate(jobs, chunk).1 == on_generate(jobs.skip(i), chunk).1,
    decreases i,
{
    if i == 0 {
        assert(jobs.skip(0) =~= jobs);
        assert(jobs.take(0) + on_generate(jobs.skip(0), chunk).0 =~= on_generate(jobs, chunk).0);
    } else {
        assert(!jobs[0].spec_matches(chunk));
        assert(jobs.first() == jobs[0]);
        let rest = jobs.drop_first();
        assert forall|k: int| 0 <= k < i - 1 implies !(#[trigger] rest[k]).spec_matches(chunk) by {
            assert(rest[k] == jobs[k + 1]);
        }
        lemma_on_generate_skip(rest, chunk, i - 1);
        assert(rest.skip(i - 1) =~= jobs.skip(i));
        assert(seq![jobs.first()] + (rest.take(i - 1) + on_generate(rest.skip(i - 1), chunk).0)
            =~= jobs.take(i) + on_generate(jobs.skip(i), chunk).0);
    }
}

/// Peeling a prefix of jobs that an `UnloadChunks` completion does not
/// match.
pub proof fn lemma_on_unload_skip(jobs: Seq<ChunkLoadJob>, min: ChunkPos, max: ChunkPos, i: int)
    requires
        0 <= i <= jobs.len(),
        forall|k: int| 0 <= k < i
            ==> !((#[trigger] jobs[k]).min_chunk == min && jobs[k].max_chunk == max),
    ensures
        on_unload(jobs, min, max).0 == jobs.take(i) + on_unload(jobs.skip(i), min, max).0,
        on_unload(jobs, min, max).1 == on_unload(jobs.skip(i), min, max).1,
    decreases i,
{
    if i == 0 {
        assert(jobs.skip(0) =~= jobs);
        assert(jobs.take(0) + on_unload(jobs.skip(0), min, max).0 =~= on_unload(jobs, min, max).0);
    } else {
        assert(!(jobs[0].min_chunk == min && jobs[0].max_chunk == max));
        let rest = jobs.drop_first();
        assert forall|k: int| 0 <= k < i - 1 implies
            !((#[trigger] rest[k]).min_chunk == min && rest[k].max_chunk == max) by {
            assert(rest[k] == jobs[k + 1]);
        }
        lemma_on_unload_skip(rest, min, max, i - 1);
        assert(rest.skip(i - 1) =~= jobs.skip(i));
        assert(seq![jobs.first()] + (rest.take(i - 1) + on_unload(rest.skip(i - 1), min, max).0)
            =~= jobs.take(i) + on_unload(jobs.skip(i), min, max).0);
    }
}


/// The reconciliation law applied to a load job as `load_chunks` records
/// it: completing one `GenerateChunk` per coordinate of the job's box — in
/// whatever order the workers finish — finishes the job exactly once.
pub proof fn lemma_load_job_reconciliation(min_chunk: ChunkPos, max_chunk: ChunkPos)
    requires
        chunk_pos_in_range(min_chunk),
        chunk_pos_in_range(max_chunk),
        1 <= box_positions(min_chunk, max_chunk).len() <= u64::MAX,
    ensures
        count_finished(
            seq![
                ChunkLoadJob {
                    min_chunk,
                    max_chunk,
                    remaining_chunks: box_positions(min_chunk, max_chunk).len() as u64,
                    mesh_face_task: None,
                },
            ],
            box_positions(min_chunk, max_chunk),
        ) == 1,
{
    lemma_box_positions_props(min_chunk, max_chunk);
    let job = ChunkLoadJob {
        min_chunk,
        max_chunk,
        remaining_chunks: box_positions(min_chunk, max_chunk).len() as u64,
        mesh_face_task: None,
    };
    lemma_scheduler_reconciliation(job, box_positions(min_chunk, max_chunk));
}


/// Draining completions in one poll or many changes nothing: reconciling a
/// concatenation equals reconciling the parts in turn, so however a batch
/// of completions is split across poll calls, the outcome is the same.
pub proof fn lemma_poll_fold_append(st: PollState, a: Seq<Task>, b: Seq<Task>)
    ensures
        poll_fold(st, a + b) == poll_fold(poll_fold(st, a), b),
    decreases a.len(),
{
    if a.len() == 0 {
        assert(a + b =~= b);
    } else {
        assert((a + b).first() == a.first());
        assert((a + b).drop_first() =~= a.drop_first() + b);
        lemma_poll_fold_append(poll_step(st, a.first()), a.drop_first(), b);
    }
}

/// With no load job on record, `GenerateChunk` completions reconcile to
/// nothing at all.
proof fn lemma_poll_generates_no_jobs(st: PollState, cs: Seq<ChunkPos>)
    requires
        st.load_jobs.len() == 0,
    ensures
        poll_fold(st, cs.map_values(|c: ChunkPos| Task::GenerateChunk(c))) == st,
    decreases cs.len(),
{
    let ts = cs.map_values(|c: ChunkPos| Task::GenerateChunk(c));
    if cs.len() > 0 {
        assert(ts.first() == Task::GenerateChunk(cs.first()));
        assert(on_generate(st.load_jobs, cs.first()) == (st.load_jobs, None::<ChunkLoadJob>));
        assert(poll_step(st, ts.first()) == st);
        assert(ts.drop_first() =~= cs.drop_first().map_values(
            |c: ChunkPos| Task::GenerateChunk(c),
        ));
        lemma_poll_generates_no_jobs(st, cs.drop_first());
    }
}

/// The reconciliation outcome of one N-chunk load job is the same for every
/// completion order: whatever order the job's N `GenerateChunk` completions
/// arrive in, the job record ends retired, the queue ends grown by exactly
/// the job's deferred mesh work — one enqueue, never zero, never more — and
/// nothing else changes.
pub proof fn lemma_poll_single_job(st: PollState, job: ChunkLoadJob, cs: Seq<ChunkPos>)
    requires
        st.load_jobs == seq![job],
        1 <= job.remaining_chunks == cs.len(),
        forall|i: int| 0 <= i < cs.len() ==> job.spec_contains_chunk(#[trigger] cs[i]),
    ensures
        ({
            let r = poll_fold(st, cs.map_values(|c: ChunkPos| Task::GenerateChunk(c)));
            &&& r.load_jobs == Seq::<ChunkLoadJob>::empty()
            &&& r.queue == st.queue + finish_tasks(job)
            &&& r.unload_jobs == st.unload_jobs
            &&& r.update_mesh == st.update_mesh
        }),
    decreases cs.len(),
{
    let ts = cs.map_values(|c: ChunkPos| Task::GenerateChunk(c));
    assert(ts.first() == Task::GenerateChunk(cs.first()));
    assert(st.load_jobs.first() == job);
    assert(job.spec_contains_chunk(cs[0]));
    let st1 = poll_step(st, ts.first());
    assert(ts.drop_first() =~= cs.drop_first().map_values(|c: ChunkPos| Task::GenerateChunk(c)));
    if job.remaining_chunks == 1 {
        assert(on_generate(st.load_jobs, cs.first()) == (st.load_jobs.drop_first(), Some(job)));
        assert(st1.load_jobs =~= Seq::<ChunkLoadJob>::empty());
        assert(st1.queue == st.queue + finish_tasks(job));
        lemma_poll_generates_no_jobs(st1, cs.drop_first());
    } else {
        let job2 = job.spec_decremented();
        assert(on_generate(st.load_jobs, cs.first()).0 =~= seq![job2]);
        assert(on_generate(st.load_jobs, cs.first()).1 is None);
        assert(st1.load_jobs == seq![job2]);
        assert(st1.queue == st.queue);
        assert forall|i: int| 0 <= i < cs.drop_first().len()
            implies job2.spec_contains_chunk(#[trigger] cs.drop_first()[i]) by {
            assert(cs.drop_first()[i] == cs[i + 1]);
        }
        lemma_poll_single_job(st1, job2, cs.drop_first());
        assert(finish_tasks(job2) == finish_tasks(job));
    }
}

} // verus!
