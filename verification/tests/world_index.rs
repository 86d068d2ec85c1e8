use voxel_world::block::Block;
use voxel_world::coords::{BlockPos, ChunkPos};
use voxel_world::scheduler::{ChunkLoadJob, ChunkMeshFaceData, Task};
use voxel_world::block::BlockFace;
use voxel_world::world::World;

fn stone_blocks() -> Vec<Block> {
    vec![Block::Stone; 32768]
}

fn air_blocks() -> Vec<Block> {
    vec![Block::Air; 32768]
}

/// Runs every queued task against the world, like the worker pool would,
/// and reconciles the completions, like the render loop would. Repeats
/// until the queue stays empty.
fn run_all_tasks(w: &mut World) {
    loop {
        let tasks: Vec<Task> = std::mem::take(&mut w.task_queue);
        if tasks.is_empty() {
            return;
        }
        let mut completed: Vec<Task> = Vec::new();
        for t in tasks {
            match t {
                Task::GenerateChunk(p) => {
                    w.complete_generate(p, air_blocks());
                    completed.push(Task::GenerateChunk(p));
                }
                Task::ChunkMesh(p) => {
                    w.complete_chunk_mesh(p);
                    completed.push(Task::ChunkMesh(p));
                }
                Task::ChunkMeshFace { min_chunk, max_chunk, face } => {
                    completed.push(Task::ChunkMeshFace { min_chunk, max_chunk, face });
                }
                Task::UnloadChunks { min_chunk, max_chunk } => {
                    w.complete_unload(min_chunk, max_chunk);
                    completed.push(Task::UnloadChunks { min_chunk, max_chunk });
                }
            }
        }
        w.poll_completed_tasks(&completed);
    }
}

fn load_count_of(w: &World, cp: ChunkPos) -> Option<u64> {
    w.chunks
        .iter()
        .find(|lc| lc.chunk.chunk_position == cp)
        .map(|lc| lc.load_count)
}

#[test]
fn load_counts_stay_positive_over_overlapping_loads() {
    let mut w = World::new();
    let a = ChunkPos::new(0, 0, 0);
    let b = ChunkPos::new(2, 1, 1);
    // two overlapping boxes
    w.load_chunks(ChunkPos::new(0, 0, 0), ChunkPos::new(2, 1, 1), None);
    run_all_tasks(&mut w);
    w.load_chunks(ChunkPos::new(1, 0, 0), ChunkPos::new(3, 1, 1), None);
    run_all_tasks(&mut w);
    // every resident chunk has a positive count, overlaps counted twice
    for lc in w.chunks.iter() {
        assert!(lc.load_count >= 1);
    }
    assert_eq!(load_count_of(&w, ChunkPos::new(1, 0, 0)), Some(2));
    assert_eq!(load_count_of(&w, a), Some(1));
    assert_eq!(load_count_of(&w, ChunkPos::new(2, 0, 0)), Some(1));
    assert_eq!(load_count_of(&w, b), None);

    // unloading one box removes only chunks whose count reached zero
    w.unload_chunks(ChunkPos::new(0, 0, 0), ChunkPos::new(2, 1, 1), None);
    run_all_tasks(&mut w);
    assert_eq!(load_count_of(&w, a), None);
    assert_eq!(load_count_of(&w, ChunkPos::new(1, 0, 0)), Some(1));
    for lc in w.chunks.iter() {
        assert!(lc.load_count >= 1);
    }
    w.unload_chunks(ChunkPos::new(1, 0, 0), ChunkPos::new(3, 1, 1), None);
    run_all_tasks(&mut w);
    assert!(w.chunks.is_empty());
}

#[test]
fn unload_on_absent_chunks_is_a_noop() {
    let mut w = World::new();
    w.unload_chunks(ChunkPos::new(5, 5, 5), ChunkPos::new(7, 6, 6), None);
    run_all_tasks(&mut w);
    assert!(w.chunks.is_empty());
}

#[test]
fn unload_before_generation_defers_until_loaded() {
    let mut w = World::new();
    let cp = ChunkPos::new(0, 0, 0);
    w.load_chunks(cp, ChunkPos::new(1, 1, 1), None);
    // the generate task is still queued; an unload arriving now is retried
    w.task_queue.clear();
    let retried = w.complete_unload(cp, ChunkPos::new(1, 1, 1));
    assert!(retried);
    assert_eq!(w.task_queue.len(), 1);
    // generation lands, then the retried unload evicts the chunk
    w.complete_generate(cp, stone_blocks());
    assert_eq!(load_count_of(&w, cp), Some(1));
    let retried_again = w.complete_unload(cp, ChunkPos::new(1, 1, 1));
    assert!(!retried_again);
    assert_eq!(load_count_of(&w, cp), None);
}

#[test]
fn scheduler_reconciliation_triggers_mesh_once() {
    let mut w = World::new();
    let min = ChunkPos::new(0, 0, 0);
    let max = ChunkPos::new(3, 2, 1);
    w.load_chunks(min, max, None);
    assert_eq!(w.chunk_load_jobs.len(), 1);
    assert_eq!(w.chunk_load_jobs[0].remaining_chunks, 6);
    // drain the generate tasks as the workers would
    let gens: Vec<Task> = std::mem::take(&mut w.task_queue);
    assert_eq!(gens.len(), 6);
    let mut completions: Vec<Task> = Vec::new();
    for t in gens.iter() {
        match t {
            Task::GenerateChunk(p) => {
                w.complete_generate(*p, air_blocks());
                completions.push(Task::GenerateChunk(*p));
            }
            _ => panic!("only generate tasks were enqueued"),
        }
    }
    // completions in reverse order: the order must not matter
    completions.reverse();
    w.poll_completed_tasks(&completions);
    // exactly one deferred mesh enqueue: one ChunkMesh task per box chunk
    assert!(w.chunk_load_jobs.is_empty());
    let mesh_tasks: Vec<&Task> = w
        .task_queue
        .iter()
        .filter(|t| matches!(t, Task::ChunkMesh(_)))
        .collect();
    assert_eq!(mesh_tasks.len(), 6);
    // further completions for the same chunks enqueue nothing more
    let queue_len = w.task_queue.len();
    w.poll_completed_tasks(&vec![Task::GenerateChunk(ChunkPos::new(0, 0, 0))]);
    assert_eq!(w.task_queue.len(), queue_len);
}

#[test]
fn finished_load_job_runs_face_task() {
    let mut w = World::new();
    let min = ChunkPos::new(0, 0, 0);
    let max = ChunkPos::new(1, 1, 1);
    let face_task = ChunkMeshFaceData { min_chunk: min, max_chunk: max, face: BlockFace::XPos };
    w.load_chunks(min, max, Some(face_task));
    w.task_queue.clear();
    w.complete_generate(min, air_blocks());
    w.poll_completed_tasks(&vec![Task::GenerateChunk(min)]);
    assert!(w
        .task_queue
        .iter()
        .any(|t| matches!(t, Task::ChunkMeshFace { .. })));
}

#[test]
fn poll_reports_mesh_dirty() {
    let mut w = World::new();
    assert!(!w.poll_completed_tasks(&Vec::new()));
    assert!(w.poll_completed_tasks(&vec![Task::ChunkMesh(ChunkPos::new(0, 0, 0))]));
    assert!(w.poll_completed_tasks(&vec![Task::UnloadChunks {
        min_chunk: ChunkPos::new(0, 0, 0),
        max_chunk: ChunkPos::new(0, 0, 0),
    }]));
    assert!(!w.poll_completed_tasks(&vec![Task::GenerateChunk(ChunkPos::new(0, 0, 0))]));
}

#[test]
fn world_set_and_get_block() {
    let mut w = World::new();
    let p = BlockPos::new(40, 5, -3);
    // not loaded yet: reads give None, writes report failure
    assert_eq!(w.get_block(p), None);
    assert!(!w.set_block(p, Block::Stone));
    w.complete_generate(ChunkPos::new(1, 0, -1), air_blocks());
    assert_eq!(w.get_block(p), Some(Block::Air));
    assert!(w.set_block(p, Block::Stone));
    assert_eq!(w.get_block(p), Some(Block::Stone));
}

#[test]
fn solid_chunk_surrounded_by_solids_meshes_empty() {
    let mut w = World::new();
    let center = ChunkPos::new(0, 0, 0);
    w.complete_generate(center, stone_blocks());
    for (dx, dy, dz) in [
        (1, 0, 0),
        (-1, 0, 0),
        (0, 1, 0),
        (0, -1, 0),
        (0, 0, 1),
        (0, 0, -1),
    ] {
        w.complete_generate(ChunkPos::new(dx, dy, dz), stone_blocks());
    }
    w.complete_chunk_mesh(center);
    // fully occluded on all sides: zero quads in the whole world mesh
    assert!(w.world_mesh().is_empty());
}

#[test]
fn air_world_meshes_empty() {
    let mut w = World::new();
    w.complete_generate(ChunkPos::new(0, 0, 0), air_blocks());
    w.complete_chunk_mesh(ChunkPos::new(0, 0, 0));
    assert!(w.world_mesh().is_empty());
}

#[test]
fn stone_chunk_under_air_chunk_meshes_one_quad() {
    let mut w = World::new();
    let stone = ChunkPos::new(0, 0, 0);
    w.complete_generate(stone, stone_blocks());
    w.complete_generate(ChunkPos::new(0, 1, 0), air_blocks());
    w.complete_chunk_mesh(stone);
    // only the top face is exposed and known; it merges to a single quad
    let mesh = w.world_mesh();
    assert_eq!(mesh.len(), 1);
    assert_eq!(mesh[0].tl.normal, BlockPos::new(0, 1, 0));
}

#[test]
fn mesh_update_adjacent_exposes_a_dug_block() {
    let mut w = World::new();
    let stone = ChunkPos::new(0, 0, 0);
    w.complete_generate(stone, stone_blocks());
    w.complete_generate(ChunkPos::new(0, 1, 0), air_blocks());
    w.complete_chunk_mesh(stone);
    let before = w.world_mesh().len();
    assert_eq!(before, 1);
    // dig out a surface block and remesh just its surroundings
    let dug = BlockPos::new(10, 31, 10);
    assert!(w.set_block(dug, Block::Air));
    w.mesh_update_adjacent(dug);
    let after = w.world_mesh();
    // the hole splits the top face and exposes the pocket's side walls
    assert!(after.len() > 1);
}

#[test]
fn raycast_hits_first_solid_block() {
    let mut w = World::new();
    w.complete_generate(ChunkPos::new(0, 0, 0), air_blocks());
    assert!(w.set_block(BlockPos::new(5, 5, 5), Block::Stone));
    let hit = w.block_raycast(BlockPos::new(0, 0, 0), BlockPos::new(1, 1, 1), 20);
    assert_eq!(hit, Some(BlockPos::new(5, 5, 5)));
}

#[test]
fn raycast_misses_away_from_solids() {
    let mut w = World::new();
    w.complete_generate(ChunkPos::new(0, 0, 0), air_blocks());
    w.complete_generate(ChunkPos::new(-1, 0, 0), air_blocks());
    assert!(w.set_block(BlockPos::new(5, 5, 5), Block::Stone));
    // solids only at positive x; looking along -x finds nothing
    let miss = w.block_raycast(BlockPos::new(0, 0, 0), BlockPos::new(-1, 0, 0), 20);
    assert_eq!(miss, None);
}

#[test]
fn raycast_stops_at_unloaded_chunks() {
    let mut w = World::new();
    w.complete_generate(ChunkPos::new(0, 0, 0), air_blocks());
    assert!(w.set_block(BlockPos::new(20, 0, 0), Block::Stone));
    // the ray would reach the solid at x=20, but it first crosses into the
    // unloaded chunk at y=-1... stay level instead: cast within the chunk
    let hit = w.block_raycast(BlockPos::new(0, 0, 0), BlockPos::new(1, 0, 0), 30);
    assert_eq!(hit, Some(BlockPos::new(20, 0, 0)));
    // but an unloaded chunk on the path hides everything behind it
    let blocked = w.block_raycast(BlockPos::new(20, 0, 0), BlockPos::new(0, 0, 1), 64);
    assert_eq!(blocked, None);
}

#[test]
fn connect_hands_out_fresh_ids_and_loads_the_render_box() {
    let mut w = World::new();
    let p0 = w.connect();
    let p1 = w.connect();
    assert_ne!(p0, p1);
    assert_eq!(w.players.len(), 2);
    assert_eq!(w.chunk_load_jobs.len(), 2);
    assert_eq!(w.chunk_load_jobs[0].min_chunk, ChunkPos::new(-10, -5, -10));
    assert_eq!(w.chunk_load_jobs[0].max_chunk, ChunkPos::new(10, 5, 10));
    assert_eq!(w.chunk_load_jobs[0].remaining_chunks, 20 * 10 * 20);
}

#[test]
fn set_player_position_unknown_and_moves() {
    let mut w = World::new();
    let id = w.connect();
    w.task_queue.clear();
    // unknown player id: a valid terminal state, not an error
    assert_eq!(w.set_player_position(voxel_world::player::PlayerId::new(999), BlockPos::new(0, 0, 0)), None);
    // movement within the same chunk changes no mesh
    assert_eq!(w.set_player_position(id, BlockPos::new(3, 4, 5)), Some(false));
    assert!(w.task_queue.is_empty());
    // crossing a chunk boundary loads the leading box and unloads the trailing one
    assert_eq!(w.set_player_position(id, BlockPos::new(40, 4, 5)), Some(true));
    assert_eq!(w.chunk_load_jobs.len(), 2);
    assert_eq!(w.chunk_load_jobs[1].min_chunk, ChunkPos::new(-9, -5, -10));
    assert_eq!(w.chunk_unload_jobs.len(), 1);
    assert_eq!(w.chunk_unload_jobs[0].min_chunk, ChunkPos::new(-10, -5, -10));
    // a long teleport is handled the same way, not rejected
    assert_eq!(w.set_player_position(id, BlockPos::new(4000, 4, 5)), Some(true));
}

#[test]
fn load_job_record_matches_box() {
    let job = ChunkLoadJob {
        min_chunk: ChunkPos::new(0, 0, 0),
        max_chunk: ChunkPos::new(2, 2, 2),
        remaining_chunks: 8,
        mesh_face_task: None,
    };
    assert!(job.contains_chunk(ChunkPos::new(0, 0, 0)));
    assert!(job.contains_chunk(ChunkPos::new(1, 1, 1)));
    assert!(!job.contains_chunk(ChunkPos::new(2, 1, 1)));
    assert!(!job.contains_chunk(ChunkPos::new(-1, 0, 0)));
}

#[test]
fn face_data_becomes_task() {
    let d = ChunkMeshFaceData {
        min_chunk: ChunkPos::new(0, 0, 0),
        max_chunk: ChunkPos::new(1, 1, 1),
        face: BlockFace::ZPos,
    };
    assert_eq!(
        d.into_task(),
        Task::ChunkMeshFace {
            min_chunk: ChunkPos::new(0, 0, 0),
            max_chunk: ChunkPos::new(1, 1, 1),
            face: BlockFace::ZPos,
        }
    );
}

#[test]
fn chunk_mesh_on_absent_chunk_is_noop() {
    let mut w = World::new();
    w.complete_generate(ChunkPos::new(0, 0, 0), stone_blocks());
    let chunks_before = w.chunks.len();
    w.complete_chunk_mesh(ChunkPos::new(9, 9, 9));
    assert_eq!(w.chunks.len(), chunks_before);
    assert!(w.world_mesh().is_empty());
}

#[test]
fn world_mesh_concatenates_chunk_meshes() {
    let mut w = World::new();
    // two stone chunks side by side under their own air chunks
    w.complete_generate(ChunkPos::new(0, 0, 0), stone_blocks());
    w.complete_generate(ChunkPos::new(1, 0, 0), stone_blocks());
    w.complete_generate(ChunkPos::new(0, 1, 0), air_blocks());
    w.complete_generate(ChunkPos::new(1, 1, 0), air_blocks());
    w.complete_chunk_mesh(ChunkPos::new(0, 0, 0));
    w.complete_chunk_mesh(ChunkPos::new(1, 0, 0));
    // one merged top quad per stone chunk
    assert_eq!(w.world_mesh().len(), 2);
}
