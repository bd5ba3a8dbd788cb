use chunked_terrain::block::{Block, CHUNK_LENGTH, FACE_COUNT, HEIGHTMAP_SIZE};
use chunked_terrain::chunk::{
    build_mesh, compute_visibility, generate_blocks, Chunk, ChunkStateProgress, ChunkStateStage, StageOutput,
};
use chunked_terrain::chunkedterrain::{
    cell_of_position, ChunkColumn, ChunkTaskType, ChunkedTerrain,
};

fn flat_heights(h: i32) -> Vec<i32> {
    vec![h; HEIGHTMAP_SIZE]
}

fn no_caves() -> Vec<bool> {
    vec![false; CHUNK_LENGTH]
}

fn idx(x: usize, y: usize, z: usize) -> usize {
    x * 256 + y * 16 + z
}

fn generated_cell(id: [i32; 3], surface: i32) -> Chunk {
    let mut c = Chunk::new(id);
    assert!(c.assign_if_waiting());
    assert!(c.gen(&flat_heights(surface), &no_caves()));
    c
}

#[test]
fn generation_classifies_by_surface_and_caves() {
    let mut cave = no_caves();
    cave[idx(0, 3, 0)] = true;
    let blocks = generate_blocks([0, 0, 0], &flat_heights(5), &cave);
    assert_eq!(blocks.len(), CHUNK_LENGTH);
    assert_eq!(blocks[idx(0, 6, 0)], Block::Air);
    assert_eq!(blocks[idx(0, 5, 0)], Block::Grass);
    assert_eq!(blocks[idx(0, 4, 0)], Block::Stone);
    assert_eq!(blocks[idx(0, 3, 0)], Block::Air);
    // A cell higher up is all air under the same heightmap.
    let above = generate_blocks([0, 1, 0], &flat_heights(5), &no_caves());
    assert!(above.iter().all(|b| *b == Block::Air));
    // The surface at world height 20 lies in the cell at y = 1, local y = 4.
    let second = generate_blocks([2, 1, -3], &flat_heights(20), &no_caves());
    assert_eq!(second[idx(7, 4, 9)], Block::Grass);
    assert_eq!(second[idx(7, 3, 9)], Block::Stone);
    assert_eq!(second[idx(7, 5, 9)], Block::Air);
}

#[test]
fn generation_is_deterministic() {
    let mut cave = no_caves();
    for i in (0..CHUNK_LENGTH).step_by(7) {
        cave[i] = true;
    }
    let heights: Vec<i32> = (0..HEIGHTMAP_SIZE as i32).map(|i| i % 16).collect();
    let a = generate_blocks([1, 0, 1], &heights, &cave);
    let _other = generate_blocks([2, 0, 1], &heights, &cave);
    let b = generate_blocks([1, 0, 1], &heights, &cave);
    assert_eq!(a, b);
}

#[test]
fn start_guard_lets_one_task_process() {
    let mut c = Chunk::new([0, 0, 0]);
    assert!(c.assign_if_waiting());
    assert!(!c.assign_if_waiting());
    assert!(c.start_process_check(ChunkStateStage::ChunkGen));
    assert_eq!(c.get_state().progress, ChunkStateProgress::Processing);
    assert!(!c.start_process_check(ChunkStateStage::ChunkGen));
    assert_eq!(c.get_state().progress, ChunkStateProgress::Processing);
    assert!(!c.assign_if_waiting());
    assert_eq!(c.get_pending_stage(), None);
}

#[test]
fn stages_advance_in_order() {
    let mut c = Chunk::new([0, 0, 0]);
    assert_eq!(c.get_stage(), ChunkStateStage::ChunkGen);
    assert_eq!(c.get_pending_stage(), Some(ChunkStateStage::ChunkGen));
    assert!(c.assign_if_waiting());
    assert!(c.gen(&flat_heights(8), &no_caves()));
    assert_eq!(c.get_stage(), ChunkStateStage::ChunkVisGen);
    assert!(c.assign_if_waiting());
    assert!(c.gen_block_vis(&vec![None, None, None, None, None, None]));
    assert_eq!(c.get_stage(), ChunkStateStage::MeshGen);
    assert!(c.assign_if_waiting());
    assert!(c.update_vertices());
    assert_eq!(c.get_stage(), ChunkStateStage::Ready);
    assert_eq!(c.get_pending_stage(), Some(ChunkStateStage::Ready));
    assert!(c.get_mesh_fast().is_some());
}

#[test]
fn redirect_before_start_skips_the_task() {
    let mut c = Chunk::new([0, 0, 0]);
    assert!(c.assign_if_waiting());
    c.redirect(ChunkStateStage::ChunkGen);
    assert!(!c.gen(&flat_heights(8), &no_caves()));
    assert_eq!(c.get_stage(), ChunkStateStage::ChunkGen);
    assert_eq!(c.get_state().progress, ChunkStateProgress::Waiting);
    assert_eq!(c.get_block_at(0, 0, 0), None);
}

#[test]
fn redirect_during_processing_discards_result() {
    let mut c = Chunk::new([0, 0, 0]);
    assert!(c.assign_if_waiting());
    assert!(c.start_process_check(ChunkStateStage::ChunkGen));
    c.redirect(ChunkStateStage::ChunkGen);
    assert_eq!(c.get_state().progress, ChunkStateProgress::SwitchingTo(ChunkStateStage::ChunkGen));
    let blocks = generate_blocks([0, 0, 0], &flat_heights(8), &no_caves());
    assert!(!c.end_process_check(ChunkStateStage::ChunkGen, StageOutput::Blocks(blocks)));
    assert_eq!(c.get_stage(), ChunkStateStage::ChunkGen);
    assert_eq!(c.get_state().progress, ChunkStateProgress::Waiting);
    assert_eq!(c.get_block_at(0, 0, 0), None);
}

#[test]
fn redirect_of_idle_cell_moves_at_once() {
    let mut c = generated_cell([0, 0, 0], 8);
    assert_eq!(c.get_stage(), ChunkStateStage::ChunkVisGen);
    c.redirect(ChunkStateStage::ChunkGen);
    assert_eq!(c.get_stage(), ChunkStateStage::ChunkGen);
    assert_eq!(c.get_state().progress, ChunkStateProgress::Waiting);
}

#[test]
fn block_queries() {
    let c = generated_cell([0, 0, 0], 5);
    assert_eq!(c.get_block_at(3, 5, 3), Some(Block::Grass));
    assert_eq!(c.get_block_at(3, 6, 3), Some(Block::Air));
    assert_eq!(c.get_block_at(16, 0, 0), None);
    assert_eq!(c.get_block_at(-1, 0, 0), None);
    let around = c.get_surrounding_blocks_of(0, 5, 0);
    assert_eq!(around[0], Some(Block::Grass));
    assert_eq!(around[1], None);
    assert_eq!(around[2], Some(Block::Air));
    assert_eq!(around[3], Some(Block::Stone));
    assert_eq!(around[4], Some(Block::Grass));
    assert_eq!(around[5], None);
    assert_eq!(Chunk::new([0, 0, 0]).get_surrounding_blocks_of(1, 1, 1), [None; 6]);
}

#[test]
fn visibility_hides_faces_towards_unloaded_cells() {
    let blocks = generate_blocks([0, 0, 0], &flat_heights(20), &no_caves());
    // All stone: only faces towards a loaded air neighbour show.
    let none = vec![None, None, None, None, None, None];
    let vis = compute_visibility(&blocks, &none);
    assert_eq!(vis.len(), FACE_COUNT);
    assert!(vis.iter().all(|v| !v));
    let air = vec![Block::Air; CHUNK_LENGTH];
    let with_above = vec![None, None, Some(air.clone()), None, None, None];
    let vis2 = compute_visibility(&blocks, &with_above);
    // Top face (+y, side 2) of voxel (4, 15, 7) now shows; its +x face does not.
    let i = idx(4, 15, 7);
    assert!(vis2[6 * i + 2]);
    assert!(!vis2[6 * i]);
    assert!(!vis2[6 * idx(4, 14, 7) + 2]);
    assert_eq!(vis2.iter().filter(|v| **v).count(), 256);
}

#[test]
fn visibility_reads_the_adjacent_voxel_across_the_boundary() {
    let blocks = generate_blocks([0, 0, 0], &flat_heights(20), &no_caves());
    let mut nb = vec![Block::Stone; CHUNK_LENGTH];
    nb[idx(0, 3, 3)] = Block::Air;
    let n = vec![Some(nb), None, None, None, None, None];
    let vis = compute_visibility(&blocks, &n);
    assert!(vis[6 * idx(15, 3, 3)]);
    assert!(!vis[6 * idx(15, 3, 4)]);
    assert_eq!(vis.iter().filter(|v| **v).count(), 1);
}

#[test]
fn single_voxel_mesh() {
    let mut blocks = vec![Block::Air; CHUNK_LENGTH];
    blocks[idx(1, 2, 3)] = Block::Stone;
    let none = vec![None, None, None, None, None, None];
    let vis = compute_visibility(&blocks, &none);
    assert_eq!(vis.iter().filter(|v| **v).count(), 6);
    let (vertices, indices) = build_mesh([1, -1, 2], &blocks, &vis);
    assert_eq!(vertices.len(), 24);
    assert_eq!(indices.len(), 36);
    assert_eq!(&indices[0..6], &[0, 1, 2, 2, 3, 0]);
    assert_eq!(&indices[6..12], &[4, 5, 6, 6, 7, 4]);
    let v = vertices[0];
    assert_eq!((v.origin_x, v.origin_y, v.origin_z), (16, -16, 32));
    assert_eq!((v.rel_x, v.rel_y, v.rel_z), (2, 2, 3));
    assert_eq!(v.side, 0);
    assert_eq!(v.block, Block::Stone);
    assert_eq!(vertices[23].side, 5);
}

#[test]
fn mesh_rebuild_is_idempotent() {
    let mut c = Chunk::new([0, 0, 0]);
    assert!(c.assign_if_waiting());
    assert!(c.gen(&flat_heights(4), &no_caves()));
    assert!(c.assign_if_waiting());
    assert!(c.gen_block_vis(&vec![None, None, None, None, None, None]));
    assert!(c.assign_if_waiting());
    assert!(c.update_vertices());
    let first = c.get_mesh_fast().map(|m| (m.vertices.clone(), m.indices.clone())).unwrap();
    assert!(!first.0.is_empty());
    c.redirect(ChunkStateStage::MeshGen);
    assert!(c.assign_if_waiting());
    assert!(c.update_vertices());
    let second = c.get_mesh_fast().map(|m| (m.vertices.clone(), m.indices.clone())).unwrap();
    assert_eq!(first, second);
}

#[test]
fn vertical_reuse_keeps_overlap() {
    let mut col = ChunkColumn::new([3, -2], flat_heights(0), 0, 10);
    // Mark cell 5 so that its identity can be followed.
    assert!(col.chunks[5].assign_if_waiting());
    let evicted = col.reuse_column([3, -2], 0, 10, 4, 14);
    let gone: Vec<i32> = evicted.iter().map(|c| c.get_id()[1]).collect();
    assert_eq!(gone, vec![0, 1, 2, 3]);
    let ys: Vec<i32> = col.chunks.iter().map(|c| c.get_id()[1]).collect();
    assert_eq!(ys, (4..14).collect::<Vec<i32>>());
    assert_eq!(col.chunks[1].get_pending_stage(), None);
    for (i, c) in col.chunks.iter().enumerate() {
        if i != 1 {
            assert_eq!(c.get_pending_stage(), Some(ChunkStateStage::ChunkGen));
        }
        assert_eq!(c.get_id()[0], 3);
        assert_eq!(c.get_id()[2], -2);
    }
    // 4 evicted + 6 kept = 10 old; 6 kept + 4 fresh = 10 new.
    assert_eq!(evicted.len() + 6, 10);
    assert_eq!(col.chunks.len(), 10);
}

#[test]
fn vertical_reuse_of_disjoint_ranges() {
    let mut col = ChunkColumn::new([0, 0], flat_heights(0), 0, 4);
    let evicted = col.reuse_column([0, 0], 0, 4, 10, 12);
    assert_eq!(evicted.len(), 4);
    let ys: Vec<i32> = col.chunks.iter().map(|c| c.get_id()[1]).collect();
    assert_eq!(ys, vec![10, 11]);
    let mut below = ChunkColumn::new([0, 0], flat_heights(0), 5, 8);
    let evicted = below.reuse_column([0, 0], 5, 8, 6, 12);
    assert_eq!(evicted.iter().map(|c| c.get_id()[1]).collect::<Vec<i32>>(), vec![5]);
    assert_eq!(below.chunks.len(), 6);
}

#[test]
fn cell_of_position_rounds_down() {
    assert_eq!(cell_of_position(0), 0);
    assert_eq!(cell_of_position(15), 0);
    assert_eq!(cell_of_position(16), 1);
    assert_eq!(cell_of_position(-1), -1);
    assert_eq!(cell_of_position(-16), -1);
    assert_eq!(cell_of_position(-17), -2);
    assert_eq!(cell_of_position(i32::MIN), -134217728);
}

fn heights_for(x: i32, z: i32) -> Vec<i32> {
    vec![x * 3 + z; HEIGHTMAP_SIZE]
}

#[test]
fn window_lookup() {
    let t = ChunkedTerrain::new([1, 40, 1], 2, &heights_for);
    // Viewpoint cell (0, 2, 0): cells span [-2, 2) x [0, 4) x [-2, 2).
    let c = t.get_chunk_at(&[1, 3, -2]).unwrap();
    assert_eq!(c.get_id(), [1, 3, -2]);
    assert!(t.get_chunk_at(&[2, 3, 0]).is_none());
    assert!(t.get_chunk_at(&[0, -1, 0]).is_none());
    assert!(t.get_chunk_at(&[-2, 0, -2]).is_some());
    assert!(t.get_meshes().is_empty());
}

#[test]
fn window_no_move_is_noop() {
    let mut t = ChunkedTerrain::new([1, 40, 1], 2, &heights_for);
    let (moved, evicted) = t.update_player_position([15, 47, 2], &heights_for);
    assert!(!moved);
    assert!(evicted.is_empty());
}

#[test]
fn window_slide_one_cell_in_x() {
    let mut t = ChunkedTerrain::new([1, 40, 1], 2, &heights_for);
    // Reserve every cell so that kept cells can be told from fresh ones.
    let tasks = t.tick_progress();
    assert_eq!(tasks.len(), 64);
    let (moved, evicted) = t.update_player_position([17, 40, 1], &heights_for);
    assert!(moved);
    // One row of 4 columns of 4 cells leaves, at x = -2.
    assert_eq!(evicted.len(), 16);
    assert!(evicted.iter().all(|c| c.get_id()[0] == -2));
    for x in -1..3 {
        for z in -2..2 {
            for y in 0..4 {
                let c = t.get_chunk_at(&[x, y, z]).unwrap();
                assert_eq!(c.get_id(), [x, y, z]);
                if x == 2 {
                    assert_eq!(c.get_pending_stage(), Some(ChunkStateStage::ChunkGen));
                } else {
                    assert_eq!(c.get_pending_stage(), None);
                }
            }
        }
    }
    assert!(t.get_chunk_at(&[-2, 0, 0]).is_none());
}

#[test]
fn window_slide_far_replaces_everything() {
    let mut t = ChunkedTerrain::new([0, 0, 0], 1, &heights_for);
    let (moved, evicted) = t.update_player_position([-100, 0, 0], &heights_for);
    assert!(moved);
    assert_eq!(evicted.len(), 8);
    assert_eq!(t.get_chunk_at(&[-8, 0, 0]).unwrap().get_id(), [-8, 0, 0]);
}

#[test]
fn window_vertical_slide_reuses_cells() {
    let mut t = ChunkedTerrain::new([0, 0, 0], 2, &heights_for);
    t.tick_progress();
    let (moved, evicted) = t.update_player_position([0, 16, 0], &heights_for);
    assert!(moved);
    // Each of the 16 columns drops its lowest cell.
    assert_eq!(evicted.len(), 16);
    assert!(evicted.iter().all(|c| c.get_id()[1] == -2));
    assert_eq!(t.get_chunk_at(&[0, 2, 0]).unwrap().get_pending_stage(), Some(ChunkStateStage::ChunkGen));
    assert_eq!(t.get_chunk_at(&[0, 1, 0]).unwrap().get_pending_stage(), None);
}

#[test]
fn dispatcher_runs_the_pipeline() {
    let mut t = ChunkedTerrain::new([0, 0, 0], 1, &|_x: i32, _z: i32| flat_heights(0));
    let tasks = t.tick_progress();
    assert_eq!(tasks.len(), 8);
    assert!(tasks.iter().all(|task| matches!(task.typ, ChunkTaskType::GenTerrain(_))));
    // Nothing is dispatched twice.
    assert!(t.tick_progress().is_empty());
    // Generate only the first cell: its neighbours still wait for generation.
    assert!(t.run_task(&tasks[0], &no_caves()));
    assert!(!t.run_task(&tasks[0], &no_caves()));
    assert!(t.tick_progress().is_empty());
    for task in tasks.iter().skip(1) {
        assert!(t.run_task(task, &no_caves()));
    }
    let vis_tasks = t.tick_progress();
    assert_eq!(vis_tasks.len(), 8);
    for task in vis_tasks.iter() {
        match &task.typ {
            ChunkTaskType::GenBlockVis(n) => {
                assert_eq!(n.len(), 6);
                assert_eq!(n.iter().filter(|b| b.is_some()).count(), 3);
            },
            _ => panic!("expected a visibility task"),
        }
        assert!(t.run_task(task, &no_caves()));
    }
    let mesh_tasks = t.tick_progress();
    assert_eq!(mesh_tasks.len(), 8);
    for task in mesh_tasks.iter() {
        assert!(matches!(task.typ, ChunkTaskType::GenVertices));
        assert!(t.run_task(task, &no_caves()));
    }
    assert!(t.tick_progress().is_empty());
    assert_eq!(t.get_meshes().len(), 8);
    // The surface cell (y = 0) meshes its top faces: 16 x 16 quads each.
    let c = t.get_chunk_at(&[0, 0, 0]).unwrap();
    let m = c.get_mesh_fast().unwrap();
    assert_eq!(m.vertices.len(), 256 * 4);
    assert_eq!(m.indices.len(), 256 * 6);
}

#[test]
fn task_for_evicted_cell_is_dropped() {
    let mut t = ChunkedTerrain::new([0, 0, 0], 1, &heights_for);
    let tasks = t.tick_progress();
    let (moved, _evicted) = t.update_player_position([1000, 0, 0], &heights_for);
    assert!(moved);
    assert!(!t.run_task(&tasks[0], &no_caves()));
}

#[test]
fn surrounding_blocks_of_far_positions() {
    let c = generated_cell([0, 0, 0], 5);
    assert_eq!(c.get_surrounding_blocks_of(1000, -5000, 7), [None; 6]);
    assert_eq!(c.get_surrounding_blocks_of(i32::MAX - 1, i32::MIN + 1, 0), [None; 6]);
    // Just outside the cell, only the neighbour back inside it is found.
    let around = c.get_surrounding_blocks_of(16, 5, 0);
    assert_eq!(around[1], Some(Block::Grass));
    assert_eq!(around[0], None);
    assert_eq!(around[2], None);
}

#[test]
fn window_of_radius_zero_is_empty() {
    let mut t = ChunkedTerrain::new([5, 5, 5], 0, &heights_for);
    assert!(t.get_chunk_at(&[0, 0, 0]).is_none());
    assert!(t.tick_progress().is_empty());
    assert!(t.get_meshes().is_empty());
    let (moved, evicted) = t.update_player_position([100, 0, 0], &heights_for);
    assert!(moved);
    assert!(evicted.is_empty());
    assert!(t.get_chunk_at(&[6, 0, 0]).is_none());
    let (moved, _) = t.update_player_position([101, 0, 0], &heights_for);
    assert!(!moved);
}

#[test]
fn many_reservations_take_one() {
    let mut c = Chunk::new([0, 0, 0]);
    let taken = (0..5).filter(|_| c.assign_if_waiting()).count();
    assert_eq!(taken, 1);
    assert_eq!(c.get_state().progress, ChunkStateProgress::TaskAssigned);
}
