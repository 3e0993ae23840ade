use ecg_world::{
    Block, BlockCoord, ChunkCoord, ChunkId, ChunkManager, GlobalCoord, LoadArea, LogicChunk,
    TerrainMesh,
};

#[test]
fn load_area_iter_cube() {
    let loaded_area = LoadArea::new_cube(ChunkId::new(0, 0, 0), 1).ids();

    assert_eq!(
        loaded_area,
        [
            ChunkId::new(-1, -1, -1),
            ChunkId::new(0, -1, -1),
            ChunkId::new(1, -1, -1),
            ChunkId::new(-1, 0, -1),
            ChunkId::new(0, 0, -1),
            ChunkId::new(1, 0, -1),
            ChunkId::new(-1, 1, -1),
            ChunkId::new(0, 1, -1),
            ChunkId::new(1, 1, -1),
            ChunkId::new(-1, -1, 0),
            ChunkId::new(0, -1, 0),
            ChunkId::new(1, -1, 0),
            ChunkId::new(-1, 0, 0),
            ChunkId::new(0, 0, 0),
            ChunkId::new(1, 0, 0),
            ChunkId::new(-1, 1, 0),
            ChunkId::new(0, 1, 0),
            ChunkId::new(1, 1, 0),
            ChunkId::new(-1, -1, 1),
            ChunkId::new(0, -1, 1),
            ChunkId::new(1, -1, 1),
            ChunkId::new(-1, 0, 1),
            ChunkId::new(0, 0, 1),
            ChunkId::new(1, 0, 1),
            ChunkId::new(-1, 1, 1),
            ChunkId::new(0, 1, 1),
            ChunkId::new(1, 1, 1),
        ]
    );
}

#[test]
fn load_area_iter_cuboid() {
    let loaded_area = LoadArea::new_cuboid(ChunkId::new(0, 0, 0), 1).ids();

    assert_eq!(
        loaded_area,
        [
            ChunkId::new(-1, 0, -1),
            ChunkId::new(0, 0, -1),
            ChunkId::new(1, 0, -1),
            ChunkId::new(-1, 0, 0),
            ChunkId::new(0, 0, 0),
            ChunkId::new(1, 0, 0),
            ChunkId::new(-1, 0, 1),
            ChunkId::new(0, 0, 1),
            ChunkId::new(1, 0, 1),
        ]
    );
}

#[test]
fn load_area_contains() {
    let load_area = LoadArea::new_cube(ChunkId::new(0, 0, 0), 2);

    assert!(load_area.contains(ChunkId::new(0, 0, 0)));
    assert!(load_area.contains(ChunkId::new(1, 1, 1)));
    assert!(!load_area.contains(ChunkId::new(3, 3, 3)));
    assert!(!load_area.contains(ChunkId::new(3, 32, 12)));
}

#[test]
fn load_area_next_enumerates_once() {
    let mut area = LoadArea::new_cube(ChunkId::new(2, -1, 0), 1);
    let mut seen = Vec::new();
    while let Some(id) = area.next() {
        seen.push(id);
    }
    assert_eq!(seen.len(), 27);
    assert_eq!(seen, area.ids());
    for (n, id) in seen.iter().enumerate() {
        assert!(area.contains(*id));
        assert!(!seen[n + 1..].contains(id));
    }
    assert_eq!(area.next(), None);
}

fn air_chunk() -> Vec<Block> {
    vec![Block::Air; 4096]
}

#[test]
fn mesh_empty_chunk() {
    let blocks = air_chunk();
    let mesh = TerrainMesh::build(ChunkCoord::new(0, 0, 0), &blocks);
    assert!(mesh.is_empty());
    assert_eq!(mesh.vertices.len(), 0);
    assert_eq!(mesh.indices.len(), 0);
}

#[test]
fn mesh_single_block_faces() {
    let mut blocks = air_chunk();
    blocks[BlockCoord::new(8, 8, 8).flatten()] = Block::Stone;
    let mesh = TerrainMesh::build(ChunkCoord::new(0, 0, 0), &blocks);
    assert_eq!(mesh.vertices.len(), 24);
    assert_eq!(mesh.indices.len(), 36);
    // Two triangles per quad, with the fixed winding pattern.
    for q in 0..6u32 {
        let idx = &mesh.indices[(q as usize) * 6..(q as usize) * 6 + 6];
        let b = 4 * q;
        assert_eq!(idx, [b, b + 1, b + 2, b, b + 2, b + 3]);
    }
    // Every vertex is a corner of the unit cube around block (8, 8, 8),
    // in half-block units.
    for v in &mesh.vertices {
        assert!([15, 17].contains(&v.position.x));
        assert!([15, 17].contains(&v.position.y));
        assert!([15, 17].contains(&v.position.z));
        assert_eq!((v.color.r, v.color.g, v.color.b), (5250, 5300, 5200));
    }
    // The first quad faces down: all four corners at y = 15.
    for v in &mesh.vertices[0..4] {
        assert_eq!(v.position.y, 15);
    }
    // The second quad faces up: all four corners at y = 17.
    for v in &mesh.vertices[4..8] {
        assert_eq!(v.position.y, 17);
    }
}

#[test]
fn mesh_culls_buried_faces() {
    // Two adjacent stone blocks: the two touching faces are culled,
    // leaving 10 of the 12 faces.
    let mut blocks = air_chunk();
    blocks[BlockCoord::new(8, 8, 8).flatten()] = Block::Stone;
    blocks[BlockCoord::new(9, 8, 8).flatten()] = Block::Stone;
    let mesh = TerrainMesh::build(ChunkCoord::new(0, 0, 0), &blocks);
    assert_eq!(mesh.vertices.len(), 40);
    assert_eq!(mesh.indices.len(), 60);
}

#[test]
fn mesh_emits_boundary_faces() {
    // A block in the chunk corner: boundary faces are always emitted.
    let mut blocks = air_chunk();
    blocks[BlockCoord::new(0, 0, 0).flatten()] = Block::Stone;
    let mesh = TerrainMesh::build(ChunkCoord::new(-16, 0, 32), &blocks);
    assert_eq!(mesh.vertices.len(), 24);
    assert_eq!(mesh.indices.len(), 36);
    // Positions are offset by the chunk origin, in half-block units.
    for v in &mesh.vertices {
        assert!([-33, -31].contains(&v.position.x));
        assert!([-1, 1].contains(&v.position.y));
        assert!([63, 65].contains(&v.position.z));
    }
}

fn run_ticks(mgr: &mut ChunkManager, observer: GlobalCoord, ticks: usize) {
    // Play the worker pool synchronously: each tick computes the jobs
    // the previous tick dispatched and feeds the results back in.
    let mut mesh_results: Vec<(ChunkCoord, TerrainMesh)> = Vec::new();
    let mut gen_results: Vec<(ChunkId, LogicChunk)> = Vec::new();
    for _ in 0..ticks {
        let acts = mgr.maintain(observer, mesh_results, gen_results);
        gen_results = acts
            .gen_jobs
            .iter()
            .map(|id| (*id, LogicChunk::generate_flat(*id)))
            .collect();
        mesh_results = acts
            .mesh_jobs
            .iter()
            .map(|job| (job.coord, TerrainMesh::build(job.coord, &job.blocks)))
            .collect();
    }
}

#[test]
fn manager_streams_chunks_around_observer() {
    let mut mgr = ChunkManager::new(2, 4);
    let observer = GlobalCoord::new(8, 8, 8);
    // Iterate tick + worker turnaround until the pipeline settles.
    run_ticks(&mut mgr, observer, 64);
    // The area at draw distance 2 spans 5 x 3 x 5 chunk ids.
    assert_eq!(mgr.logic.len(), 75);
    // Chunks at or below ground level got geometry; sky chunks did not.
    assert!(mgr.terrain.contains_id(ChunkId::new(0, 0, 0)));
    assert!(mgr.terrain.contains_id(ChunkId::new(-1, -1, 1)));
    assert!(!mgr.terrain.contains_id(ChunkId::new(0, 1, 0)));
    assert!(mgr.logic.contains_id(ChunkId::new(0, 1, 0)));
}

#[test]
fn manager_never_duplicates_dispatch() {
    let mut mgr = ChunkManager::new(1, 2);
    let observer = GlobalCoord::new(0, 0, 0);
    let mut pending_gen: Vec<ChunkId> = Vec::new();
    for _ in 0..40 {
        let acts = mgr.maintain(observer, Vec::new(), Vec::new());
        // No id is dispatched twice while its generation is in flight.
        for id in &acts.gen_jobs {
            assert!(!pending_gen.contains(id));
            pending_gen.push(*id);
        }
        // The in-flight set never holds an id twice.
        for (n, id) in mgr.chunk_gen_ids.iter().enumerate() {
            assert!(!mgr.chunk_gen_ids[n + 1..].contains(id));
        }
        // Deliver one pending generation per tick, holding others in flight.
        let mut gen_results = Vec::new();
        if let Some(id) = pending_gen.pop() {
            gen_results.push((id, LogicChunk::generate_flat(id)));
        }
        let acts2 = mgr.maintain(observer, Vec::new(), gen_results);
        for id in &acts2.gen_jobs {
            assert!(!pending_gen.contains(id));
            pending_gen.push(*id);
        }
        // A chunk whose mesh is pending is never meshed again this tick.
        let mut mesh_ids: Vec<ChunkId> = acts2.mesh_jobs.iter().map(|j| j.id).collect();
        mesh_ids.sort_by_key(|id| (id.x, id.y, id.z));
        mesh_ids.dedup();
        assert_eq!(mesh_ids.len(), acts2.mesh_jobs.len());
    }
}

#[test]
fn manager_evicts_chunks_left_behind() {
    let mut mgr = ChunkManager::new(2, 4);
    let near = GlobalCoord::new(0, 0, 0);
    run_ticks(&mut mgr, near, 64);
    assert!(mgr.logic.contains_id(ChunkId::new(0, 0, 0)));
    assert!(mgr.terrain.contains_id(ChunkId::new(0, 0, 0)));
    // The observer moves far enough that the old chunks leave the area.
    let far = GlobalCoord::new(1600, 0, 1600);
    mgr.maintain(far, Vec::new(), Vec::new());
    assert!(!mgr.logic.contains_id(ChunkId::new(0, 0, 0)));
    assert!(!mgr.terrain.contains_id(ChunkId::new(0, 0, 0)));
}

#[test]
fn manager_discards_stale_mesh_results() {
    let mut mgr = ChunkManager::new(2, 4);
    let observer = GlobalCoord::new(0, 0, 0);
    // A mesh result for a chunk that is not pending is dropped.
    let blocks = vec![Block::Stone; 4096];
    let coord = ChunkCoord::new(0, 0, 0);
    let mesh = TerrainMesh::build(coord, &blocks);
    let acts = mgr.maintain(observer, vec![(coord, mesh)], Vec::new());
    assert_eq!(acts.built.len(), 0);
    assert!(!mgr.terrain.contains_id(ChunkId::new(0, 0, 0)));
}

#[test]
fn manager_clear_mesh_forces_remesh() {
    let mut mgr = ChunkManager::new(2, 4);
    let observer = GlobalCoord::new(0, 0, 0);
    run_ticks(&mut mgr, observer, 64);
    let drawn = mgr.terrain.len();
    assert!(drawn > 0);
    mgr.clear_mesh();
    assert_eq!(mgr.terrain.len(), 0);
    // Every chunk is dirty again, so the next ticks rebuild the meshes.
    run_ticks(&mut mgr, observer, 64);
    assert_eq!(mgr.terrain.len(), drawn);
    mgr.cleanup();
    assert_eq!(mgr.terrain.len(), drawn);
}
