use std::collections::HashSet;

use voxel_stream::asset_loader::{AssetRegistry, Face};
use voxel_stream::candidates::{get_chunks_around, prioritized_candidates, MAX_STREAM_RADIUS};
use voxel_stream::chunk::{Chunk, ChunkCoordinate, Voxel};
use voxel_stream::chunk_manager::{
    ChunkManager, Dispatch, CHUNK_LOAD_PADDING, CHUNK_LOAD_RADIUS,
    MAX_CHUNK_DATA_GENERATION_PER_FRAME, MAX_CHUNK_MESH_GENERATION_PER_FRAME,
};
use voxel_stream::mesher::ChunkMesher;
use voxel_stream::model::UnUploadedMesh;
use voxel_stream::schedule::{LoadState, MeshState, StreamingConfig};

fn at(x: i32, z: i32) -> ChunkCoordinate {
    ChunkCoordinate::new(x, z)
}

fn small() -> StreamingConfig {
    StreamingConfig {
        load_radius: 1,
        padding: 1,
        max_generation_per_frame: 4,
        max_mesh_per_frame: 2,
    }
}

fn registry() -> AssetRegistry {
    let mut registry = AssetRegistry::new();
    for voxel in [Voxel::Grass, Voxel::Dirt, Voxel::Stone, Voxel::Snow] {
        for face in [Face::Up, Face::Down, Face::Side] {
            registry.register(voxel, face);
        }
    }
    registry
}

fn generate(position: ChunkCoordinate) -> Chunk {
    let mut chunk = Chunk::new(position);
    chunk.fill_columns(&vec![3usize; 256]);
    chunk
}

fn tick(
    manager: &mut ChunkManager,
    x: i32,
    z: i32,
    generated: Vec<Chunk>,
    meshed: Vec<(ChunkCoordinate, UnUploadedMesh)>,
) -> Dispatch {
    assert!(manager.accepts_chunks(&generated));
    assert!(manager.accepts_meshes(&meshed));
    manager.update(x, z, generated, meshed)
}

#[test]
fn square_around_a_chunk() {
    let list = get_chunks_around(at(5, -5), 1);
    assert_eq!(
        list,
        vec![
            at(4, -6),
            at(4, -5),
            at(4, -4),
            at(5, -6),
            at(5, -5),
            at(5, -4),
            at(6, -6),
            at(6, -5),
            at(6, -4),
        ]
    );
    assert_eq!(get_chunks_around(at(7, 7), 0), vec![at(7, 7)]);
    assert_eq!(get_chunks_around(at(0, 0), 10).len(), 21 * 21);
}

#[test]
fn square_at_the_edge_of_the_grid() {
    let list = get_chunks_around(at(i32::MAX - 1, i32::MIN + 1), 1);
    assert_eq!(list.len(), 9);
    assert_eq!(list[0], at(i32::MAX - 2, i32::MIN));
    assert_eq!(list[8], at(i32::MAX, i32::MIN + 2));
}

#[test]
fn candidates_around_origin_put_padding_first() {
    let origin = at(0, 0);
    let list = prioritized_candidates(origin, 2, 1);
    assert_eq!(list.len(), 49);
    let distinct: HashSet<ChunkCoordinate> = list.iter().copied().collect();
    assert_eq!(distinct.len(), 49);
    for c in &list {
        assert!(c.distance(origin) <= 3);
    }
    // the 24 chunks of the padding ring come before the 25 within the radius
    for c in &list[..24] {
        assert_eq!(c.distance(origin), 3);
    }
    for c in &list[24..] {
        assert!(c.distance(origin) <= 2);
    }
    // within the radius the nearest come first
    assert_eq!(list[24], origin);
    for c in &list[25..33] {
        assert_eq!(c.distance(origin), 1);
    }
    for c in &list[33..] {
        assert_eq!(c.distance(origin), 2);
    }
}

#[test]
fn candidates_at_the_same_distance_keep_the_order_of_the_square() {
    let list = prioritized_candidates(at(0, 0), 1, 0);
    assert_eq!(
        list,
        vec![
            at(0, 0),
            at(-1, -1),
            at(-1, 0),
            at(-1, 1),
            at(0, -1),
            at(0, 1),
            at(1, -1),
            at(1, 0),
            at(1, 1),
        ]
    );
    let list = prioritized_candidates(at(10, 20), 0, 1);
    assert_eq!(
        list,
        vec![
            at(9, 19),
            at(9, 20),
            at(9, 21),
            at(10, 19),
            at(10, 21),
            at(11, 19),
            at(11, 20),
            at(11, 21),
            at(10, 20),
        ]
    );
}

#[test]
fn candidates_with_several_padding_rings_ascend_within_the_padding() {
    let origin = at(-3, 4);
    let list = prioritized_candidates(origin, 1, 2);
    assert_eq!(list.len(), 49);
    let distances: Vec<usize> = list.iter().map(|c| c.distance(origin)).collect();
    let mut expected = vec![2; 16];
    expected.extend(vec![3; 24]);
    expected.extend(vec![0; 1]);
    expected.extend(vec![1; 8]);
    assert_eq!(distances, expected);
}

#[test]
fn default_configuration() {
    assert_eq!(CHUNK_LOAD_RADIUS, 64);
    assert_eq!(CHUNK_LOAD_PADDING, 2);
    assert_eq!(MAX_CHUNK_DATA_GENERATION_PER_FRAME, 32);
    assert_eq!(MAX_CHUNK_MESH_GENERATION_PER_FRAME, 16);
    let manager = ChunkManager::new();
    assert_eq!(
        manager.config(),
        StreamingConfig {
            load_radius: 64,
            padding: 2,
            max_generation_per_frame: 32,
            max_mesh_per_frame: 16,
        }
    );
    assert!(manager.config().is_valid());
    assert_eq!(manager.chunks_loaded(), 0);
    assert_eq!(manager.meshes_loaded(), 0);
}

#[test]
fn configuration_validity() {
    let mut config = small();
    assert!(config.is_valid());
    config.load_radius = MAX_STREAM_RADIUS;
    config.padding = 0;
    assert!(config.is_valid());
    config.padding = 1;
    assert!(!config.is_valid());
    config.load_radius = usize::MAX;
    assert!(!config.is_valid());
}

#[test]
fn first_tick_asks_for_the_surroundings_and_hands_out_loads() {
    let mut manager = ChunkManager::with_config(small());
    let jobs = tick(&mut manager, 0, 0, vec![], vec![]);
    // the first four chunks of the padding ring, in the order of the square
    assert_eq!(jobs.generate, vec![at(-2, -2), at(-2, -1), at(-2, 0), at(-2, 1)]);
    // nothing is resident yet, so nothing can be meshed
    assert_eq!(jobs.mesh, vec![]);
    for c in &jobs.generate {
        assert!(manager.is_generating(*c));
        assert!(!manager.is_load_queued(*c));
        assert!(!manager.is_resident(*c));
    }
    let queued = get_chunks_around(at(0, 0), 2)
        .into_iter()
        .filter(|c| manager.is_load_queued(*c))
        .count();
    assert_eq!(queued, 21);
    let build_queued = get_chunks_around(at(0, 0), 2)
        .into_iter()
        .filter(|c| manager.is_build_queued(*c))
        .collect::<Vec<_>>();
    assert_eq!(build_queued, get_chunks_around(at(0, 0), 1));
    assert_eq!(manager.chunks_loaded(), 0);
}

#[test]
fn tick_within_the_same_chunk_asks_for_nothing_more() {
    let mut manager = ChunkManager::with_config(small());
    let first = tick(&mut manager, 3, 3, vec![], vec![]);
    assert_eq!(first.generate.len(), 4);
    // the player moves within the chunk; no result has come back
    let second = tick(&mut manager, 15, 0, vec![], vec![]);
    assert_eq!(second.generate, vec![at(-2, 2), at(-1, -2), at(-1, 2), at(0, -2)]);
    assert_eq!(second.mesh, vec![]);
    let all = get_chunks_around(at(0, 0), 2);
    assert_eq!(all.iter().filter(|c| manager.is_load_queued(**c)).count(), 17);
    assert_eq!(all.iter().filter(|c| manager.is_generating(**c)).count(), 8);
    assert_eq!(all.iter().filter(|c| manager.is_build_queued(**c)).count(), 9);
    // nothing outside the square was asked for
    for c in get_chunks_around(at(0, 0), 4) {
        if c.distance(at(0, 0)) > 2 {
            assert!(!manager.is_load_queued(c));
            assert!(!manager.is_generating(c));
            assert!(!manager.is_build_queued(c));
        }
    }
}

#[test]
fn tick_within_the_same_chunk_still_drains_results() {
    let mut manager = ChunkManager::with_config(small());
    let first = tick(&mut manager, 0, 0, vec![], vec![]);
    let generated: Vec<Chunk> = first.generate.iter().map(|c| generate(*c)).collect();
    let second = tick(&mut manager, 1, 1, generated, vec![]);
    assert_eq!(manager.chunks_loaded(), 4);
    for c in &first.generate {
        assert!(manager.is_resident(*c));
        assert!(!manager.is_generating(*c));
    }
    assert_eq!(second.generate.len(), 4);
    for c in &second.generate {
        assert!(!first.generate.contains(c));
    }
}

#[test]
fn moving_to_another_chunk_asks_for_its_surroundings() {
    let mut manager = ChunkManager::with_config(small());
    tick(&mut manager, 0, 0, vec![], vec![]);
    let before = get_chunks_around(at(1, 0), 2)
        .into_iter()
        .filter(|c| manager.is_load_queued(*c) || manager.is_generating(*c))
        .count();
    assert_eq!(before, 20);
    tick(&mut manager, 16, 0, vec![], vec![]);
    let after = get_chunks_around(at(1, 0), 2)
        .into_iter()
        .filter(|c| manager.is_load_queued(*c) || manager.is_generating(*c))
        .count();
    assert_eq!(after, 25);
    // what was queued before is not queued twice
    let all = get_chunks_around(at(0, 0), 3);
    let queued = all.iter().filter(|c| manager.is_load_queued(**c)).count();
    let flying = all.iter().filter(|c| manager.is_generating(**c)).count();
    assert_eq!(flying, 8);
    assert_eq!(queued + flying, 30);
}

#[test]
fn negative_positions_fall_into_negative_chunks() {
    let mut manager = ChunkManager::with_config(StreamingConfig {
        load_radius: 0,
        padding: 0,
        max_generation_per_frame: 1,
        max_mesh_per_frame: 1,
    });
    let jobs = tick(&mut manager, -1, -17, vec![], vec![]);
    assert_eq!(jobs.generate, vec![at(-1, -2)]);
}

#[test]
fn build_entries_without_voxel_data_go_to_the_back() {
    let mut manager = ChunkManager::with_config(StreamingConfig {
        load_radius: 1,
        padding: 0,
        max_generation_per_frame: 1,
        max_mesh_per_frame: 2,
    });
    // load order: (0,0) then the ring; build order the same
    let first = tick(&mut manager, 0, 0, vec![], vec![]);
    assert_eq!(first.generate, vec![at(0, 0)]);
    assert_eq!(first.mesh, vec![]);
    // the build queue was (0,0), (-1,-1), ..; its first two went to the back
    let second = tick(&mut manager, 0, 0, vec![generate(at(0, 0))], vec![]);
    assert_eq!(second.generate, vec![at(-1, -1)]);
    // the entries looked at now are (-1,0) and (-1,1): neither is resident
    assert_eq!(second.mesh, vec![]);
    assert!(manager.is_build_queued(at(0, 0)));
    let mut dispatched = vec![];
    let mut generated = vec![generate(at(-1, -1))];
    for _ in 0..4 {
        let jobs = tick(&mut manager, 0, 0, generated, vec![]);
        generated = jobs.generate.iter().map(|c| generate(*c)).collect();
        dispatched.extend(jobs.mesh);
    }
    // after the rest of the first round, (0,0) and (-1,-1) came up again
    assert_eq!(dispatched[0], at(0, 0));
    assert_eq!(dispatched[1], at(-1, -1));
    assert!(manager.is_meshing(at(0, 0)));
    assert!(!manager.is_build_queued(at(0, 0)));
}

#[test]
fn streaming_runs_to_completion() {
    let registry = registry();
    let mut manager = ChunkManager::with_config(small());
    let mut generated: Vec<Chunk> = vec![];
    let mut meshed: Vec<(ChunkCoordinate, UnUploadedMesh)> = vec![];
    let mut generation_jobs: Vec<ChunkCoordinate> = vec![];
    let mut mesh_jobs: Vec<ChunkCoordinate> = vec![];
    let mut uploaded = 0;
    for _ in 0..40 {
        let jobs = tick(&mut manager, 5, 5, generated, meshed);
        assert!(jobs.generate.len() <= 4);
        assert!(jobs.mesh.len() <= 2);
        for c in &jobs.generate {
            // at most one generation job per coordinate
            assert!(!generation_jobs.contains(c));
            assert!(manager.is_generating(*c));
            assert!(!manager.is_resident(*c));
            generation_jobs.push(*c);
        }
        for c in &jobs.mesh {
            // a mesh job only for resident voxel data, and only once
            assert!(manager.is_resident(*c));
            assert!(manager.is_meshing(*c));
            assert!(!manager.is_meshed(*c));
            assert!(!mesh_jobs.contains(c));
            assert!(c.distance(at(0, 0)) <= 1);
            mesh_jobs.push(*c);
        }
        generated = jobs.generate.iter().map(|c| generate(*c)).collect();
        meshed = jobs
            .mesh
            .iter()
            .map(|c| (*c, ChunkMesher::new(manager.chunks(), &registry, *c).build()))
            .collect();
        uploaded += manager.resolve_mesh_uploads().len();
    }
    assert_eq!(manager.chunks_loaded(), 25);
    assert_eq!(manager.meshes_loaded(), 9);
    assert_eq!(uploaded, 9);
    assert_eq!(generation_jobs.len(), 25);
    assert_eq!(mesh_jobs.len(), 9);
    for c in get_chunks_around(at(0, 0), 2) {
        assert!(manager.is_resident(c));
        assert!(!manager.is_generating(c));
        assert!(!manager.is_load_queued(c));
        assert_eq!(manager.is_meshed(c), c.distance(at(0, 0)) <= 1);
    }
}

#[test]
fn meshes_wait_for_upload_in_the_order_they_came() {
    let registry = registry();
    let mut manager = ChunkManager::with_config(StreamingConfig {
        load_radius: 1,
        padding: 0,
        max_generation_per_frame: 9,
        max_mesh_per_frame: 9,
    });
    let first = tick(&mut manager, 0, 0, vec![], vec![]);
    assert_eq!(first.generate.len(), 9);
    let generated: Vec<Chunk> = first.generate.iter().map(|c| generate(*c)).collect();
    let second = tick(&mut manager, 0, 0, generated, vec![]);
    assert_eq!(second.mesh, first.generate);
    let mut meshed: Vec<(ChunkCoordinate, UnUploadedMesh)> = second
        .mesh
        .iter()
        .map(|c| (*c, ChunkMesher::new(manager.chunks(), &registry, *c).build()))
        .collect();
    meshed.reverse();
    let order: Vec<ChunkCoordinate> = meshed.iter().map(|m| m.0).collect();
    let sizes: Vec<usize> = meshed.iter().map(|m| m.1 .0.len()).collect();
    tick(&mut manager, 0, 0, vec![], meshed);
    assert_eq!(manager.meshes_loaded(), 9);
    let pending = manager.resolve_mesh_uploads();
    assert_eq!(pending.iter().map(|m| m.0).collect::<Vec<_>>(), order);
    assert_eq!(pending.iter().map(|m| m.1 .0.len()).collect::<Vec<_>>(), sizes);
    // handed out once only; they still count as built
    assert_eq!(manager.resolve_mesh_uploads().len(), 0);
    assert_eq!(manager.meshes_loaded(), 9);
    for c in order {
        assert!(manager.is_meshed(c));
        assert!(!manager.is_meshing(c));
    }
}

#[test]
fn results_that_were_not_asked_for_are_told_apart() {
    let mut manager = ChunkManager::with_config(small());
    let jobs = tick(&mut manager, 0, 0, vec![], vec![]);
    let wanted = jobs.generate[0];
    assert!(manager.accepts_chunks(&vec![generate(wanted)]));
    assert!(manager.accepts_chunks(&vec![]));
    // queued but not handed out
    assert!(!manager.accepts_chunks(&vec![generate(at(0, 0))]));
    // never asked for
    assert!(!manager.accepts_chunks(&vec![generate(at(100, 100))]));
    // the same chunk twice
    assert!(!manager.accepts_chunks(&vec![generate(wanted), generate(wanted)]));
    // an incomplete chunk
    let mut broken = generate(wanted);
    broken.voxels.pop();
    assert!(!manager.accepts_chunks(&vec![broken]));
    // no mesh job is in flight
    assert!(!manager.accepts_meshes(&vec![(wanted, (vec![], vec![]))]));
    assert!(manager.accepts_meshes(&vec![]));
    // a second result for a chunk that is resident
    manager.accept_chunk(generate(wanted));
    assert!(manager.is_resident(wanted));
    assert!(!manager.accepts_chunks(&vec![generate(wanted)]));
}

#[test]
fn separate_pipelines() {
    let registry = registry();
    let mut manager = ChunkManager::with_config(small());
    assert_eq!(manager.load_chunks(vec![]), vec![]);
    assert_eq!(manager.build_meshes(vec![]), vec![]);
    tick(&mut manager, 0, 0, vec![], vec![]);
    let more = manager.load_chunks(vec![generate(at(-2, -2))]);
    assert_eq!(more.len(), 4);
    assert!(manager.is_resident(at(-2, -2)));
    // asking again without moving changes nothing
    manager.queue_surrounding_chunks();
    assert_eq!(
        get_chunks_around(at(0, 0), 2)
            .into_iter()
            .filter(|c| manager.is_load_queued(*c))
            .count(),
        17
    );
    let jobs = manager.dispatch_builds();
    assert_eq!(jobs, vec![]);
    let mut generated = vec![];
    for c in get_chunks_around(at(0, 0), 2) {
        if manager.is_generating(c) {
            generated.push(generate(c));
        }
    }
    let mut loads = manager.load_chunks(generated);
    while !loads.is_empty() {
        let generated = loads.iter().map(|c| generate(*c)).collect();
        loads = manager.load_chunks(generated);
    }
    assert_eq!(manager.chunks_loaded(), 25);
    let jobs = manager.build_meshes(vec![]);
    assert_eq!(jobs.len(), 2);
    let meshed = jobs
        .iter()
        .map(|c| (*c, ChunkMesher::new(manager.chunks(), &registry, *c).build()))
        .collect();
    let jobs = manager.build_meshes(meshed);
    assert_eq!(jobs.len(), 2);
    assert_eq!(manager.meshes_loaded(), 2);
    manager.accept_mesh(jobs[0], (vec![], vec![]));
    assert_eq!(manager.meshes_loaded(), 3);
    assert_eq!(manager.dispatch_loads(), vec![]);
}

#[test]
fn coordinate_passes_through_the_states_in_order() {
    let registry = registry();
    let mut manager = ChunkManager::with_config(StreamingConfig {
        load_radius: 0,
        padding: 1,
        max_generation_per_frame: 9,
        max_mesh_per_frame: 1,
    });
    let centre = at(0, 0);
    let edge = at(1, 1);
    assert_eq!(manager.load_state(centre), LoadState::Unrequested);
    assert_eq!(manager.mesh_state(centre), MeshState::Unrequested);

    manager.update(0, 0, vec![], vec![]);
    assert_eq!(manager.load_state(centre), LoadState::Generating);
    assert_eq!(manager.load_state(edge), LoadState::Generating);
    assert_eq!(manager.mesh_state(centre), MeshState::Queued);
    // the padding ring is never meshed
    assert_eq!(manager.mesh_state(edge), MeshState::Unrequested);

    let jobs = manager.update(0, 0, vec![generate(centre), generate(edge)], vec![]);
    assert_eq!(jobs.mesh, vec![centre]);
    assert_eq!(manager.load_state(centre), LoadState::Resident);
    assert_eq!(manager.load_state(edge), LoadState::Resident);
    assert_eq!(manager.load_state(at(-1, 0)), LoadState::Generating);
    assert_eq!(manager.mesh_state(centre), MeshState::Meshing);

    let mesh = ChunkMesher::new(manager.chunks(), &registry, centre).build();
    manager.update(0, 0, vec![], vec![(centre, mesh)]);
    assert_eq!(manager.mesh_state(centre), MeshState::Built);
    assert!(manager.is_pending(centre));

    assert_eq!(manager.resolve_mesh_uploads().len(), 1);
    assert_eq!(manager.mesh_state(centre), MeshState::Uploaded);
    assert!(!manager.is_pending(centre));
    assert_eq!(manager.mesh_state(edge), MeshState::Unrequested);
}

#[test]
fn coordinates_wait_in_the_queue_beyond_the_cap() {
    let mut manager = ChunkManager::with_config(StreamingConfig {
        load_radius: 1,
        padding: 0,
        max_generation_per_frame: 1,
        max_mesh_per_frame: 0,
    });
    let jobs = manager.update(40, -40, vec![], vec![]);
    assert_eq!(jobs.generate, vec![at(2, -3)]);
    assert_eq!(manager.load_state(at(2, -3)), LoadState::Generating);
    assert_eq!(manager.load_state(at(1, -4)), LoadState::Queued);
    assert_eq!(manager.load_state(at(3, -2)), LoadState::Queued);
    assert_eq!(manager.load_state(at(4, -2)), LoadState::Unrequested);
    // with a cap of nothing no mesh job is ever handed out
    let jobs = manager.update(40, -40, vec![generate(at(2, -3))], vec![]);
    assert_eq!(jobs.mesh, vec![]);
    assert_eq!(manager.mesh_state(at(2, -3)), MeshState::Queued);
}
