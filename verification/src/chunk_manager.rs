//! The streaming scheduler: it keeps the resident chunks and the built meshes,
//! and decides tick by tick which chunks to generate and which to mesh.
//!
//! The manager does not run the jobs. A tick takes the results that have come
//! back since the last one and returns the coordinates of the jobs to start;
//! whoever drives the manager runs them and brings their results to a later tick.

use crate::candidates::lemma_filter_keeps;
use crate::candidates::lemma_prioritized_members;
use crate::candidates::prioritized_candidates;
use crate::chunk::Chunk;
use crate::chunk::coordinates;
use crate::chunk::lemma_coordinates_insert;
use crate::chunk::lemma_coordinates_len;
use crate::chunk::lemma_coordinates_remove;
use crate::chunk::ChunkCoordinate;
use crate::chunk_store::ChunkStore;
use crate::model::UnUploadedMesh;
use crate::schedule::lemma_accept_chunk;
use crate::schedule::lemma_accept_chunks;
use crate::schedule::lemma_accept_mesh;
use crate::schedule::lemma_accept_meshes;
use crate::schedule::lemma_dispatch_builds;
use crate::schedule::lemma_dispatch_loads;
use crate::schedule::lemma_initial;
use crate::schedule::lemma_mesh_count;
use crate::schedule::lemma_queue_surrounding;
use crate::schedule::lemma_resolve_uploads;
use crate::schedule::lemma_tick;
use crate::schedule::lemma_tick_jobs;
use crate::schedule::min;
use crate::schedule::LoadState;
use crate::schedule::MeshState;
use crate::schedule::Schedule;
use crate::schedule::StreamingConfig;
use std::collections::HashSet;
use std::collections::VecDeque;
use vstd::prelude::*;

verus! {

broadcast use {
    vstd::std_specs::hash::group_hash_axioms,
    vstd::std_specs::vecdeque::group_vec_dequeue_axioms,
};

/// The radius around the player in which chunks are loaded. Extra chunks in
/// both the x and z axes are loaded as padding for mesh generation.
pub const CHUNK_LOAD_RADIUS: usize = 64;

/// The size of the padding around loaded chunks. These padding chunks only have
/// their voxel data generated; without their meshes being built.
pub const CHUNK_LOAD_PADDING: usize = 2;

/// The maximum number of chunks whose voxel data can be generated per frame.
pub const MAX_CHUNK_DATA_GENERATION_PER_FRAME: usize = 32;

/// The maximum number of chunks whose meshes can be built per frame.
pub const MAX_CHUNK_MESH_GENERATION_PER_FRAME: usize = 16;

/// Whether a queue holds a coordinate.
fn queue_contains(queue: &VecDeque<ChunkCoordinate>, position: ChunkCoordinate) -> (b: bool)
    ensures
        b == queue@.contains(position),
{
    let mut i: usize = 0;
    while i < queue.len()
        invariant
            0 <= i <= queue@.len(),
            forall|j: int| 0 <= j < i ==> queue@[j] != position,
        decreases queue@.len() - i,
    {
        let c: ChunkCoordinate = queue[i];
        if c == position {
            return true;
        }
        i = i + 1;
    }
    false
}

/// Whether a set of keys holds the key of a coordinate.
fn keys_contain(keys: &HashSet<u64>, position: ChunkCoordinate) -> (b: bool)
    ensures
        b == coordinates(keys@).contains(position),
{
    let key: u64 = position.key();
    keys.contains(&key)
}

/// The jobs that a tick hands out.
#[derive(Debug)]
pub struct Dispatch {
    /// The coordinates of the chunks whose voxel data is to be generated.
    pub generate: Vec<ChunkCoordinate>,
    /// The coordinates of the chunks whose mesh is to be built.
    pub mesh: Vec<ChunkCoordinate>,
}

/// Manages the loading of chunks around the player.
pub struct ChunkManager {
    /// The radii and the per-tick caps.
    config: StreamingConfig,
    /// The chunks that are currently loaded.
    chunks: ChunkStore,
    /// The chunks whose meshes have been made, uploaded or not.
    meshed: HashSet<u64>,
    /// The meshes of the chunks that have been made but not yet been handed out
    /// for upload to the GPU.
    unuploaded_meshes: Vec<(ChunkCoordinate, UnUploadedMesh)>,
    /// A queue of chunks to load.
    load_queue: VecDeque<ChunkCoordinate>,
    /// A queue of chunks to build meshes for.
    build_queue: VecDeque<ChunkCoordinate>,
    /// A list of chunks that are currently having their voxel data generated.
    currently_generating: HashSet<u64>,
    /// A list of chunks that are currently having their meshes built.
    currently_meshing: HashSet<u64>,
    /// The (current) chunk the player is in.
    current_chunk: Option<ChunkCoordinate>,
}

impl View for ChunkManager {
    type V = Schedule;

    closed spec fn view(&self) -> Schedule {
        Schedule {
            config: self.config,
            chunks: self.chunks@,
            meshed: coordinates(self.meshed@),
            unuploaded: self.unuploaded_meshes@,
            load_queue: self.load_queue@,
            build_queue: self.build_queue@,
            generating: coordinates(self.currently_generating@),
            meshing: coordinates(self.currently_meshing@),
            current_chunk: self.current_chunk,
        }
    }
}

impl ChunkManager {
    /// The tables of the manager are sound.
    pub closed spec fn tables_wf(&self) -> bool {
        &&& self.chunks.wf()
        &&& self.meshed@.finite()
        &&& self.currently_generating@.finite()
        &&& self.currently_meshing@.finite()
    }

    /// The tables of the manager are sound and its schedule is in order.
    pub closed spec fn wf(&self) -> bool {
        &&& self.tables_wf()
        &&& self@.consistent()
    }

    /// A well-formed manager holds a schedule that is in order.
    pub proof fn lemma_consistent(&self)
        requires
            self.wf(),
        ensures
            self@.consistent(),
    {
    }

    /// Creates a new chunk manager with the default radii and caps.
    pub fn new() -> (manager: ChunkManager)
        ensures
            manager.wf(),
            manager@ == Schedule::initial(
                StreamingConfig {
                    load_radius: CHUNK_LOAD_RADIUS,
                    padding: CHUNK_LOAD_PADDING,
                    max_generation_per_frame: MAX_CHUNK_DATA_GENERATION_PER_FRAME,
                    max_mesh_per_frame: MAX_CHUNK_MESH_GENERATION_PER_FRAME,
                },
            ),
    {
        ChunkManager::with_config(
            StreamingConfig {
                load_radius: CHUNK_LOAD_RADIUS,
                padding: CHUNK_LOAD_PADDING,
                max_generation_per_frame: MAX_CHUNK_DATA_GENERATION_PER_FRAME,
                max_mesh_per_frame: MAX_CHUNK_MESH_GENERATION_PER_FRAME,
            },
        )
    }

    /// Creates a new chunk manager with the given radii and caps.
    pub fn with_config(config: StreamingConfig) -> (manager: ChunkManager)
        requires
            config.valid(),
        ensures
            manager.wf(),
            manager@ == Schedule::initial(config),
    {
        let manager = ChunkManager {
            config,
            chunks: ChunkStore::new(),
            meshed: HashSet::new(),
            unuploaded_meshes: Vec::new(),
            load_queue: VecDeque::new(),
            build_queue: VecDeque::new(),
            currently_generating: HashSet::new(),
            currently_meshing: HashSet::new(),
            current_chunk: None,
        };
        proof {
            lemma_initial(config);
            assert(coordinates(Set::<u64>::empty()) =~= Set::<ChunkCoordinate>::empty());
            assert(manager@ =~= Schedule::initial(config));
        }
        manager
    }

    /// The resident chunks.
    pub fn chunks(&self) -> (chunks: &ChunkStore)
        requires
            self.wf(),
        ensures
            chunks.wf(),
            chunks@ == self@.chunks,
    {
        &self.chunks
    }

    /// The radii and the per-tick caps.
    pub fn config(&self) -> (config: StreamingConfig)
        ensures
            config == self@.config,
    {
        self.config
    }

    /// Whether the voxel data of the chunk at the given position is resident.
    pub fn is_resident(&self, position: ChunkCoordinate) -> (b: bool)
        ensures
            b == self@.chunks.contains_key(position),
    {
        self.chunks.contains(position)
    }

    /// Whether a generation job for the chunk at the given position is in flight.
    pub fn is_generating(&self, position: ChunkCoordinate) -> (b: bool)
        ensures
            b == self@.generating.contains(position),
    {
        keys_contain(&self.currently_generating, position)
    }

    /// Whether a mesh job for the chunk at the given position is in flight.
    pub fn is_meshing(&self, position: ChunkCoordinate) -> (b: bool)
        ensures
            b == self@.meshing.contains(position),
    {
        keys_contain(&self.currently_meshing, position)
    }

    /// Whether the mesh of the chunk at the given position has been built.
    pub fn is_meshed(&self, position: ChunkCoordinate) -> (b: bool)
        ensures
            b == self@.meshed.contains(position),
    {
        keys_contain(&self.meshed, position)
    }

    /// Whether the chunk at the given position waits in the load queue.
    pub fn is_load_queued(&self, position: ChunkCoordinate) -> (b: bool)
        ensures
            b == self@.load_queue.contains(position),
    {
        queue_contains(&self.load_queue, position)
    }

    /// Whether the chunk at the given position waits in the build queue.
    pub fn is_build_queued(&self, position: ChunkCoordinate) -> (b: bool)
        ensures
            b == self@.build_queue.contains(position),
    {
        queue_contains(&self.build_queue, position)
    }

    /// Whether the mesh of the chunk at the given position waits for upload.
    pub fn is_pending(&self, position: ChunkCoordinate) -> (b: bool)
        ensures
            b == self@.pending().contains(position),
    {
        let mut i: usize = 0;
        while i < self.unuploaded_meshes.len()
            invariant
                0 <= i <= self.unuploaded_meshes@.len(),
                self@.pending().len() == self.unuploaded_meshes@.len(),
                forall|j: int| 0 <= j < i ==> self@.pending()[j] != position,
            decreases self.unuploaded_meshes@.len() - i,
        {
            if self.unuploaded_meshes[i].0 == position {
                assert(self@.pending()[i as int] == position);
                return true;
            }
            i = i + 1;
        }
        false
    }

    /// How far the voxel data of the chunk at the given position has come.
    pub fn load_state(&self, position: ChunkCoordinate) -> (state: LoadState)
        ensures
            state == self@.load_state(position),
    {
        if self.is_resident(position) {
            LoadState::Resident
        } else if self.is_generating(position) {
            LoadState::Generating
        } else if self.is_load_queued(position) {
            LoadState::Queued
        } else {
            LoadState::Unrequested
        }
    }

    /// How far the mesh of the chunk at the given position has come.
    pub fn mesh_state(&self, position: ChunkCoordinate) -> (state: MeshState)
        ensures
            state == self@.mesh_state(position),
    {
        if self.is_meshed(position) {
            if self.is_pending(position) {
                MeshState::Built
            } else {
                MeshState::Uploaded
            }
        } else if self.is_meshing(position) {
            MeshState::Meshing
        } else if self.is_build_queued(position) {
            MeshState::Queued
        } else {
            MeshState::Unrequested
        }
    }

    /// Whether `generated` can be the results of generation jobs in flight.
    pub fn accepts_chunks(&self, generated: &Vec<Chunk>) -> (b: bool)
        ensures
            b == self@.accepts_chunks(generated@),
    {
        let mut i: usize = 0;
        while i < generated.len()
            invariant
                0 <= i <= generated@.len(),
                self@.accepts_chunks(generated@.take(i as int)),
            decreases generated@.len() - i,
        {
            let position: ChunkCoordinate = generated[i].position;
            if !generated[i].is_complete() || !self.is_generating(position) {
                return false;
            }
            let mut j: usize = 0;
            while j < i
                invariant
                    0 <= j <= i < generated@.len(),
                    position == generated@[i as int].position,
                    forall|k: int|
                        0 <= k < j ==> (#[trigger] generated@[k]).position != position,
                decreases i - j,
            {
                if generated[j].position == position {
                    return false;
                }
                j = j + 1;
            }
            assert(self@.accepts_chunks(generated@.take(i + 1))) by {
                let before = generated@.take(i as int);
                let now = generated@.take(i + 1);
                assert forall|k: int| 0 <= k < now.len() implies (#[trigger] now[k]).wf()
                    && self@.generating.contains(now[k].position) by {
                    if k < i {
                        assert(before[k] == now[k]);
                    }
                }
                assert forall|k: int, l: int| 0 <= k < l < now.len() implies (#[trigger] now[k]).position
                    != (#[trigger] now[l]).position by {
                    if l < i {
                        assert(before[k] == now[k]);
                        assert(before[l] == now[l]);
                    }
                }
            }
            i = i + 1;
        }
        assert(generated@.take(generated@.len() as int) =~= generated@);
        true
    }

    /// Whether `meshed` can be the results of mesh jobs in flight.
    pub fn accepts_meshes(&self, meshed: &Vec<(ChunkCoordinate, UnUploadedMesh)>) -> (b: bool)
        ensures
            b == self@.accepts_meshes(meshed@),
    {
        let mut i: usize = 0;
        while i < meshed.len()
            invariant
                0 <= i <= meshed@.len(),
                self@.accepts_meshes(meshed@.take(i as int)),
            decreases meshed@.len() - i,
        {
            let position: ChunkCoordinate = meshed[i].0;
            if !self.is_meshing(position) {
                return false;
            }
            let mut j: usize = 0;
            while j < i
                invariant
                    0 <= j <= i < meshed@.len(),
                    position == meshed@[i as int].0,
                    forall|k: int| 0 <= k < j ==> (#[trigger] meshed@[k]).0 != position,
                decreases i - j,
            {
                if meshed[j].0 == position {
                    return false;
                }
                j = j + 1;
            }
            assert(self@.accepts_meshes(meshed@.take(i + 1))) by {
                let before = meshed@.take(i as int);
                let now = meshed@.take(i + 1);
                assert forall|k: int| 0 <= k < now.len() implies self@.meshing.contains(
                    (#[trigger] now[k]).0,
                ) by {
                    if k < i {
                        assert(before[k] == now[k]);
                    }
                }
                assert forall|k: int, l: int| 0 <= k < l < now.len() implies (#[trigger] now[k]).0
                    != (#[trigger] now[l]).0 by {
                    if l < i {
                        assert(before[k] == now[k]);
                        assert(before[l] == now[l]);
                    }
                }
            }
            i = i + 1;
        }
        assert(meshed@.take(meshed@.len() as int) =~= meshed@);
        true
    }

    /// Takes the chunk that a generation job in flight has made: the chunk
    /// becomes resident.
    pub fn accept_chunk(&mut self, chunk: Chunk)
        requires
            old(self).wf(),
            chunk.wf(),
            old(self)@.generating.contains(chunk.position),
        ensures
            final(self).wf(),
            final(self)@ == old(self)@.accept_chunk(chunk),
    {
        let key: u64 = chunk.position.key();
        proof {
            lemma_coordinates_remove(self.currently_generating@, chunk.position);
            lemma_accept_chunk(self@, chunk);
        }
        self.currently_generating.remove(&key);
        self.chunks.insert(chunk);
        assert(self@ =~= old(self)@.accept_chunk(chunk));
    }

    /// Takes the mesh that a mesh job in flight has built: the mesh waits for
    /// upload.
    pub fn accept_mesh(&mut self, position: ChunkCoordinate, mesh: UnUploadedMesh)
        requires
            old(self).wf(),
            old(self)@.meshing.contains(position),
        ensures
            final(self).wf(),
            final(self)@ == old(self)@.accept_mesh(position, mesh),
    {
        let key: u64 = position.key();
        proof {
            lemma_coordinates_remove(self.currently_meshing@, position);
            lemma_coordinates_insert(self.meshed@, position);
            lemma_accept_mesh(self@, position, mesh);
        }
        self.currently_meshing.remove(&key);
        self.meshed.insert(key);
        self.unuploaded_meshes.push((position, mesh));
        assert(self@ =~= old(self)@.accept_mesh(position, mesh));
    }

    /// Drains the results of the generation jobs that have come back.
    pub fn accept_chunks(&mut self, generated: Vec<Chunk>)
        requires
            old(self).wf(),
            old(self)@.accepts_chunks(generated@),
        ensures
            final(self).wf(),
            final(self)@ == old(self)@.accept_chunks(generated@),
    {
        let ghost before = self@;
        let ghost results = generated@;
        assert(results.take(0) =~= Seq::empty());
        for chunk in it: generated
            invariant
                self.wf(),
                before.consistent(),
                before.accepts_chunks(results),
                it.seq() == results,
                self@ == before.accept_chunks(results.take(it.index() as int)),
        {
            let ghost i = it.index() as int;
            proof {
                assert(chunk == results[i]);
                lemma_prefix_accepts_chunks(before, results, i);
                lemma_accept_chunks(before, results.take(i));
                assert(self@.generating.contains(chunk.position)) by {
                    assert forall|k: int| 0 <= k < results.take(i).len() implies (
                    #[trigger] results.take(i)[k]).position != chunk.position by {
                        assert(results.take(i)[k] == results[k]);
                    }
                }
                assert(results.take(i + 1).drop_last() =~= results.take(i));
            }
            self.accept_chunk(chunk);
        }
        assert(results.take(results.len() as int) =~= results);
    }

    /// Drains the results of the mesh jobs that have come back.
    pub fn accept_meshes(&mut self, meshed: Vec<(ChunkCoordinate, UnUploadedMesh)>)
        requires
            old(self).wf(),
            old(self)@.accepts_meshes(meshed@),
        ensures
            final(self).wf(),
            final(self)@ == old(self)@.accept_meshes(meshed@),
    {
        let ghost before = self@;
        let ghost results = meshed@;
        assert(results.take(0) =~= Seq::empty());
        for entry in it: meshed
            invariant
                self.wf(),
                before.consistent(),
                before.accepts_meshes(results),
                it.seq() == results,
                self@ == before.accept_meshes(results.take(it.index() as int)),
        {
            let ghost i = it.index() as int;
            proof {
                assert(entry == results[i]);
                lemma_prefix_accepts_meshes(before, results, i);
                lemma_accept_meshes(before, results.take(i));
                assert(self@.meshing.contains(entry.0)) by {
                    assert forall|k: int| 0 <= k < results.take(i).len() implies (
                    #[trigger] results.take(i)[k]).0 != entry.0 by {
                        assert(results.take(i)[k] == results[k]);
                    }
                }
                assert(results.take(i + 1).drop_last() =~= results.take(i));
            }
            self.accept_mesh(entry.0, entry.1);
        }
        assert(results.take(results.len() as int) =~= results);
    }

    /// Adds the chunks around the current chunk that are not currently being
    /// built or have not already been generated (mesh or voxel data) onto the
    /// respective queues.
    pub fn queue_surrounding_chunks(&mut self)
        requires
            old(self).wf(),
        ensures
            final(self).wf(),
            final(self)@ == old(self)@.queue_surrounding(),
    {
        let focal: ChunkCoordinate = match self.current_chunk {
            Some(focal) => focal,
            None => {
                return ;
            },
        };
        let ghost before = self@;
        proof {
            lemma_queue_surrounding(before);
            lemma_prioritized_members(
                focal,
                self.config.load_radius as nat,
                self.config.padding as nat,
            );
        }
        let candidates: Vec<ChunkCoordinate> = prioritized_candidates(
            focal,
            self.config.load_radius,
            self.config.padding,
        );
        let mut i: usize = 0;
        proof {
            assert(candidates@.take(0).filter(before.load_test()) =~= Seq::empty()) by {
                reveal(Seq::filter);
            }
            assert(candidates@.take(0).filter(before.build_test(focal)) =~= Seq::empty()) by {
                reveal(Seq::filter);
            }
            assert(self@ =~= before.enqueue(candidates@.take(0), focal));
        }
        while i < candidates.len()
            invariant
                0 <= i <= candidates@.len(),
                self.tables_wf(),
                before.consistent(),
                before.current_chunk == Some(focal),
                candidates@.no_duplicates(),
                self@ == before.enqueue(candidates@.take(i as int), focal),
            decreases candidates@.len() - i,
        {
            let neighbor: ChunkCoordinate = candidates[i];
            let ghost seen = candidates@.take(i as int);
            proof {
                assert(candidates@.take(i + 1) =~= seen.push(neighbor));
                seen.lemma_filter_push(neighbor, before.load_test());
                seen.lemma_filter_push(neighbor, before.build_test(focal));
                assert(!seen.contains(neighbor)) by {
                    if seen.contains(neighbor) {
                        let k = choose|k: int| 0 <= k < seen.len() && seen[k] == neighbor;
                        assert(candidates@[k] == candidates@[i as int]);
                    }
                }
                lemma_filter_keeps(seen, before.load_test(), neighbor);
                lemma_filter_keeps(seen, before.build_test(focal), neighbor);
                vstd::seq_lib::lemma_seq_concat_contains_all_elements(
                    before.load_queue,
                    seen.filter(before.load_test()),
                    neighbor,
                );
                vstd::seq_lib::lemma_seq_concat_contains_all_elements(
                    before.build_queue,
                    seen.filter(before.build_test(focal)),
                    neighbor,
                );
            }
            if !(self.chunks.contains(neighbor) || queue_contains(&self.load_queue, neighbor)
                || keys_contain(&self.currently_generating, neighbor)) {
                self.load_queue.push_back(neighbor);
            }
            if neighbor.distance(focal) <= self.config.load_radius {
                if !(keys_contain(&self.meshed, neighbor) || queue_contains(
                    &self.build_queue,
                    neighbor,
                ) || keys_contain(&self.currently_meshing, neighbor)) {
                    self.build_queue.push_back(neighbor);
                }
            }
            assert(self@ =~= before.enqueue(candidates@.take(i + 1), focal));
            i = i + 1;
        }
        assert(candidates@.take(candidates@.len() as int) =~= candidates@);
    }

    /// Hands out up to the cap of generation jobs from the front of the load
    /// queue. Each is for a coordinate that has no job in flight.
    pub fn dispatch_loads(&mut self) -> (jobs: Vec<ChunkCoordinate>)
        requires
            old(self).wf(),
        ensures
            final(self).wf(),
            final(self)@ == old(self)@.dispatch_loads(),
            jobs@ == old(self)@.load_jobs(),
            jobs@.no_duplicates(),
            forall|i: int|
                0 <= i < jobs@.len() ==> !old(self)@.generating.contains(#[trigger] jobs@[i])
                    && final(self)@.generating.contains(jobs@[i]),
    {
        let ghost before = self@;
        proof {
            lemma_dispatch_loads(before);
        }
        let count: usize = if self.config.max_generation_per_frame < self.load_queue.len() {
            self.config.max_generation_per_frame
        } else {
            self.load_queue.len()
        };
        let mut jobs: Vec<ChunkCoordinate> = Vec::new();
        let mut taken: usize = 0;
        proof {
            assert(before.load_queue.skip(0) =~= before.load_queue);
            assert(before.load_queue.take(0).to_set() =~= Set::empty());
            assert(before.generating.union(Set::empty()) =~= before.generating);
        }
        while taken < count
            invariant
                0 <= taken <= count <= before.load_queue.len(),
                count == min(
                    before.config.max_generation_per_frame as int,
                    before.load_queue.len() as int,
                ),
                self.chunks.wf(),
                self.meshed@.finite(),
                self.currently_generating@.finite(),
                self.currently_meshing@.finite(),
                jobs@ == before.load_queue.take(taken as int),
                self@ == (Schedule {
                    load_queue: before.load_queue.skip(taken as int),
                    generating: before.generating.union(
                        before.load_queue.take(taken as int).to_set(),
                    ),
                    ..before
                }),
            decreases count - taken,
        {
            let position: ChunkCoordinate = self.load_queue.pop_front().unwrap();
            let key: u64 = position.key();
            proof {
                lemma_coordinates_insert(self.currently_generating@, position);
                assert(position == before.load_queue[taken as int]);
                assert(before.load_queue.take(taken + 1) =~= before.load_queue.take(
                    taken as int,
                ).push(position));
                before.load_queue.take(taken as int).lemma_push_to_set_commute(position);
                assert(before.generating.union(before.load_queue.take(taken + 1).to_set())
                    =~= before.generating.union(
                    before.load_queue.take(taken as int).to_set(),
                ).insert(position));
                assert(before.load_queue.skip(taken as int).subrange(
                    1,
                    before.load_queue.skip(taken as int).len() as int,
                ) =~= before.load_queue.skip(taken + 1));
            }
            self.currently_generating.insert(key);
            jobs.push(position);
            taken = taken + 1;
        }
        assert(self@ =~= before.dispatch_loads());
        jobs
    }

    /// Looks at up to the cap of entries at the front of the build queue and
    /// hands out a mesh job for each whose voxel data is resident. The others
    /// go to the back of the queue.
    pub fn dispatch_builds(&mut self) -> (jobs: Vec<ChunkCoordinate>)
        requires
            old(self).wf(),
        ensures
            final(self).wf(),
            final(self)@ == old(self)@.dispatch_builds(),
            jobs@ == old(self)@.build_jobs(),
            jobs@.no_duplicates(),
            forall|i: int|
                0 <= i < jobs@.len() ==> old(self)@.chunks.contains_key(#[trigger] jobs@[i])
                    && !old(self)@.meshing.contains(jobs@[i]),
    {
        let ghost before = self@;
        proof {
            lemma_dispatch_builds(before);
        }
        let count: usize = if self.config.max_mesh_per_frame < self.build_queue.len() {
            self.config.max_mesh_per_frame
        } else {
            self.build_queue.len()
        };
        let mut jobs: Vec<ChunkCoordinate> = Vec::new();
        let mut reinsert: Vec<ChunkCoordinate> = Vec::new();
        let mut taken: usize = 0;
        let ghost resident = before.resident_test();
        let ghost absent = before.absent_test();
        proof {
            assert(before.build_queue.skip(0) =~= before.build_queue);
            assert(before.build_queue.take(0).filter(resident) =~= Seq::empty()) by {
                reveal(Seq::filter);
            }
            assert(before.build_queue.take(0).filter(absent) =~= Seq::empty()) by {
                reveal(Seq::filter);
            }
            assert(Seq::<ChunkCoordinate>::empty().to_set() =~= Set::empty());
            assert(before.meshing.union(Set::empty()) =~= before.meshing);
        }
        while taken < count
            invariant
                0 <= taken <= count <= before.build_queue.len(),
                count == min(
                    before.config.max_mesh_per_frame as int,
                    before.build_queue.len() as int,
                ),
                resident == before.resident_test(),
                absent == before.absent_test(),
                self.chunks.wf(),
                self.meshed@.finite(),
                self.currently_generating@.finite(),
                self.currently_meshing@.finite(),
                jobs@ == before.build_queue.take(taken as int).filter(resident),
                reinsert@ == before.build_queue.take(taken as int).filter(absent),
                self@ == (Schedule {
                    build_queue: before.build_queue.skip(taken as int),
                    meshing: before.meshing.union(jobs@.to_set()),
                    ..before
                }),
            decreases count - taken,
        {
            let position: ChunkCoordinate = self.build_queue.pop_front().unwrap();
            let ghost seen = before.build_queue.take(taken as int);
            let ghost jobs_before = jobs@;
            proof {
                assert(position == before.build_queue[taken as int]);
                assert(before.build_queue.take(taken + 1) =~= seen.push(position));
                seen.lemma_filter_push(position, resident);
                seen.lemma_filter_push(position, absent);
                assert(before.build_queue.skip(taken as int).subrange(
                    1,
                    before.build_queue.skip(taken as int).len() as int,
                ) =~= before.build_queue.skip(taken + 1));
            }
            if !self.chunks.contains(position) {
                reinsert.push(position);
            } else {
                let key: u64 = position.key();
                proof {
                    lemma_coordinates_insert(self.currently_meshing@, position);
                    jobs_before.lemma_push_to_set_commute(position);
                    assert(before.meshing.union(jobs_before.push(position).to_set())
                        =~= before.meshing.union(jobs_before.to_set()).insert(position));
                }
                self.currently_meshing.insert(key);
                jobs.push(position);
            }
            taken = taken + 1;
        }
        let ghost rest = before.build_queue.skip(count as int);
        let mut i: usize = 0;
        assert(rest + reinsert@.take(0) =~= rest);
        while i < reinsert.len()
            invariant
                0 <= i <= reinsert@.len(),
                self.chunks.wf(),
                self.meshed@.finite(),
                self.currently_generating@.finite(),
                self.currently_meshing@.finite(),
                self@ == (Schedule {
                    build_queue: rest + reinsert@.take(i as int),
                    meshing: before.meshing.union(jobs@.to_set()),
                    ..before
                }),
            decreases reinsert@.len() - i,
        {
            self.build_queue.push_back(reinsert[i]);
            assert(rest + reinsert@.take(i + 1) =~= (rest + reinsert@.take(i as int)).push(
                reinsert@[i as int],
            ));
            i = i + 1;
        }
        assert(reinsert@.take(reinsert@.len() as int) =~= reinsert@);
        assert(self@ =~= before.dispatch_builds());
        jobs
    }

    /// Drains the generation results that have come back, then hands out up to
    /// the cap of generation jobs from the load queue.
    pub fn load_chunks(&mut self, generated: Vec<Chunk>) -> (jobs: Vec<ChunkCoordinate>)
        requires
            old(self).wf(),
            old(self)@.accepts_chunks(generated@),
        ensures
            final(self).wf(),
            final(self)@ == old(self)@.accept_chunks(generated@).dispatch_loads(),
            jobs@ == old(self)@.accept_chunks(generated@).load_jobs(),
    {
        self.accept_chunks(generated);
        self.dispatch_loads()
    }

    /// Drains the mesh results that have come back, then hands out mesh jobs for
    /// up to the cap of entries of the build queue.
    pub fn build_meshes(&mut self, meshed: Vec<(ChunkCoordinate, UnUploadedMesh)>) -> (jobs: Vec<
        ChunkCoordinate,
    >)
        requires
            old(self).wf(),
            old(self)@.accepts_meshes(meshed@),
        ensures
            final(self).wf(),
            final(self)@ == old(self)@.accept_meshes(meshed@).dispatch_builds(),
            jobs@ == old(self)@.accept_meshes(meshed@).build_jobs(),
    {
        self.accept_meshes(meshed);
        self.dispatch_builds()
    }

    /// Updates the chunk manager with the latest player position and the
    /// results that have come back, and returns the jobs to start. The player
    /// position is given in whole voxels along x and z.
    pub fn update(
        &mut self,
        player_x: i32,
        player_z: i32,
        generated: Vec<Chunk>,
        meshed: Vec<(ChunkCoordinate, UnUploadedMesh)>,
    ) -> (jobs: Dispatch)
        requires
            old(self).wf(),
            old(self)@.accepts_chunks(generated@),
            old(self)@.accepts_meshes(meshed@),
        ensures
            final(self).wf(),
            final(self)@ == old(self)@.tick(
                ChunkCoordinate::spec_containing(player_x as int, player_z as int),
                generated@,
                meshed@,
            ),
            jobs.generate@ == old(self)@.drained(
                ChunkCoordinate::spec_containing(player_x as int, player_z as int),
                generated@,
                meshed@,
            ).load_jobs(),
            jobs.mesh@ == old(self)@.drained(
                ChunkCoordinate::spec_containing(player_x as int, player_z as int),
                generated@,
                meshed@,
            ).dispatch_loads().build_jobs(),
            jobs.generate@.no_duplicates(),
            jobs.generate@.len() <= old(self)@.config.max_generation_per_frame,
            forall|i: int|
                0 <= i < jobs.generate@.len() ==> !old(self)@.generating.contains(
                    #[trigger] jobs.generate@[i],
                ) && !final(self)@.chunks.contains_key(jobs.generate@[i])
                    && final(self)@.generating.contains(jobs.generate@[i]),
            jobs.mesh@.no_duplicates(),
            jobs.mesh@.len() <= old(self)@.config.max_mesh_per_frame,
            forall|i: int|
                0 <= i < jobs.mesh@.len() ==> final(self)@.chunks.contains_key(
                    #[trigger] jobs.mesh@[i],
                ) && !old(self)@.meshing.contains(jobs.mesh@[i]) && !final(self)@.meshed.contains(
                    jobs.mesh@[i],
                ) && final(self)@.meshing.contains(jobs.mesh@[i]),
    {
        let ghost before = self@;
        let player_chunk: ChunkCoordinate = ChunkCoordinate::containing(player_x, player_z);
        proof {
            lemma_tick(before, player_chunk, generated@, meshed@);
            lemma_tick_jobs(before, player_chunk, generated@, meshed@);
        }
        self.accept_chunks(generated);
        self.accept_meshes(meshed);
        let moved: bool = match self.current_chunk {
            Some(chunk) => chunk != player_chunk,
            None => true,
        };
        if moved {
            self.current_chunk = Some(player_chunk);
            assert(self@ =~= (Schedule { current_chunk: Some(player_chunk), ..old(self)@.accept_chunks(generated@).accept_meshes(meshed@) }));
            self.queue_surrounding_chunks();
        }
        let generate: Vec<ChunkCoordinate> = self.dispatch_loads();
        let mesh: Vec<ChunkCoordinate> = self.dispatch_builds();
        Dispatch { generate, mesh }
    }

    /// Hands out the meshes that have built but not been uploaded, in the order
    /// in which they were built. They count as uploaded from now on.
    pub fn resolve_mesh_uploads(&mut self) -> (meshes: Vec<(ChunkCoordinate, UnUploadedMesh)>)
        requires
            old(self).wf(),
        ensures
            final(self).wf(),
            final(self)@ == old(self)@.resolve_uploads(),
            meshes@ == old(self)@.unuploaded,
    {
        proof {
            lemma_resolve_uploads(self@);
        }
        let mut meshes: Vec<(ChunkCoordinate, UnUploadedMesh)> = Vec::new();
        core::mem::swap(&mut meshes, &mut self.unuploaded_meshes);
        assert(self@ =~= old(self)@.resolve_uploads());
        meshes
    }

    /// Returns the number of chunks currently loaded.
    pub fn chunks_loaded(&self) -> (n: usize)
        ensures
            n == self@.chunks.len(),
    {
        self.chunks.len()
    }

    /// Returns the number of meshes currently built, whether they have been
    /// handed out for upload or not.
    pub fn meshes_loaded(&self) -> (n: usize)
        requires
            self.wf(),
        ensures
            n == self@.meshed.len(),
            n == self@.uploaded().len() + self@.unuploaded.len(),
    {
        proof {
            lemma_coordinates_len(self.meshed@);
            lemma_mesh_count(self@);
        }
        self.meshed.len()
    }
}

/// The first results of a list that can be accepted can be accepted.
proof fn lemma_prefix_accepts_chunks(s: Schedule, results: Seq<Chunk>, n: int)
    requires
        s.accepts_chunks(results),
        0 <= n <= results.len(),
    ensures
        s.accepts_chunks(results.take(n)),
{
    let prefix = results.take(n);
    assert forall|i: int| 0 <= i < prefix.len() implies (#[trigger] prefix[i]).wf()
        && s.generating.contains(prefix[i].position) by {
        assert(prefix[i] == results[i]);
    }
    assert forall|i: int, j: int| 0 <= i < j < prefix.len() implies (#[trigger] prefix[i]).position
        != (#[trigger] prefix[j]).position by {
        assert(prefix[i] == results[i]);
        assert(prefix[j] == results[j]);
    }
}

/// The first results of a list that can be accepted can be accepted.
proof fn lemma_prefix_accepts_meshes(
    s: Schedule,
    results: Seq<(ChunkCoordinate, UnUploadedMesh)>,
    n: int,
)
    requires
        s.accepts_meshes(results),
        0 <= n <= results.len(),
    ensures
        s.accepts_meshes(results.take(n)),
{
    let prefix = results.take(n);
    assert forall|i: int| 0 <= i < prefix.len() implies s.meshing.contains(
        (#[trigger] prefix[i]).0,
    ) by {
        assert(prefix[i] == results[i]);
    }
    assert forall|i: int, j: int| 0 <= i < j < prefix.len() implies (#[trigger] prefix[i]).0 != (
    #[trigger] prefix[j]).0 by {
        assert(prefix[i] == results[i]);
        assert(prefix[j] == results[j]);
    }
}

} // verus!
