//! The streaming schedule as a state machine: what is resident, what is queued
//! and what is in flight, and how one tick changes it.
//!
//! Every coordinate moves one way through two pipelines. Its voxel data is
//! unrequested, then queued for loading, then being generated, then resident.
//! Its mesh is unrequested, then queued for building, then being meshed, then
//! built and waiting for upload, then uploaded.

use crate::candidates::in_reach;
use crate::candidates::lemma_filter_keeps;
use crate::candidates::lemma_filter_no_duplicates;
use crate::candidates::lemma_prioritized_members;
use crate::candidates::prioritized;
use crate::candidates::MAX_STREAM_RADIUS;
use crate::chunk::Chunk;
use crate::chunk::ChunkCoordinate;
use crate::chunk_store::valid_chunks;
use crate::model::UnUploadedMesh;
use vstd::prelude::*;

verus! {

/// How far the world is streamed, and how much work one tick may hand out.
#[derive(Debug, Clone, Copy, PartialEq, Eq, Structural)]
pub struct StreamingConfig {
    /// The radius around the focal chunk in which chunks are loaded and meshed.
    pub load_radius: usize,
    /// The width of the ring beyond the load radius whose chunks only have their
    /// voxel data generated, for the meshes of their neighbors.
    pub padding: usize,
    /// The maximum number of chunks whose voxel data can be requested per tick.
    pub max_generation_per_frame: usize,
    /// The maximum number of build-queue entries that are looked at per tick.
    pub max_mesh_per_frame: usize,
}

impl StreamingConfig {
    /// The streamed square stays within the chunk grid around every focal chunk.
    pub open spec fn valid(self) -> bool {
        self.load_radius + self.padding <= MAX_STREAM_RADIUS
    }

    /// Whether the streamed square stays within the chunk grid around every
    /// focal chunk.
    pub fn is_valid(&self) -> (b: bool)
        ensures
            b == self.valid(),
    {
        self.load_radius <= MAX_STREAM_RADIUS && self.padding <= MAX_STREAM_RADIUS
            - self.load_radius
    }
}

/// The coordinate of a built mesh.
pub open spec fn mesh_position(entry: (ChunkCoordinate, UnUploadedMesh)) -> ChunkCoordinate {
    entry.0
}

/// The smaller of two numbers.
pub open spec fn min(a: int, b: int) -> int {
    if a <= b {
        a
    } else {
        b
    }
}

/// How far the voxel data of a coordinate has come.
#[derive(Debug, Clone, Copy, PartialEq, Eq, Structural)]
pub enum LoadState {
    /// Nobody has asked for the voxel data.
    Unrequested,
    /// The coordinate waits in the load queue.
    Queued,
    /// A generation job is in flight.
    Generating,
    /// The voxel data is resident.
    Resident,
}

/// How far the mesh of a coordinate has come.
#[derive(Debug, Clone, Copy, PartialEq, Eq, Structural)]
pub enum MeshState {
    /// Nobody has asked for the mesh.
    Unrequested,
    /// The coordinate waits in the build queue.
    Queued,
    /// A mesh job is in flight.
    Meshing,
    /// The mesh is built and waits for upload.
    Built,
    /// The mesh has been handed out for upload.
    Uploaded,
}

impl LoadState {
    /// The place of the state in the order in which a coordinate passes through
    /// the states.
    pub open spec fn rank(self) -> int {
        match self {
            LoadState::Unrequested => 0,
            LoadState::Queued => 1,
            LoadState::Generating => 2,
            LoadState::Resident => 3,
        }
    }
}

impl MeshState {
    /// The place of the state in the order in which a coordinate passes through
    /// the states.
    pub open spec fn rank(self) -> int {
        match self {
            MeshState::Unrequested => 0,
            MeshState::Queued => 1,
            MeshState::Meshing => 2,
            MeshState::Built => 3,
            MeshState::Uploaded => 4,
        }
    }
}

/// The state of the streaming schedule between two ticks.
#[verifier::ext_equal]
pub struct Schedule {
    /// The radii and the per-tick caps.
    pub config: StreamingConfig,
    /// The chunks whose voxel data is resident.
    pub chunks: Map<ChunkCoordinate, Chunk>,
    /// The coordinates whose mesh has been built, uploaded or not.
    pub meshed: Set<ChunkCoordinate>,
    /// The meshes that have been built but not yet been handed out for upload,
    /// in the order in which they arrived.
    pub unuploaded: Seq<(ChunkCoordinate, UnUploadedMesh)>,
    /// The coordinates waiting to have their voxel data generated.
    pub load_queue: Seq<ChunkCoordinate>,
    /// The coordinates waiting to have their mesh built.
    pub build_queue: Seq<ChunkCoordinate>,
    /// The coordinates with a generation job in flight.
    pub generating: Set<ChunkCoordinate>,
    /// The coordinates with a mesh job in flight.
    pub meshing: Set<ChunkCoordinate>,
    /// The chunk that held the focal point at the last tick.
    pub current_chunk: Option<ChunkCoordinate>,
}

impl Schedule {
    /// The schedule before the first tick.
    pub open spec fn initial(config: StreamingConfig) -> Schedule {
        Schedule {
            config,
            chunks: Map::empty(),
            meshed: Set::empty(),
            unuploaded: Seq::empty(),
            load_queue: Seq::empty(),
            build_queue: Seq::empty(),
            generating: Set::empty(),
            meshing: Set::empty(),
            current_chunk: None,
        }
    }

    /// The coordinates of the meshes that wait for upload, in order of arrival.
    pub open spec fn pending(self) -> Seq<ChunkCoordinate> {
        self.unuploaded.map_values(|entry: (ChunkCoordinate, UnUploadedMesh)| mesh_position(entry))
    }

    /// The coordinates whose mesh has been handed out for upload.
    pub open spec fn uploaded(self) -> Set<ChunkCoordinate> {
        self.meshed.difference(self.pending().to_set())
    }

    /// How far the voxel data of `c` has come.
    pub open spec fn load_state(self, c: ChunkCoordinate) -> LoadState {
        if self.chunks.contains_key(c) {
            LoadState::Resident
        } else if self.generating.contains(c) {
            LoadState::Generating
        } else if self.load_queue.contains(c) {
            LoadState::Queued
        } else {
            LoadState::Unrequested
        }
    }

    /// How far the mesh of `c` has come.
    pub open spec fn mesh_state(self, c: ChunkCoordinate) -> MeshState {
        if self.meshed.contains(c) {
            if self.pending().contains(c) {
                MeshState::Built
            } else {
                MeshState::Uploaded
            }
        } else if self.meshing.contains(c) {
            MeshState::Meshing
        } else if self.build_queue.contains(c) {
            MeshState::Queued
        } else {
            MeshState::Unrequested
        }
    }

    /// Whether no coordinate is further back in `self` than it is in `before`.
    pub open spec fn advances(self, before: Schedule) -> bool {
        forall|c: ChunkCoordinate|
            #![trigger self.load_state(c)]
            #![trigger self.mesh_state(c)]
            before.load_state(c).rank() <= self.load_state(c).rank() && before.mesh_state(
                c,
            ).rank() <= self.mesh_state(c).rank()
    }

    /// What holds between any two ticks. A coordinate is in at most one of load
    /// queue, generation in flight and resident, and in at most one of build
    /// queue, meshing in flight and meshed; a mesh is built only of resident
    /// voxel data.
    pub open spec fn consistent(self) -> bool {
        &&& self.config.valid()
        &&& valid_chunks(self.chunks)
        &&& self.generating.finite()
        &&& self.meshing.finite()
        &&& self.meshed.finite()
        &&& self.load_queue.no_duplicates()
        &&& forall|c: ChunkCoordinate| #[trigger]
            self.load_queue.contains(c) ==> !self.chunks.contains_key(c)
                && !self.generating.contains(c)
        &&& forall|c: ChunkCoordinate| #[trigger]
            self.generating.contains(c) ==> !self.chunks.contains_key(c)
        &&& self.build_queue.no_duplicates()
        &&& forall|c: ChunkCoordinate| #[trigger]
            self.build_queue.contains(c) ==> !self.meshed.contains(c) && !self.meshing.contains(c)
        &&& forall|c: ChunkCoordinate| #[trigger]
            self.meshing.contains(c) ==> !self.meshed.contains(c) && self.chunks.contains_key(c)
        &&& forall|c: ChunkCoordinate| #[trigger]
            self.meshed.contains(c) ==> self.chunks.contains_key(c)
        &&& self.pending().no_duplicates()
        &&& forall|c: ChunkCoordinate| #[trigger]
            self.pending().contains(c) ==> self.meshed.contains(c)
        &&& self.current_chunk matches Some(focal) ==> in_reach(focal, MAX_STREAM_RADIUS as int)
    }

    /// Whether the voxel data of `c` has yet to be asked for.
    pub open spec fn needs_load(self, c: ChunkCoordinate) -> bool {
        !(self.chunks.contains_key(c) || self.load_queue.contains(c) || self.generating.contains(c))
    }

    /// Whether the mesh of `c` has yet to be asked for.
    pub open spec fn needs_mesh(self, c: ChunkCoordinate) -> bool {
        !(self.meshed.contains(c) || self.build_queue.contains(c) || self.meshing.contains(c))
    }

    /// The test for a candidate to join the load queue.
    pub open spec fn load_test(self) -> spec_fn(ChunkCoordinate) -> bool {
        |c: ChunkCoordinate| self.needs_load(c)
    }

    /// The test for a candidate to join the build queue: it lies within the load
    /// radius of the focal chunk and its mesh has yet to be asked for.
    pub open spec fn build_test(self, focal: ChunkCoordinate) -> spec_fn(ChunkCoordinate) -> bool {
        |c: ChunkCoordinate| c.spec_distance(focal) <= self.config.load_radius && self.needs_mesh(c)
    }

    /// The test for a chunk to be resident.
    pub open spec fn resident_test(self) -> spec_fn(ChunkCoordinate) -> bool {
        |c: ChunkCoordinate| self.chunks.contains_key(c)
    }

    /// The test for a chunk not to be resident.
    pub open spec fn absent_test(self) -> spec_fn(ChunkCoordinate) -> bool {
        |c: ChunkCoordinate| !self.chunks.contains_key(c)
    }

    /// A generation job has come back: its chunk becomes resident.
    pub open spec fn accept_chunk(self, chunk: Chunk) -> Schedule {
        Schedule {
            chunks: self.chunks.insert(chunk.position, chunk),
            generating: self.generating.remove(chunk.position),
            ..self
        }
    }

    /// Whether `results` can be the results of generation jobs in flight: each is
    /// a complete chunk at a coordinate that is being generated, and no two are
    /// at the same coordinate.
    pub open spec fn accepts_chunks(self, results: Seq<Chunk>) -> bool {
        &&& forall|i: int|
            0 <= i < results.len() ==> (#[trigger] results[i]).wf() && self.generating.contains(
                results[i].position,
            )
        &&& forall|i: int, j: int|
            0 <= i < j < results.len() ==> (#[trigger] results[i]).position != (
            #[trigger] results[j]).position
    }

    /// The generation jobs that have come back since the last tick are drained,
    /// in order.
    pub open spec fn accept_chunks(self, results: Seq<Chunk>) -> Schedule
        decreases results.len(),
    {
        if results.len() == 0 {
            self
        } else {
            self.accept_chunks(results.drop_last()).accept_chunk(results.last())
        }
    }

    /// A mesh job has come back: its mesh waits for upload.
    pub open spec fn accept_mesh(self, position: ChunkCoordinate, mesh: UnUploadedMesh) -> Schedule {
        Schedule {
            meshed: self.meshed.insert(position),
            unuploaded: self.unuploaded.push((position, mesh)),
            meshing: self.meshing.remove(position),
            ..self
        }
    }

    /// Whether `results` can be the results of mesh jobs in flight: each is at a
    /// coordinate that is being meshed, and no two are at the same coordinate.
    pub open spec fn accepts_meshes(self, results: Seq<(ChunkCoordinate, UnUploadedMesh)>) -> bool {
        &&& forall|i: int|
            0 <= i < results.len() ==> self.meshing.contains((#[trigger] results[i]).0)
        &&& forall|i: int, j: int|
            0 <= i < j < results.len() ==> (#[trigger] results[i]).0 != (#[trigger] results[j]).0
    }

    /// The mesh jobs that have come back since the last tick are drained, in
    /// order.
    pub open spec fn accept_meshes(self, results: Seq<(ChunkCoordinate, UnUploadedMesh)>) -> Schedule
        decreases results.len(),
    {
        if results.len() == 0 {
            self
        } else {
            self.accept_meshes(results.drop_last()).accept_mesh(
                results.last().0,
                results.last().1,
            )
        }
    }

    /// The candidates are asked for, in their order: the load queue grows by
    /// those whose voxel data has yet to be asked for, the build queue by those
    /// within the load radius whose mesh has yet to be asked for.
    pub open spec fn enqueue(self, candidates: Seq<ChunkCoordinate>, focal: ChunkCoordinate) -> Schedule {
        Schedule {
            load_queue: self.load_queue + candidates.filter(self.load_test()),
            build_queue: self.build_queue + candidates.filter(self.build_test(focal)),
            ..self
        }
    }

    /// The chunks around the focal chunk of the last tick are asked for.
    pub open spec fn queue_surrounding(self) -> Schedule {
        match self.current_chunk {
            Some(focal) => self.enqueue(
                prioritized(focal, self.config.load_radius as nat, self.config.padding as nat),
                focal,
            ),
            None => self,
        }
    }

    /// The focal point is in the chunk `focal`. Where that is the chunk of the
    /// last tick nothing is asked for; otherwise the chunks around it are.
    pub open spec fn refocus(self, focal: ChunkCoordinate) -> Schedule {
        if self.current_chunk == Some(focal) {
            self
        } else {
            (Schedule { current_chunk: Some(focal), ..self }).queue_surrounding()
        }
    }

    /// The generation jobs that the next dispatch hands out: the front of the
    /// load queue, up to the cap.
    pub open spec fn load_jobs(self) -> Seq<ChunkCoordinate> {
        self.load_queue.take(
            min(self.config.max_generation_per_frame as int, self.load_queue.len() as int),
        )
    }

    /// The generation jobs are handed out: they leave the queue and are in flight.
    pub open spec fn dispatch_loads(self) -> Schedule {
        Schedule {
            load_queue: self.load_queue.skip(
                min(self.config.max_generation_per_frame as int, self.load_queue.len() as int),
            ),
            generating: self.generating.union(self.load_jobs().to_set()),
            ..self
        }
    }

    /// The entries of the build queue that the next dispatch looks at: its
    /// front, up to the cap.
    pub open spec fn build_candidates(self) -> Seq<ChunkCoordinate> {
        self.build_queue.take(
            min(self.config.max_mesh_per_frame as int, self.build_queue.len() as int),
        )
    }

    /// The mesh jobs that the next dispatch hands out: of the entries it looks
    /// at, those whose voxel data is resident.
    pub open spec fn build_jobs(self) -> Seq<ChunkCoordinate> {
        self.build_candidates().filter(self.resident_test())
    }

    /// The entries that the next dispatch puts back: of the entries it looks at,
    /// those whose voxel data is not resident yet.
    pub open spec fn build_deferred(self) -> Seq<ChunkCoordinate> {
        self.build_candidates().filter(self.absent_test())
    }

    /// The mesh jobs are handed out: they leave the queue and are in flight. The
    /// entries whose voxel data is missing go to the back of the queue.
    pub open spec fn dispatch_builds(self) -> Schedule {
        Schedule {
            build_queue: self.build_queue.skip(
                min(self.config.max_mesh_per_frame as int, self.build_queue.len() as int),
            ) + self.build_deferred(),
            meshing: self.meshing.union(self.build_jobs().to_set()),
            ..self
        }
    }

    /// The meshes that wait for upload are handed out.
    pub open spec fn resolve_uploads(self) -> Schedule {
        Schedule { unuploaded: Seq::empty(), ..self }
    }

    /// The schedule after draining the results and before handing out new jobs.
    pub open spec fn drained(
        self,
        focal: ChunkCoordinate,
        generated: Seq<Chunk>,
        meshed: Seq<(ChunkCoordinate, UnUploadedMesh)>,
    ) -> Schedule {
        self.accept_chunks(generated).accept_meshes(meshed).refocus(focal)
    }

    /// One tick: the results are drained, the chunks around a new focal chunk are
    /// asked for, and generation jobs and then mesh jobs are handed out.
    pub open spec fn tick(
        self,
        focal: ChunkCoordinate,
        generated: Seq<Chunk>,
        meshed: Seq<(ChunkCoordinate, UnUploadedMesh)>,
    ) -> Schedule {
        self.drained(focal, generated, meshed).dispatch_loads().dispatch_builds()
    }
}

/// The schedule before the first tick is in order.
pub proof fn lemma_initial(config: StreamingConfig)
    requires
        config.valid(),
    ensures
        Schedule::initial(config).consistent(),
{
    let s = Schedule::initial(config);
    assert(s.pending() =~= Seq::empty());
}

/// Accepting the result of a generation job in flight keeps the schedule in order.
pub proof fn lemma_accept_chunk(s: Schedule, chunk: Chunk)
    requires
        s.consistent(),
        chunk.wf(),
        s.generating.contains(chunk.position),
    ensures
        s.accept_chunk(chunk).consistent(),
{
    let t = s.accept_chunk(chunk);
    assert(t.pending() == s.pending());
}

/// What draining generation results does: the chunks become resident, their
/// coordinates are no longer in flight, and nothing else changes.
pub proof fn lemma_accept_chunks(s: Schedule, results: Seq<Chunk>)
    requires
        s.consistent(),
        s.accepts_chunks(results),
    ensures
        s.accept_chunks(results).consistent(),
        s.accept_chunks(results) == (Schedule {
            chunks: s.accept_chunks(results).chunks,
            generating: s.accept_chunks(results).generating,
            ..s
        }),
        forall|c: ChunkCoordinate|
            #[trigger] s.accept_chunks(results).generating.contains(c) <==> s.generating.contains(c)
                && forall|i: int| 0 <= i < results.len() ==> (#[trigger] results[i]).position != c,
        forall|c: ChunkCoordinate|
            #[trigger] s.accept_chunks(results).chunks.contains_key(c) <==> s.chunks.contains_key(c)
                || exists|i: int| 0 <= i < results.len() && (#[trigger] results[i]).position == c,
        forall|i: int|
            0 <= i < results.len() ==> s.accept_chunks(results).chunks[(
            #[trigger] results[i]).position] == results[i],
        forall|c: ChunkCoordinate|
            s.chunks.contains_key(c) ==> #[trigger] s.accept_chunks(results).chunks[c]
                == s.chunks[c],
    decreases results.len(),
{
    if results.len() > 0 {
        let rest = results.drop_last();
        let last = results.last();
        assert(s.accepts_chunks(rest)) by {
            assert forall|i: int| 0 <= i < rest.len() implies (#[trigger] rest[i]).wf()
                && s.generating.contains(rest[i].position) by {
                assert(rest[i] == results[i]);
            }
            assert forall|i: int, j: int| 0 <= i < j < rest.len() implies (#[trigger] rest[i]).position
                != (#[trigger] rest[j]).position by {
                assert(rest[i] == results[i]);
                assert(rest[j] == results[j]);
            }
        }
        lemma_accept_chunks(s, rest);
        let mid = s.accept_chunks(rest);
        assert(mid.generating.contains(last.position)) by {
            assert forall|i: int| 0 <= i < rest.len() implies (#[trigger] rest[i]).position
                != last.position by {
                assert(rest[i] == results[i]);
                assert(last == results[results.len() - 1]);
            }
        }
        lemma_accept_chunk(mid, last);
        let out = s.accept_chunks(results);
        assert forall|c: ChunkCoordinate| #[trigger]
            out.generating.contains(c) <==> s.generating.contains(c) && forall|i: int|
                0 <= i < results.len() ==> (#[trigger] results[i]).position != c by {
            if out.generating.contains(c) {
                assert forall|i: int| 0 <= i < results.len() implies (#[trigger] results[i]).position
                    != c by {
                    if i < rest.len() {
                        assert(rest[i] == results[i]);
                    }
                }
            }
            if s.generating.contains(c) && forall|i: int|
                0 <= i < results.len() ==> (#[trigger] results[i]).position != c {
                assert forall|i: int| 0 <= i < rest.len() implies (#[trigger] rest[i]).position
                    != c by {
                    assert(rest[i] == results[i]);
                }
                assert(results[results.len() - 1].position != c);
            }
        }
        assert forall|c: ChunkCoordinate| #[trigger]
            out.chunks.contains_key(c) <==> s.chunks.contains_key(c) || exists|i: int|
                0 <= i < results.len() && (#[trigger] results[i]).position == c by {
            if out.chunks.contains_key(c) && !s.chunks.contains_key(c) {
                if c == last.position {
                    assert(results[results.len() - 1].position == c);
                } else {
                    let i = choose|i: int| 0 <= i < rest.len() && (#[trigger] rest[i]).position == c;
                    assert(results[i].position == c);
                }
            }
            if exists|i: int| 0 <= i < results.len() && (#[trigger] results[i]).position == c {
                let i = choose|i: int| 0 <= i < results.len() && (#[trigger] results[i]).position == c;
                if i < rest.len() {
                    assert(rest[i].position == c);
                }
            }
        }
        assert forall|i: int| 0 <= i < results.len() implies out.chunks[(
        #[trigger] results[i]).position] == results[i] by {
            if i < rest.len() {
                assert(rest[i] == results[i]);
                assert(results[i].position != last.position);
            }
        }
        assert forall|c: ChunkCoordinate| s.chunks.contains_key(c) implies #[trigger] out.chunks[c]
            == s.chunks[c] by {
            assert(!s.generating.contains(c));
        }
    }
}

/// Accepting the result of a mesh job in flight keeps the schedule in order.
pub proof fn lemma_accept_mesh(s: Schedule, position: ChunkCoordinate, mesh: UnUploadedMesh)
    requires
        s.consistent(),
        s.meshing.contains(position),
    ensures
        s.accept_mesh(position, mesh).consistent(),
{
    let t = s.accept_mesh(position, mesh);
    assert(t.pending() =~= s.pending().push(position));
    assert(!s.pending().contains(position));
    assert forall|c: ChunkCoordinate| #[trigger] t.pending().contains(c) implies t.meshed.contains(
        c,
    ) by {
        if c != position {
            let i = choose|i: int| 0 <= i < t.pending().len() && t.pending()[i] == c;
            assert(s.pending()[i] == c);
            assert(s.pending().contains(c));
        }
    }
    assert forall|i: int, j: int| 0 <= i < j < t.pending().len() implies t.pending()[i]
        != t.pending()[j] by {
        if j == s.pending().len() {
            assert(s.pending().contains(s.pending()[i]));
        }
    }
}

/// What draining mesh results does: the meshes wait for upload in the order in
/// which they came, their coordinates are no longer in flight, and nothing else
/// changes.
pub proof fn lemma_accept_meshes(s: Schedule, results: Seq<(ChunkCoordinate, UnUploadedMesh)>)
    requires
        s.consistent(),
        s.accepts_meshes(results),
    ensures
        s.accept_meshes(results).consistent(),
        s.accept_meshes(results) == (Schedule {
            meshed: s.accept_meshes(results).meshed,
            meshing: s.accept_meshes(results).meshing,
            unuploaded: s.unuploaded + results,
            ..s
        }),
        forall|c: ChunkCoordinate|
            #[trigger] s.accept_meshes(results).meshing.contains(c) <==> s.meshing.contains(c)
                && forall|i: int| 0 <= i < results.len() ==> (#[trigger] results[i]).0 != c,
        forall|c: ChunkCoordinate|
            #[trigger] s.accept_meshes(results).meshed.contains(c) <==> s.meshed.contains(c)
                || exists|i: int| 0 <= i < results.len() && (#[trigger] results[i]).0 == c,
    decreases results.len(),
{
    if results.len() > 0 {
        let rest = results.drop_last();
        let last = results.last();
        assert(s.accepts_meshes(rest)) by {
            assert forall|i: int| 0 <= i < rest.len() implies s.meshing.contains(
                (#[trigger] rest[i]).0,
            ) by {
                assert(rest[i] == results[i]);
            }
            assert forall|i: int, j: int| 0 <= i < j < rest.len() implies (#[trigger] rest[i]).0 != (
            #[trigger] rest[j]).0 by {
                assert(rest[i] == results[i]);
                assert(rest[j] == results[j]);
            }
        }
        lemma_accept_meshes(s, rest);
        let mid = s.accept_meshes(rest);
        assert(mid.meshing.contains(last.0)) by {
            assert forall|i: int| 0 <= i < rest.len() implies (#[trigger] rest[i]).0 != last.0 by {
                assert(rest[i] == results[i]);
                assert(last == results[results.len() - 1]);
            }
        }
        lemma_accept_mesh(mid, last.0, last.1);
        let out = s.accept_meshes(results);
        assert(out.unuploaded =~= s.unuploaded + results);
        assert forall|c: ChunkCoordinate| #[trigger]
            out.meshing.contains(c) <==> s.meshing.contains(c) && forall|i: int|
                0 <= i < results.len() ==> (#[trigger] results[i]).0 != c by {
            if out.meshing.contains(c) {
                assert forall|i: int| 0 <= i < results.len() implies (#[trigger] results[i]).0
                    != c by {
                    if i < rest.len() {
                        assert(rest[i] == results[i]);
                    }
                }
            }
            if s.meshing.contains(c) && forall|i: int|
                0 <= i < results.len() ==> (#[trigger] results[i]).0 != c {
                assert forall|i: int| 0 <= i < rest.len() implies (#[trigger] rest[i]).0 != c by {
                    assert(rest[i] == results[i]);
                }
                assert(results[results.len() - 1].0 != c);
            }
        }
        assert forall|c: ChunkCoordinate| #[trigger]
            out.meshed.contains(c) <==> s.meshed.contains(c) || exists|i: int|
                0 <= i < results.len() && (#[trigger] results[i]).0 == c by {
            if out.meshed.contains(c) && !s.meshed.contains(c) {
                if c == last.0 {
                    assert(results[results.len() - 1].0 == c);
                } else {
                    let i = choose|i: int| 0 <= i < rest.len() && (#[trigger] rest[i]).0 == c;
                    assert(results[i].0 == c);
                }
            }
            if exists|i: int| 0 <= i < results.len() && (#[trigger] results[i]).0 == c {
                let i = choose|i: int| 0 <= i < results.len() && (#[trigger] results[i]).0 == c;
                if i < rest.len() {
                    assert(rest[i].0 == c);
                }
            }
        }
    } else {
        assert(s.unuploaded + results =~= s.unuploaded);
    }
}

/// Asking for candidates that are all different keeps the schedule in order.
pub proof fn lemma_enqueue(s: Schedule, candidates: Seq<ChunkCoordinate>, focal: ChunkCoordinate)
    requires
        s.consistent(),
        candidates.no_duplicates(),
    ensures
        s.enqueue(candidates, focal).consistent(),
{
    let t = s.enqueue(candidates, focal);
    let loads = candidates.filter(s.load_test());
    let builds = candidates.filter(s.build_test(focal));
    lemma_filter_no_duplicates(candidates, s.load_test());
    lemma_filter_no_duplicates(candidates, s.build_test(focal));
    assert forall|i: int, j: int| 0 <= i < s.load_queue.len() && 0 <= j < loads.len() implies s.load_queue[i]
        != loads[j] by {
        candidates.lemma_filter_pred(s.load_test(), j);
        assert(s.load_queue.contains(s.load_queue[i]));
    }
    vstd::seq_lib::lemma_no_dup_in_concat(s.load_queue, loads);
    assert forall|i: int, j: int| 0 <= i < s.build_queue.len() && 0 <= j < builds.len() implies s.build_queue[i]
        != builds[j] by {
        candidates.lemma_filter_pred(s.build_test(focal), j);
        assert(s.build_queue.contains(s.build_queue[i]));
    }
    vstd::seq_lib::lemma_no_dup_in_concat(s.build_queue, builds);
    assert forall|c: ChunkCoordinate| #[trigger] t.load_queue.contains(c) implies !t.chunks.contains_key(
        c,
    ) && !t.generating.contains(c) by {
        vstd::seq_lib::lemma_seq_concat_contains_all_elements(s.load_queue, loads, c);
        lemma_filter_keeps(candidates, s.load_test(), c);
    }
    assert forall|c: ChunkCoordinate| #[trigger] t.build_queue.contains(c) implies !t.meshed.contains(
        c,
    ) && !t.meshing.contains(c) by {
        vstd::seq_lib::lemma_seq_concat_contains_all_elements(s.build_queue, builds, c);
        lemma_filter_keeps(candidates, s.build_test(focal), c);
    }
    assert(t.pending() == s.pending());
}

/// Asking for the chunks around the focal chunk keeps the schedule in order.
pub proof fn lemma_queue_surrounding(s: Schedule)
    requires
        s.consistent(),
    ensures
        s.queue_surrounding().consistent(),
{
    if let Some(focal) = s.current_chunk {
        lemma_prioritized_members(
            focal,
            s.config.load_radius as nat,
            s.config.padding as nat,
        );
        lemma_enqueue(
            s,
            prioritized(focal, s.config.load_radius as nat, s.config.padding as nat),
            focal,
        );
    }
}

/// Moving the focal point keeps the schedule in order.
pub proof fn lemma_refocus(s: Schedule, focal: ChunkCoordinate)
    requires
        s.consistent(),
        in_reach(focal, MAX_STREAM_RADIUS as int),
    ensures
        s.refocus(focal).consistent(),
{
    if s.current_chunk != Some(focal) {
        let moved = Schedule { current_chunk: Some(focal), ..s };
        assert(moved.pending() == s.pending());
        lemma_queue_surrounding(moved);
    }
}

/// Handing out generation jobs keeps the schedule in order. At most one
/// generation job is in flight for any coordinate: a job is handed out only for
/// a coordinate that has none in flight and no resident voxel data, and no two
/// jobs of one dispatch are for the same coordinate.
pub proof fn lemma_dispatch_loads(s: Schedule)
    requires
        s.consistent(),
    ensures
        s.dispatch_loads().consistent(),
        s.load_jobs().no_duplicates(),
        s.load_jobs().len() <= s.config.max_generation_per_frame,
        forall|i: int|
            0 <= i < s.load_jobs().len() ==> !s.generating.contains(#[trigger] s.load_jobs()[i])
                && !s.chunks.contains_key(s.load_jobs()[i]) && s.dispatch_loads().generating.contains(
                s.load_jobs()[i],
            ),
{
    let t = s.dispatch_loads();
    let n = min(s.config.max_generation_per_frame as int, s.load_queue.len() as int);
    let jobs = s.load_jobs();
    assert(t.pending() == s.pending());
    assert forall|i: int| 0 <= i < jobs.len() implies !s.generating.contains(#[trigger] jobs[i])
        && !s.chunks.contains_key(jobs[i]) && t.generating.contains(jobs[i]) by {
        assert(s.load_queue.contains(s.load_queue[i]));
        assert(jobs.contains(jobs[i]));
    }
    assert forall|c: ChunkCoordinate| #[trigger] t.load_queue.contains(c) implies !t.chunks.contains_key(
        c,
    ) && !t.generating.contains(c) by {
        let i = choose|i: int| 0 <= i < t.load_queue.len() && t.load_queue[i] == c;
        assert(s.load_queue[i + n] == c);
        assert(s.load_queue.contains(c));
        if jobs.contains(c) {
            let j = choose|j: int| 0 <= j < jobs.len() && jobs[j] == c;
            assert(s.load_queue[j] == c);
        }
    }
    assert forall|c: ChunkCoordinate| #[trigger] t.generating.contains(c) implies !t.chunks.contains_key(
        c,
    ) by {
        if jobs.contains(c) {
            let j = choose|j: int| 0 <= j < jobs.len() && jobs[j] == c;
            assert(s.load_queue[j] == c);
            assert(s.load_queue.contains(c));
        }
    }
    vstd::seq_lib::seq_to_set_is_finite(jobs);
}

/// Handing out mesh jobs keeps the schedule in order. A mesh job is handed out
/// only for a coordinate whose voxel data is resident, and only where none is in
/// flight and no mesh has been built; an entry whose voxel data is missing stays
/// in the queue.
pub proof fn lemma_dispatch_builds(s: Schedule)
    requires
        s.consistent(),
    ensures
        s.dispatch_builds().consistent(),
        s.build_jobs().no_duplicates(),
        s.build_jobs().len() <= s.config.max_mesh_per_frame,
        forall|i: int|
            0 <= i < s.build_jobs().len() ==> s.chunks.contains_key(#[trigger] s.build_jobs()[i])
                && !s.meshing.contains(s.build_jobs()[i]) && !s.meshed.contains(s.build_jobs()[i])
                && s.dispatch_builds().meshing.contains(s.build_jobs()[i]),
        forall|c: ChunkCoordinate|
            s.build_queue.contains(c) && !s.chunks.contains_key(c)
                ==> #[trigger] s.dispatch_builds().build_queue.contains(c),
{
    let t = s.dispatch_builds();
    let n = min(s.config.max_mesh_per_frame as int, s.build_queue.len() as int);
    let taken = s.build_candidates();
    let rest = s.build_queue.skip(n);
    let jobs = s.build_jobs();
    let deferred = s.build_deferred();
    assert(t.pending() == s.pending());
    assert(taken.no_duplicates());
    lemma_filter_no_duplicates(taken, s.resident_test());
    lemma_filter_no_duplicates(taken, s.absent_test());
    taken.lemma_filter_len(s.resident_test());
    assert forall|c: ChunkCoordinate| #[trigger] taken.contains(c) implies s.build_queue.contains(
        c,
    ) by {
        let i = choose|i: int| 0 <= i < taken.len() && taken[i] == c;
        assert(s.build_queue[i] == c);
    }
    assert forall|c: ChunkCoordinate| #[trigger] rest.contains(c) implies s.build_queue.contains(
        c,
    ) && !taken.contains(c) by {
        let i = choose|i: int| 0 <= i < rest.len() && rest[i] == c;
        assert(s.build_queue[i + n] == c);
        if taken.contains(c) {
            let j = choose|j: int| 0 <= j < taken.len() && taken[j] == c;
            assert(s.build_queue[j] == c);
        }
    }
    assert forall|i: int| 0 <= i < jobs.len() implies s.chunks.contains_key(#[trigger] jobs[i])
        && !s.meshing.contains(jobs[i]) && !s.meshed.contains(jobs[i]) && t.meshing.contains(
        jobs[i],
    ) by {
        assert(jobs.contains(jobs[i]));
        lemma_filter_keeps(taken, s.resident_test(), jobs[i]);
    }
    assert forall|i: int, j: int| 0 <= i < rest.len() && 0 <= j < deferred.len() implies rest[i]
        != deferred[j] by {
        assert(rest.contains(rest[i]));
        assert(deferred.contains(deferred[j]));
        lemma_filter_keeps(taken, s.absent_test(), deferred[j]);
    }
    assert(rest.no_duplicates());
    vstd::seq_lib::lemma_no_dup_in_concat(rest, deferred);
    assert forall|c: ChunkCoordinate| #[trigger] t.build_queue.contains(c) implies !t.meshed.contains(
        c,
    ) && !t.meshing.contains(c) by {
        vstd::seq_lib::lemma_seq_concat_contains_all_elements(rest, deferred, c);
        lemma_filter_keeps(taken, s.absent_test(), c);
        if jobs.contains(c) {
            lemma_filter_keeps(taken, s.resident_test(), c);
        }
    }
    assert forall|c: ChunkCoordinate| #[trigger] t.meshing.contains(c) implies !t.meshed.contains(
        c,
    ) && t.chunks.contains_key(c) by {
        if jobs.contains(c) {
            lemma_filter_keeps(taken, s.resident_test(), c);
        }
    }
    assert forall|c: ChunkCoordinate|
        s.build_queue.contains(c) && !s.chunks.contains_key(c) implies #[trigger] t.build_queue.contains(
        c,
    ) by {
        let i = choose|i: int| 0 <= i < s.build_queue.len() && s.build_queue[i] == c;
        if i < n {
            assert(taken[i] == c);
            assert(taken.contains(c));
            lemma_filter_keeps(taken, s.absent_test(), c);
        } else {
            assert(rest[i - n] == c);
            assert(rest.contains(c));
        }
        vstd::seq_lib::lemma_seq_concat_contains_all_elements(rest, deferred, c);
    }
    vstd::seq_lib::seq_to_set_is_finite(jobs);
}

/// Handing out the meshes that wait for upload keeps the schedule in order.
pub proof fn lemma_resolve_uploads(s: Schedule)
    requires
        s.consistent(),
    ensures
        s.resolve_uploads().consistent(),
        s.resolve_uploads().uploaded() == s.meshed,
{
    let t = s.resolve_uploads();
    assert(t.pending() =~= Seq::empty());
    assert(t.uploaded() =~= s.meshed);
}

/// One tick keeps the schedule in order.
pub proof fn lemma_tick(
    s: Schedule,
    focal: ChunkCoordinate,
    generated: Seq<Chunk>,
    meshed: Seq<(ChunkCoordinate, UnUploadedMesh)>,
)
    requires
        s.consistent(),
        in_reach(focal, MAX_STREAM_RADIUS as int),
        s.accepts_chunks(generated),
        s.accepts_meshes(meshed),
    ensures
        s.accept_chunks(generated).accepts_meshes(meshed),
        s.drained(focal, generated, meshed).consistent(),
        s.tick(focal, generated, meshed).consistent(),
{
    lemma_accept_chunks(s, generated);
    let a = s.accept_chunks(generated);
    lemma_accept_meshes(a, meshed);
    let b = a.accept_meshes(meshed);
    lemma_refocus(b, focal);
    let c = b.refocus(focal);
    lemma_dispatch_loads(c);
    lemma_dispatch_builds(c.dispatch_loads());
}

/// A tick with an unchanged focal chunk asks for nothing: the queues only lose
/// what is handed out, and an entry of the build queue without voxel data goes
/// to its back. The results are drained all the same.
pub proof fn lemma_tick_unmoved(
    s: Schedule,
    focal: ChunkCoordinate,
    generated: Seq<Chunk>,
    meshed: Seq<(ChunkCoordinate, UnUploadedMesh)>,
)
    requires
        s.consistent(),
        s.current_chunk == Some(focal),
        s.accepts_chunks(generated),
        s.accepts_meshes(meshed),
    ensures
        s.drained(focal, generated, meshed) == s.accept_chunks(generated).accept_meshes(meshed),
        s.drained(focal, generated, meshed).load_queue == s.load_queue,
        s.drained(focal, generated, meshed).build_queue == s.build_queue,
        s.tick(focal, generated, meshed).load_queue == s.load_queue.skip(
            min(s.config.max_generation_per_frame as int, s.load_queue.len() as int),
        ),
        s.tick(focal, generated, meshed).build_queue == s.build_queue.skip(
            min(s.config.max_mesh_per_frame as int, s.build_queue.len() as int),
        ) + s.drained(focal, generated, meshed).dispatch_loads().build_deferred(),
        s.tick(focal, generated, meshed).unuploaded == s.unuploaded + meshed,
        forall|i: int|
            0 <= i < generated.len() ==> s.tick(focal, generated, meshed).chunks.contains_key(
                (#[trigger] generated[i]).position,
            ),
{
    lemma_accept_chunks(s, generated);
    let a = s.accept_chunks(generated);
    lemma_accept_meshes(a, meshed);
}

/// Every built mesh either waits for upload or has been handed out: the number
/// of built meshes is the sum of the two.
pub proof fn lemma_mesh_count(s: Schedule)
    requires
        s.consistent(),
    ensures
        s.uploaded().finite(),
        s.meshed.len() == s.uploaded().len() + s.unuploaded.len(),
{
    let pending = s.pending().to_set();
    s.pending().unique_seq_to_set();
    vstd::seq_lib::seq_to_set_is_finite(s.pending());
    vstd::set_lib::lemma_set_difference_len(s.meshed, pending);
    assert(s.meshed.intersect(pending) =~= pending);
    vstd::set_lib::lemma_len_difference(s.meshed, pending);
    vstd::set_lib::lemma_set_subset_finite(s.meshed, s.uploaded());
}

/// The jobs that one tick hands out. No two generation jobs are for the same
/// coordinate, and each is for a coordinate that had no generation job in flight
/// before the tick and has one after it: at most one generation job is in flight
/// for a coordinate at any time. A mesh job is handed out only for a coordinate
/// whose voxel data is resident, and no mesh job was in flight for it either.
pub proof fn lemma_tick_jobs(
    s: Schedule,
    focal: ChunkCoordinate,
    generated: Seq<Chunk>,
    meshed: Seq<(ChunkCoordinate, UnUploadedMesh)>,
)
    requires
        s.consistent(),
        in_reach(focal, MAX_STREAM_RADIUS as int),
        s.accepts_chunks(generated),
        s.accepts_meshes(meshed),
    ensures
        ({
            let before = s.drained(focal, generated, meshed);
            let after = s.tick(focal, generated, meshed);
            let loads = before.load_jobs();
            let builds = before.dispatch_loads().build_jobs();
            &&& loads.no_duplicates()
            &&& loads.len() <= s.config.max_generation_per_frame
            &&& forall|i: int|
                0 <= i < loads.len() ==> !s.generating.contains(#[trigger] loads[i])
                    && !after.chunks.contains_key(loads[i]) && after.generating.contains(loads[i])
            &&& builds.no_duplicates()
            &&& builds.len() <= s.config.max_mesh_per_frame
            &&& forall|i: int|
                0 <= i < builds.len() ==> after.chunks.contains_key(#[trigger] builds[i])
                    && !s.meshing.contains(builds[i]) && !after.meshed.contains(builds[i])
                    && after.meshing.contains(builds[i])
        }),
{
    lemma_tick(s, focal, generated, meshed);
    lemma_accept_chunks(s, generated);
    let drained_chunks = s.accept_chunks(generated);
    lemma_accept_meshes(drained_chunks, meshed);
    let before = s.drained(focal, generated, meshed);
    let middle = before.dispatch_loads();
    let after = s.tick(focal, generated, meshed);
    let loads = before.load_jobs();
    let builds = middle.build_jobs();
    lemma_dispatch_loads(before);
    lemma_dispatch_builds(middle);
    assert forall|i: int| 0 <= i < loads.len() implies !s.generating.contains(#[trigger] loads[i])
        && !after.chunks.contains_key(loads[i]) && after.generating.contains(loads[i]) by {
        let c = loads[i];
        if s.generating.contains(c) {
            assert(!drained_chunks.generating.contains(c));
            assert(drained_chunks.chunks.contains_key(c));
        }
    }
    assert forall|i: int| 0 <= i < builds.len() implies after.chunks.contains_key(
        #[trigger] builds[i],
    ) && !s.meshing.contains(builds[i]) && !after.meshed.contains(builds[i])
        && after.meshing.contains(builds[i]) by {
        let c = builds[i];
        if s.meshing.contains(c) {
            assert(!middle.meshing.contains(c));
            assert(middle.meshed.contains(c));
        }
    }
}

/// No coordinate ever moves back: whatever one tick does, the voxel data and
/// the mesh of every coordinate are as far as before or further.
pub proof fn lemma_tick_advances(
    s: Schedule,
    focal: ChunkCoordinate,
    generated: Seq<Chunk>,
    meshed: Seq<(ChunkCoordinate, UnUploadedMesh)>,
)
    requires
        s.consistent(),
        in_reach(focal, MAX_STREAM_RADIUS as int),
        s.accepts_chunks(generated),
        s.accepts_meshes(meshed),
    ensures
        s.tick(focal, generated, meshed).advances(s),
{
    lemma_tick(s, focal, generated, meshed);
    lemma_accept_chunks(s, generated);
    let a = s.accept_chunks(generated);
    lemma_accept_meshes(a, meshed);
    let b = a.accept_meshes(meshed);
    lemma_refocus(b, focal);
    let c = b.refocus(focal);
    lemma_dispatch_loads(c);
    let d = c.dispatch_loads();
    lemma_dispatch_builds(d);
    let e = d.dispatch_builds();
    assert(b.pending() =~= s.pending() + meshed.map_values(
        |entry: (ChunkCoordinate, UnUploadedMesh)| mesh_position(entry),
    ));
    assert(a.advances(s));
    assert(b.advances(a)) by {
        assert forall|p: ChunkCoordinate|
            a.mesh_state(p).rank() <= b.mesh_state(p).rank() by {
            if a.pending().contains(p) {
                let i = choose|i: int| 0 <= i < a.pending().len() && a.pending()[i] == p;
                assert(b.pending()[i] == p);
            }
            if b.meshed.contains(p) && !a.meshed.contains(p) {
                let i = choose|i: int| 0 <= i < meshed.len() && (#[trigger] meshed[i]).0 == p;
                assert(b.pending()[a.pending().len() + i] == p);
            }
        }
    }
    assert(c.advances(b)) by {
        lemma_refocus_advances(b, focal);
    }
    assert(d.advances(c)) by {
        assert forall|p: ChunkCoordinate|
            c.load_state(p).rank() <= d.load_state(p).rank() by {
            if c.load_queue.contains(p) && !d.load_queue.contains(p) {
                let i = choose|i: int| 0 <= i < c.load_queue.len() && c.load_queue[i] == p;
                let n = min(c.config.max_generation_per_frame as int, c.load_queue.len() as int);
                if i >= n {
                    assert(d.load_queue[i - n] == p);
                } else {
                    assert(c.load_jobs()[i] == p);
                    assert(c.load_jobs().contains(p));
                }
            }
        }
        assert(d.pending() == c.pending());
    }
    assert(e.advances(d)) by {
        assert(e.pending() == d.pending());
        assert forall|p: ChunkCoordinate|
            d.mesh_state(p).rank() <= e.mesh_state(p).rank() by {
            if d.build_queue.contains(p) && !e.build_queue.contains(p) {
                let i = choose|i: int| 0 <= i < d.build_queue.len() && d.build_queue[i] == p;
                let n = min(d.config.max_mesh_per_frame as int, d.build_queue.len() as int);
                let rest = d.build_queue.skip(n);
                vstd::seq_lib::lemma_seq_concat_contains_all_elements(
                    rest,
                    d.build_deferred(),
                    p,
                );
                if i >= n {
                    assert(rest[i - n] == p);
                    assert(rest.contains(p));
                } else {
                    assert(d.build_candidates()[i] == p);
                    assert(d.build_candidates().contains(p));
                    lemma_filter_keeps(d.build_candidates(), d.resident_test(), p);
                    lemma_filter_keeps(d.build_candidates(), d.absent_test(), p);
                }
            }
        }
    }
}

/// Moving the focal point moves no coordinate back.
proof fn lemma_refocus_advances(s: Schedule, focal: ChunkCoordinate)
    ensures
        s.refocus(focal).advances(s),
{
    let t = s.refocus(focal);
    assert(t.pending() == s.pending());
    assert forall|p: ChunkCoordinate|
        s.load_state(p).rank() <= t.load_state(p).rank() && s.mesh_state(p).rank()
            <= t.mesh_state(p).rank() by {
        if s.current_chunk != Some(focal) {
            let candidates = prioritized(
                focal,
                s.config.load_radius as nat,
                s.config.padding as nat,
            );
            let moved = Schedule { current_chunk: Some(focal), ..s };
            vstd::seq_lib::lemma_seq_concat_contains_all_elements(
                s.load_queue,
                candidates.filter(moved.load_test()),
                p,
            );
            vstd::seq_lib::lemma_seq_concat_contains_all_elements(
                s.build_queue,
                candidates.filter(moved.build_test(focal)),
                p,
            );
        }
    }
}

/// Handing out the meshes that wait for upload moves no coordinate back.
pub proof fn lemma_resolve_uploads_advances(s: Schedule)
    ensures
        s.resolve_uploads().advances(s),
{
    let t = s.resolve_uploads();
    assert(t.pending() =~= Seq::empty());
}

/// Draining comes before handing out: a chunk whose voxel data arrives with a
/// tick gets its mesh job in that same tick, if the dispatch looks at its entry
/// of the build queue.
pub proof fn lemma_arrival_is_eligible(
    s: Schedule,
    focal: ChunkCoordinate,
    generated: Seq<Chunk>,
    meshed: Seq<(ChunkCoordinate, UnUploadedMesh)>,
    i: int,
)
    requires
        s.consistent(),
        s.accepts_chunks(generated),
        s.accepts_meshes(meshed),
        0 <= i < generated.len(),
        s.drained(focal, generated, meshed).dispatch_loads().build_candidates().contains(
            generated[i].position,
        ),
    ensures
        s.drained(focal, generated, meshed).dispatch_loads().build_jobs().contains(
            generated[i].position,
        ),
{
    lemma_accept_chunks(s, generated);
    let a = s.accept_chunks(generated);
    lemma_accept_meshes(a, meshed);
    let d = s.drained(focal, generated, meshed).dispatch_loads();
    assert(a.chunks.contains_key(generated[i].position));
    assert(d.chunks == a.chunks);
    lemma_filter_keeps(d.build_candidates(), d.resident_test(), generated[i].position);
}

} // verus!
